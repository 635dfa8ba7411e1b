//! The index of the songs on disk, built once and kept until a rebuild is
//! asked for.

use vstd::prelude::*;

use crate::text::{chars_of, decimal, decimal_chars, same_chars};
use crate::types::{is_index, songs_to_index, sorted_by_id, Song, SongIndex};

verus! {

/// The index of the songs under `video_path`, once it is built.
#[derive(Debug)]
pub struct IndexServiceImpl {
    pub video_path: String,
    pub index: Option<SongIndex>,
}

/// Whether a descriptor found in the directory `directory` belongs there:
/// the directory is named by the id of the song.
pub open spec fn belongs(directory: Seq<char>, song: Song) -> bool {
    directory == decimal(song.id as nat)
}

/// The descriptors among `found` that belong in the directory they were
/// found in, in the same order.
pub open spec fn admitted(found: Seq<(String, Song)>) -> Seq<Song>
    decreases found.len(),
{
    if found.len() == 0 {
        Seq::empty()
    } else if belongs(found.last().0@, found.last().1) {
        admitted(found.drop_last()).push(found.last().1)
    } else {
        admitted(found.drop_last())
    }
}

/// Whether a descriptor found in the directory `directory` belongs there.
pub fn belongs_in(directory: &str, song: &Song) -> (r: bool)
    ensures
        r == belongs(directory@, *song),
{
    let name = chars_of(directory);
    let id = decimal_chars(song.id as u64);
    same_chars(name.as_slice(), id.as_slice())
}

impl IndexServiceImpl {
    /// A service that has no index yet.
    pub fn new(video_path: String) -> (service: Self)
        ensures
            service.video_path == video_path,
            service.index is None,
    {
        IndexServiceImpl { video_path, index: None }
    }

    /// The index to answer with, if one is kept and no rebuild is forced. A
    /// forced rebuild forgets the index that is kept.
    pub fn get_index(&mut self, force_rebuild: bool) -> (kept: bool)
        ensures
            final(self).video_path == old(self).video_path,
            final(self).index == if force_rebuild {
                None
            } else {
                old(self).index
            },
            kept == final(self).index is Some,
    {
        if force_rebuild {
            self.index = None;
        }
        self.index.is_some()
    }

    /// Builds the index at the time `updated_at` from the descriptors found
    /// on disk, each with the name of its directory, and keeps it.
    /// Descriptors that do not belong in their directory are left out. The
    /// order in which the descriptors were found counts for nothing.
    pub fn build_index(&mut self, found: Vec<(String, Song)>, updated_at: i64)
        ensures
            final(self).video_path == old(self).video_path,
            final(self).index matches Some(index) && exists|songs: Seq<Song>|
                songs.to_multiset() == admitted(found@).to_multiset() && is_index(
                    sorted_by_id(songs),
                    updated_at,
                    index,
                ),
    {
        let mut found = found;
        let ghost all = found@;
        let mut songs: Vec<Song> = Vec::new();
        proof {
            broadcast use vstd::multiset::group_multiset_axioms;

            songs@.to_multiset_ensures();
            vstd::multiset::lemma_multiset_empty_len(songs@.to_multiset());
            assert(songs@.to_multiset() =~= vstd::multiset::Multiset::<Song>::empty());
            assert(admitted(found@).to_multiset().add(songs@.to_multiset()) =~= admitted(
                all,
            ).to_multiset());
        }
        while found.len() > 0
            invariant
                admitted(found@).to_multiset().add(songs@.to_multiset()) == admitted(
                    all,
                ).to_multiset(),
            decreases found.len(),
        {
            let ghost before = found@;
            let ghost had = songs@;
            match found.pop() {
                Some((directory, song)) => {
                    assert(before.drop_last() =~= found@);
                    if belongs_in(directory.as_str(), &song) {
                        songs.push(song);
                        proof {
                            broadcast use vstd::multiset::group_multiset_axioms;

                            vstd::seq_lib::to_multiset_build(admitted(found@), song);
                            vstd::seq_lib::to_multiset_build(had, song);
                            assert(admitted(found@).to_multiset().add(songs@.to_multiset())
                                =~= admitted(before).to_multiset().add(had.to_multiset()));
                        }
                    }
                },
                None => {
                    assert(false);
                },
            }
        }
        proof {
            broadcast use vstd::multiset::group_multiset_axioms;

            assert(found@ =~= Seq::<(String, Song)>::empty());
            admitted(found@).to_multiset_ensures();
            vstd::multiset::lemma_multiset_empty_len(admitted(found@).to_multiset());
            assert(admitted(found@).to_multiset() =~= vstd::multiset::Multiset::<Song>::empty());
            assert(songs@.to_multiset() =~= admitted(all).to_multiset());
        }
        self.index = Some(songs_to_index(songs, updated_at));
    }
}

} // verus!
