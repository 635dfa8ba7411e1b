//! Identifiers, the song descriptor and the index of songs.

use vstd::prelude::*;

use crate::text::{
    ascending, chars_of, copy_strings, find_str, has_sub, lemma_ascending_insert,
    lemma_insert_contains, lemma_lex_total, lex_less, same_chars, string_of, string_texts,
    text_less, texts,
};

pub mod timedmap;

verus! {

pub type SongId = u32;

pub type CategoryId = u32;

pub type UuidString = String;

/// The descriptor of one song, as kept beside its video file.
///
/// `volume_bits` holds the bit pattern of the single-precision volume; the
/// library carries it through without reading it.
#[derive(Debug)]
pub struct Song {
    pub id: SongId,
    pub category: CategoryId,
    pub title: String,
    pub category_name: String,
    pub title_spell: String,
    pub player_index: u32,
    pub volume_bits: u32,
    pub start: u32,
    pub end: u32,
    pub flip: bool,
    pub skip_random: bool,
    pub original_url: Option<Vec<String>>,
    pub checksum: Option<String>,
}

/// A titled list of songs.
#[derive(Debug, Clone)]
pub struct Category {
    pub title: String,
    pub entries: Vec<Song>,
}

/// The songs by category, and when the list was made.
#[derive(Debug, Clone)]
pub struct SongIndex {
    pub updated_at: i64,
    pub categories: Vec<Category>,
}

impl Song {
    /// Whether the two descriptors say the same.
    pub open spec fn same(&self, other: &Song) -> bool {
        &&& self.id == other.id
        &&& self.category == other.category
        &&& self.title@ == other.title@
        &&& self.category_name@ == other.category_name@
        &&& self.title_spell@ == other.title_spell@
        &&& self.player_index == other.player_index
        &&& self.volume_bits == other.volume_bits
        &&& self.start == other.start
        &&& self.end == other.end
        &&& self.flip == other.flip
        &&& self.skip_random == other.skip_random
        &&& match (self.original_url, other.original_url) {
            (Some(a), Some(b)) => string_texts(a@) == string_texts(b@),
            (None, None) => true,
            _ => false,
        }
        &&& match (self.checksum, other.checksum) {
            (Some(a), Some(b)) => a@ == b@,
            (None, None) => true,
            _ => false,
        }
    }
}

impl Clone for Song {
    fn clone(&self) -> (r: Self)
        ensures
            self.same(&r),
    {
        Song {
            id: self.id,
            category: self.category,
            title: self.title.clone(),
            category_name: self.category_name.clone(),
            title_spell: self.title_spell.clone(),
            player_index: self.player_index,
            volume_bits: self.volume_bits,
            start: self.start,
            end: self.end,
            flip: self.flip,
            skip_random: self.skip_random,
            original_url: match &self.original_url {
                Some(urls) => Some(copy_strings(urls)),
                None => None,
            },
            checksum: match &self.checksum {
                Some(sum) => Some(sum.clone()),
                None => None,
            },
        }
    }
}

// ---------------------------------------------------------------------------
// The index
// ---------------------------------------------------------------------------

/// Which songs a category takes.
#[derive(Debug)]
pub enum Pick {
    /// Every song.
    All,
    /// The songs whose title holds `[Song]`.
    Family,
    /// The songs of the category of this name.
    Named(Vec<char>),
}

/// Which songs a category takes, as a value of specifications.
pub enum PickView {
    All,
    Family,
    Named(Seq<char>),
}

impl View for Pick {
    type V = PickView;

    open spec fn view(&self) -> PickView {
        match self {
            Pick::All => PickView::All,
            Pick::Family => PickView::Family,
            Pick::Named(name) => PickView::Named(name@),
        }
    }
}

impl PickView {
    /// Whether the category takes `song`.
    pub open spec fn takes(self, song: Song) -> bool {
        match self {
            PickView::All => true,
            PickView::Family => has_sub(song.title@, "[Song]"@),
            PickView::Named(name) => song.category_name@ == name,
        }
    }
}

impl Pick {
    /// Whether the category takes `song`.
    pub fn picks(&self, song: &Song) -> (r: bool)
        ensures
            r == self@.takes(*song),
    {
        match self {
            Pick::All => true,
            Pick::Family => {
                let title = chars_of(song.title.as_str());
                let mark = chars_of("[Song]");
                find_str(title.as_slice(), mark.as_slice()).is_some()
            },
            Pick::Named(name) => {
                let have = chars_of(song.category_name.as_str());
                same_chars(have.as_slice(), name.as_slice())
            },
        }
    }
}

/// Those of `songs` that `pick` takes, in the same order.
pub open spec fn kept(songs: Seq<Song>, pick: PickView) -> Seq<Song>
    decreases songs.len(),
{
    if songs.len() == 0 {
        Seq::empty()
    } else if pick.takes(songs.last()) {
        kept(songs.drop_last(), pick).push(songs.last())
    } else {
        kept(songs.drop_last(), pick)
    }
}

/// Whether `copy` holds the same descriptors as `songs`, in the same order.
pub open spec fn copies(songs: Seq<Song>, copy: Seq<Song>) -> bool {
    &&& songs.len() == copy.len()
    &&& forall|i: int| 0 <= i < songs.len() ==> (#[trigger] songs[i]).same(&copy[i])
}

/// Whether `songs` are in the order of their ids.
pub open spec fn by_id(songs: Seq<Song>) -> bool {
    forall|i: int, j: int|
        0 <= i < j < songs.len() ==> (#[trigger] songs[i]).id <= (#[trigger] songs[j]).id
}

/// The category names that `songs` have.
pub open spec fn names_of(songs: Seq<Song>) -> Seq<Seq<char>> {
    Seq::new(songs.len(), |i: int| songs[i].category_name@)
}

/// The titles of `categories`.
pub open spec fn titles_of(categories: Seq<Category>) -> Seq<Seq<char>> {
    Seq::new(categories.len(), |i: int| categories[i].title@)
}

/// Whether `category` lists, under the title `name`, the songs of `sorted`
/// that have that category name, of which there is one at least.
pub open spec fn is_group(sorted: Seq<Song>, name: Seq<char>, category: Category) -> bool {
    &&& category.title@ == name
    &&& category.entries@.len() > 0
    &&& copies(kept(sorted, PickView::Named(name)), category.entries@)
}

/// Whether `index` is the index of `sorted`, made at `updated_at`: first all
/// songs under `All Songs`; then those whose title holds `[Song]`, under
/// `Song's Family`; then one category for each category name that a song
/// has, in the order of dictionaries, with the songs of that name. Every
/// category lists its songs in the order of `sorted`.
pub open spec fn is_index(sorted: Seq<Song>, updated_at: i64, index: SongIndex) -> bool {
    let categories = index.categories@;
    &&& index.updated_at == updated_at
    &&& categories.len() >= 2
    &&& categories[0].title@ == "All Songs"@
    &&& copies(sorted, categories[0].entries@)
    &&& categories[1].title@ == "Song's Family"@
    &&& copies(kept(sorted, PickView::Family), categories[1].entries@)
    &&& forall|k: int|
        2 <= k < categories.len() ==> is_group(
            sorted,
            (#[trigger] categories[k]).title@,
            categories[k],
        )
    &&& ascending(titles_of(categories.skip(2)))
    &&& forall|i: int|
        0 <= i < sorted.len() ==> titles_of(categories.skip(2)).contains(
            #[trigger] names_of(sorted)[i],
        )
}

/// Everything is kept of songs that are all taken.
proof fn lemma_kept_all(songs: Seq<Song>)
    ensures
        kept(songs, PickView::All) == songs,
    decreases songs.len(),
{
    if songs.len() > 0 {
        lemma_kept_all(songs.drop_last());
        assert(songs.drop_last().push(songs.last()) =~= songs);
    } else {
        assert(songs =~= Seq::<Song>::empty());
    }
}

/// Where a song is taken, something is kept.
proof fn lemma_kept_some(songs: Seq<Song>, pick: PickView, i: int)
    requires
        0 <= i < songs.len(),
        pick.takes(songs[i]),
    ensures
        kept(songs, pick).len() > 0,
    decreases songs.len(),
{
    if i < songs.len() - 1 {
        lemma_kept_some(songs.drop_last(), pick, i);
    }
}

/// `sorted` with `song` put in before the first song whose id is not
/// smaller than its own.
pub open spec fn placed(song: Song, sorted: Seq<Song>) -> Seq<Song>
    decreases sorted.len(),
{
    if sorted.len() == 0 || sorted[0].id >= song.id {
        seq![song] + sorted
    } else {
        seq![sorted[0]] + placed(song, sorted.skip(1))
    }
}

/// The songs in the order of their ids, songs of the same id in the order
/// in which they came: the stable sort by id.
pub open spec fn sorted_by_id(songs: Seq<Song>) -> Seq<Song>
    decreases songs.len(),
{
    if songs.len() == 0 {
        Seq::empty()
    } else {
        placed(songs[0], sorted_by_id(songs.skip(1)))
    }
}

/// Where `song` is put: after the songs of smaller id and before the rest.
proof fn lemma_placed_at(song: Song, sorted: Seq<Song>, p: int)
    requires
        0 <= p <= sorted.len(),
        forall|j: int| 0 <= j < p ==> (#[trigger] sorted[j]).id < song.id,
        p < sorted.len() ==> sorted[p].id >= song.id,
    ensures
        placed(song, sorted) == sorted.insert(p, song),
    decreases p,
{
    if p == 0 {
        assert(seq![song] + sorted =~= sorted.insert(0, song));
    } else {
        assert(sorted[0].id < song.id);
        let rest = sorted.skip(1);
        assert forall|j: int| 0 <= j < p - 1 implies (#[trigger] rest[j]).id < song.id by {
            assert(sorted[j + 1].id < song.id);
        }
        lemma_placed_at(song, rest, p - 1);
        assert(seq![sorted[0]] + rest.insert(p - 1, song) =~= sorted.insert(p, song));
    }
}

/// Where `song` is put, as a position.
proof fn lemma_placed_somewhere(song: Song, sorted: Seq<Song>) -> (p: int)
    ensures
        0 <= p <= sorted.len(),
        forall|j: int| 0 <= j < p ==> (#[trigger] sorted[j]).id < song.id,
        p < sorted.len() ==> sorted[p].id >= song.id,
        placed(song, sorted) == sorted.insert(p, song),
    decreases sorted.len(),
{
    if sorted.len() == 0 || sorted[0].id >= song.id {
        lemma_placed_at(song, sorted, 0);
        0
    } else {
        let q = lemma_placed_somewhere(song, sorted.skip(1));
        let rest = sorted.skip(1);
        assert forall|j: int| 0 <= j < q + 1 implies (#[trigger] sorted[j]).id < song.id by {
            if j > 0 {
                assert(rest[j - 1].id < song.id);
            }
        }
        if q + 1 < sorted.len() {
            assert(rest[q] == sorted[q + 1]);
        }
        lemma_placed_at(song, sorted, q + 1);
        q + 1
    }
}

/// Sorting by id puts the songs in the order of their ids and neither
/// loses nor adds one.
pub proof fn lemma_sorted_by_id(songs: Seq<Song>)
    ensures
        by_id(sorted_by_id(songs)),
        sorted_by_id(songs).to_multiset() == songs.to_multiset(),
    decreases songs.len(),
{
    broadcast use vstd::multiset::group_multiset_axioms;

    if songs.len() == 0 {
        assert(sorted_by_id(songs) =~= songs);
    } else {
        let rest = songs.skip(1);
        let before = sorted_by_id(rest);
        lemma_sorted_by_id(rest);
        let p = lemma_placed_somewhere(songs[0], before);
        let after = before.insert(p, songs[0]);
        assert forall|i: int, j: int| 0 <= i < j < after.len() implies (#[trigger] after[i]).id <= (
        #[trigger] after[j]).id by {
            let x = if i < p { i } else { i - 1 };
            let y = if j < p { j } else { j - 1 };
            if i == p {
                assert(after[j] == before[y]);
                if y > p {
                    assert(before[p].id <= before[y].id);
                }
            } else if j == p {
                assert(after[i] == before[x]);
            } else {
                assert(after[i] == before[x]);
                assert(after[j] == before[y]);
            }
        }
        vstd::seq_lib::to_multiset_insert(before, p, songs[0]);
        vstd::seq_lib::to_multiset_insert(rest, 0, songs[0]);
        assert(rest.insert(0, songs[0]) =~= songs);
        assert(after.to_multiset() =~= songs.to_multiset());
    }
}

/// The songs in the order of their ids. Songs with the same id stay in the
/// order in which they came.
pub fn sort_by_id(songs: Vec<Song>) -> (sorted: Vec<Song>)
    ensures
        sorted@ == sorted_by_id(songs@),
        by_id(sorted@),
        sorted@.to_multiset() == songs@.to_multiset(),
{
    let mut rest = songs;
    let mut sorted: Vec<Song> = Vec::new();
    assert(songs@.skip(songs@.len() as int) =~= Seq::<Song>::empty());
    while rest.len() > 0
        invariant
            rest@ == songs@.take(rest@.len() as int),
            rest@.len() <= songs@.len(),
            sorted@ == sorted_by_id(songs@.skip(rest@.len() as int)),
        decreases rest.len(),
    {
        let ghost n = rest@.len() as int;
        let ghost before = sorted@;
        match rest.pop() {
            Some(item) => {
                assert(item == songs@[n - 1]);
                let mut p: usize = 0;
                while p < sorted.len() && sorted[p].id < item.id
                    invariant
                        p <= sorted@.len(),
                        forall|j: int| 0 <= j < p ==> (#[trigger] sorted@[j]).id < item.id,
                    decreases sorted.len() - p,
                {
                    p += 1;
                }
                proof {
                    lemma_placed_at(item, before, p as int);
                    assert(songs@.skip(n - 1).skip(1) =~= songs@.skip(n));
                    assert(songs@.skip(n - 1)[0] == item);
                    assert(rest@ =~= songs@.take(n - 1));
                }
                sorted.insert(p, item);
            },
            None => {
                assert(false);
            },
        }
    }
    proof {
        assert(songs@.skip(0) =~= songs@);
        lemma_sorted_by_id(songs@);
    }
    sorted
}

/// Copies of those of `songs` that `pick` takes, in the same order.
pub fn copy_kept(songs: &Vec<Song>, pick: &Pick) -> (out: Vec<Song>)
    ensures
        copies(kept(songs@, pick@), out@),
{
    let mut out: Vec<Song> = Vec::new();
    let mut i: usize = 0;
    assert(songs@.take(0) =~= Seq::<Song>::empty());
    while i < songs.len()
        invariant
            i <= songs@.len(),
            copies(kept(songs@.take(i as int), pick@), out@),
        decreases songs.len() - i,
    {
        proof {
            assert(songs@.take(i + 1).drop_last() =~= songs@.take(i as int));
            assert(songs@.take(i + 1).last() == songs@[i as int]);
        }
        if pick.picks(&songs[i]) {
            let copy = songs[i].clone();
            let ghost before = out@;
            out.push(copy);
            proof {
                let want = kept(songs@.take(i + 1), pick@);
                assert forall|j: int| 0 <= j < want.len() implies (#[trigger] want[j]).same(
                    &out@[j],
                ) by {
                    if j < before.len() {
                        assert(want[j] == kept(songs@.take(i as int), pick@)[j]);
                        assert(out@[j] == before[j]);
                    }
                }
            }
        }
        i += 1;
    }
    assert(songs@.take(songs@.len() as int) =~= songs@);
    out
}

/// The names of the categories that `songs` have, each once, in the order
/// of dictionaries.
pub fn category_names(songs: &Vec<Song>) -> (names: Vec<Vec<char>>)
    ensures
        ascending(texts(names@)),
        forall|i: int|
            0 <= i < songs@.len() ==> texts(names@).contains(#[trigger] names_of(songs@)[i]),
        forall|k: int|
            0 <= k < names@.len() ==> names_of(songs@).contains(#[trigger] texts(names@)[k]),
{
    let mut names: Vec<Vec<char>> = Vec::new();
    let mut i: usize = 0;
    while i < songs.len()
        invariant
            i <= songs@.len(),
            ascending(texts(names@)),
            forall|j: int|
                0 <= j < i ==> texts(names@).contains(#[trigger] names_of(songs@)[j]),
            forall|k: int|
                0 <= k < names@.len() ==> names_of(songs@).contains(#[trigger] texts(names@)[k]),
        decreases songs.len() - i,
    {
        let name = chars_of(songs[i].category_name.as_str());
        assert(name@ == names_of(songs@)[i as int]);
        let mut p: usize = 0;
        while p < names.len() && text_less(names[p].as_slice(), name.as_slice())
            invariant
                p <= names@.len(),
                forall|k: int| 0 <= k < p ==> lex_less(#[trigger] texts(names@)[k], name@),
            decreases names.len() - p,
        {
            assert(texts(names@)[p as int] == names@[p as int]@);
            p += 1;
        }
        let present = p < names.len() && same_chars(names[p].as_slice(), name.as_slice());
        let ghost before = texts(names@);
        if !present {
            proof {
                if p < names@.len() {
                    assert(before[p as int] == names@[p as int]@);
                    lemma_lex_total(before[p as int], name@);
                }
                lemma_ascending_insert(before, p as int, name@);
            }
            names.insert(p, name);
            proof {
                let after = texts(names@);
                assert(after =~= before.insert(p as int, name@));
                assert forall|j: int| 0 <= j < i + 1 implies after.contains(
                    #[trigger] names_of(songs@)[j],
                ) by {
                    lemma_insert_contains(before, p as int, name@, names_of(songs@)[j]);
                }
                assert forall|k: int| 0 <= k < names@.len() implies names_of(songs@).contains(
                    #[trigger] after[k],
                ) by {
                    if k == p {
                        assert(names_of(songs@)[i as int] == after[k]);
                    } else {
                        let x = if k < p { k } else { k - 1 };
                        assert(after[k] == before[x]);
                    }
                }
            }
        } else {
            proof {
                assert(before[p as int] == names@[p as int]@);
                assert(before.contains(names_of(songs@)[i as int]));
            }
        }
        i += 1;
    }
    names
}

/// The category of the songs of `sorted` that have the category name
/// `name`, which one of them has.
fn named_category(sorted: &Vec<Song>, name: Vec<char>) -> (category: Category)
    requires
        names_of(sorted@).contains(name@),
    ensures
        is_group(sorted@, name@, category),
{
    let title = string_of(name.as_slice());
    let pick = Pick::Named(name);
    proof {
        let i = choose|i: int| 0 <= i < sorted@.len() && names_of(sorted@)[i] == name@;
        lemma_kept_some(sorted@, pick@, i);
    }
    let entries = copy_kept(sorted, &pick);
    Category { title, entries }
}

/// Makes the index of `songs` at the time `updated_at`: the songs are put
/// in the order of their ids and listed by category.
pub fn songs_to_index(songs: Vec<Song>, updated_at: i64) -> (index: SongIndex)
    ensures
        is_index(sorted_by_id(songs@), updated_at, index),
{
    let sorted = sort_by_id(songs);
    let mut categories: Vec<Category> = Vec::new();
    let all = Category {
        title: string_of(chars_of("All Songs").as_slice()),
        entries: copy_kept(&sorted, &Pick::All),
    };
    proof {
        lemma_kept_all(sorted@);
    }
    categories.push(all);
    let family = Category {
        title: string_of(chars_of("Song's Family").as_slice()),
        entries: copy_kept(&sorted, &Pick::Family),
    };
    categories.push(family);
    let names = category_names(&sorted);
    let mut k: usize = 0;
    assert(titles_of(categories@.skip(2)) =~= texts(names@).take(0));
    while k < names.len()
        invariant
            k <= names@.len(),
            categories@.len() == k + 2,
            categories@[0].title@ == "All Songs"@,
            copies(sorted@, categories@[0].entries@),
            categories@[1].title@ == "Song's Family"@,
            copies(kept(sorted@, PickView::Family), categories@[1].entries@),
            forall|n: int|
                0 <= n < names@.len() ==> names_of(sorted@).contains(#[trigger] texts(names@)[n]),
            titles_of(categories@.skip(2)) == texts(names@).take(k as int),
            forall|c: int|
                2 <= c < categories@.len() ==> is_group(
                    sorted@,
                    (#[trigger] categories@[c]).title@,
                    categories@[c],
                ),
        decreases names.len() - k,
    {
        let name: Vec<char> = names[k].clone();
        assert(name@ == texts(names@)[k as int]);
        let category = named_category(&sorted, name);
        let ghost before = categories@;
        categories.push(category);
        proof {
            assert forall|c: int| 2 <= c < categories@.len() implies is_group(
                sorted@,
                (#[trigger] categories@[c]).title@,
                categories@[c],
            ) by {
                if c < before.len() {
                    assert(categories@[c] == before[c]);
                }
            }
            assert(titles_of(categories@.skip(2)) =~= texts(names@).take(k + 1)) by {
                assert forall|c: int| 0 <= c < k + 1 implies #[trigger] titles_of(
                    categories@.skip(2),
                )[c] == texts(names@).take(k + 1)[c] by {
                    if c < k {
                        assert(categories@.skip(2)[c] == before.skip(2)[c]);
                        assert(titles_of(before.skip(2))[c] == texts(names@).take(k as int)[c]);
                    }
                }
            }
        }
        k += 1;
    }
    assert(texts(names@).take(names@.len() as int) =~= texts(names@));
    SongIndex { updated_at, categories }
}

} // verus!
