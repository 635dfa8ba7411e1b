//! The cache index and the signed tokens that gate delivery from it.

use vstd::prelude::*;

use crate::text::{
    append_chars, append_str, decimal, decimal_chars, lemma_decimal_value, string_of,
};
use crate::types::{Song, SongId, UuidString};

pub mod proxy;
pub mod range;
pub mod receipt;
pub mod token;

verus! {

pub type CdnFetchToken = UuidString;

pub type ChecksumType = String;

pub type TimestampType = i64;

pub type SignTimestampType = String;

pub type SignType = String;

pub type RandType = String;

pub type UidType = String;

/// The configuration of the cache: where videos, overrides and downloads
/// live, how long a token stays valid and the secret that signs it.
#[derive(Debug)]
pub struct CdnServiceImpl {
    pub video_path: String,
    pub video_override_path: String,
    pub cache_path: String,
    pub token_valid_seconds: i64,
    pub token_sign_secret: String,
}

/// What a request for a song comes to: a token for the cached file, with the
/// checksum, the time of signing, the signature and the time as signed; or a
/// miss.
#[derive(Debug, Clone)]
pub enum CdnFetchResult {
    Hit(CdnFetchToken, ChecksumType, TimestampType, SignType, SignTimestampType),
    Miss,
}

/// A video present on disk.
#[derive(Debug, Clone)]
pub enum CachedVideo {
    Video { video_file: String, metadata_json_file: String },
    VideoOverride { video_file: String },
}

/// The outcome of looking a song up: the video, or the paths at which a
/// download would be published.
#[derive(Debug, Clone)]
pub enum CachedVideoFile {
    Available(CachedVideo),
    Unavailable { video_file: String, metadata_json_file: String },
}

impl CachedVideo {
    /// The path of the video, whichever kind it is.
    pub open spec fn spec_video_file(&self) -> Seq<char> {
        match self {
            CachedVideo::Video { video_file, .. } => video_file@,
            CachedVideo::VideoOverride { video_file } => video_file@,
        }
    }

    /// The path of the video, whichever kind it is.
    pub fn video_file(&self) -> (path: String)
        ensures
            path@ == self.spec_video_file(),
    {
        match self {
            CachedVideo::Video { video_file, .. } => video_file.clone(),
            CachedVideo::VideoOverride { video_file } => video_file.clone(),
        }
    }
}

impl CdnServiceImpl {
    pub fn new(
        video_path: String,
        video_override_path: String,
        cache_path: String,
        token_valid_seconds: i64,
        token_sign_secret: String,
    ) -> (service: CdnServiceImpl)
        ensures
            service.video_path == video_path,
            service.video_override_path == video_override_path,
            service.cache_path == cache_path,
            service.token_valid_seconds == token_valid_seconds,
            service.token_sign_secret == token_sign_secret,
    {
        CdnServiceImpl {
            video_path,
            video_override_path,
            cache_path,
            token_valid_seconds,
            token_sign_secret,
        }
    }
}

/// What the file system showed of the three paths of a song.
#[derive(Debug, Clone, Copy)]
pub struct PathProbe {
    pub override_exists: bool,
    pub metadata_exists: bool,
    pub video_exists: bool,
}

/// Why a cached video has no checksum.
#[derive(Debug, Clone, Copy, PartialEq, Eq, Structural)]
pub enum ChecksumError {
    /// The override file's time of modification could not be read.
    NoModifiedTime,
    /// The descriptor beside the video could not be read.
    NoMetadata,
    /// The descriptor holds no checksum.
    NoChecksum,
    /// No video is cached under that id.
    NotFound,
}

/// The checksum of an override file last modified at `modified` seconds.
pub open spec fn override_checksum(modified: nat) -> Seq<char> {
    "override"@ + decimal(modified)
}

/// Where a download from the client port `port` of the upstream file `file`
/// is kept until it is complete.
pub open spec fn download_tmp_path(cache_path: Seq<char>, port: u16, file: Seq<char>) -> Seq<char> {
    cache_path + seq!['/'] + decimal(port as nat) + seq!['_'] + file
}

impl CdnServiceImpl {
    /// `{video_path}/{id}/video.mp4`
    pub open spec fn spec_video_mp4(&self, id: SongId) -> Seq<char> {
        self.video_path@ + seq!['/'] + decimal(id as nat) + "/video.mp4"@
    }

    /// `{video_path}/{id}/metadata.json`
    pub open spec fn spec_metadata_json(&self, id: SongId) -> Seq<char> {
        self.video_path@ + seq!['/'] + decimal(id as nat) + "/metadata.json"@
    }

    /// `{video_override_path}/{id}.mp4`
    pub open spec fn spec_override_mp4(&self, id: SongId) -> Seq<char> {
        self.video_override_path@ + seq!['/'] + decimal(id as nat) + ".mp4"@
    }

    /// What looking up `id` comes to, given what exists on disk: the
    /// override if it exists, else the video with its descriptor if both
    /// exist, else the two paths where they would be.
    pub open spec fn spec_resolve(&self, id: SongId, probe: PathProbe, r: CachedVideoFile) -> bool {
        if probe.override_exists {
            &&& r matches CachedVideoFile::Available(CachedVideo::VideoOverride { video_file })
            &&& video_file@ == self.spec_override_mp4(id)
        } else if probe.metadata_exists && probe.video_exists {
            &&& r matches CachedVideoFile::Available(
                CachedVideo::Video { video_file, metadata_json_file },
            )
            &&& video_file@ == self.spec_video_mp4(id)
            &&& metadata_json_file@ == self.spec_metadata_json(id)
        } else {
            &&& r matches CachedVideoFile::Unavailable { video_file, metadata_json_file }
            &&& video_file@ == self.spec_video_mp4(id)
            &&& metadata_json_file@ == self.spec_metadata_json(id)
        }
    }

    /// `{root}/{id}{tail}`
    fn song_path(root: &String, id: SongId, tail: &str) -> (path: String)
        ensures
            path@ == root@ + seq!['/'] + decimal(id as nat) + tail@,
    {
        let mut out: Vec<char> = Vec::new();
        append_str(&mut out, root.as_str());
        out.push('/');
        let id_text = decimal_chars(id as u64);
        append_chars(&mut out, id_text.as_slice());
        append_str(&mut out, tail);
        string_of(out.as_slice())
    }

    /// The three paths that belong to `id`: the override, the video and its
    /// descriptor.
    pub fn song_paths(&self, id: SongId) -> (paths: (String, String, String))
        requires
            id != 0,
        ensures
            paths.0@ == self.spec_override_mp4(id),
            paths.1@ == self.spec_video_mp4(id),
            paths.2@ == self.spec_metadata_json(id),
    {
        (
            Self::song_path(&self.video_override_path, id, ".mp4"),
            Self::song_path(&self.video_path, id, "/video.mp4"),
            Self::song_path(&self.video_path, id, "/metadata.json"),
        )
    }

    /// Looks `id` up, given what exists on disk. An override shadows the
    /// video whatever else exists.
    pub fn get_video_file_path(&self, id: SongId, probe: PathProbe) -> (r: CachedVideoFile)
        requires
            id != 0,
        ensures
            self.spec_resolve(id, probe, r),
            probe.override_exists ==> r matches CachedVideoFile::Available(
                CachedVideo::VideoOverride { .. },
            ),
    {
        let (override_mp4, video_mp4, metadata_json) = self.song_paths(id);
        if probe.override_exists {
            return CachedVideoFile::Available(
                CachedVideo::VideoOverride { video_file: override_mp4 },
            );
        }
        if probe.metadata_exists && probe.video_exists {
            return CachedVideoFile::Available(
                CachedVideo::Video { video_file: video_mp4, metadata_json_file: metadata_json },
            );
        }
        CachedVideoFile::Unavailable { video_file: video_mp4, metadata_json_file: metadata_json }
    }

    /// The checksum of a cached video. For an override it is `override`
    /// followed by the seconds at which the file was last modified; for a
    /// video it is the checksum that its descriptor holds.
    pub fn get_video_file_checksum_by_cached_video(
        &self,
        cached_video: &CachedVideo,
        modified_secs: Option<u64>,
        metadata: Option<&Song>,
    ) -> (r: Result<ChecksumType, ChecksumError>)
        ensures
            match (*cached_video, modified_secs, metadata) {
                (CachedVideo::VideoOverride { .. }, Some(t), _) => {
                    &&& r matches Ok(c)
                    &&& c@ == override_checksum(t as nat)
                },
                (CachedVideo::VideoOverride { .. }, None, _) => r == Err::<
                    ChecksumType,
                    ChecksumError,
                >(ChecksumError::NoModifiedTime),
                (CachedVideo::Video { .. }, _, Some(song)) => match song.checksum {
                    Some(sum) => r matches Ok(c) && c@ == sum@,
                    None => r == Err::<ChecksumType, ChecksumError>(ChecksumError::NoChecksum),
                },
                (CachedVideo::Video { .. }, _, None) => r == Err::<ChecksumType, ChecksumError>(
                    ChecksumError::NoMetadata,
                ),
            },
    {
        match cached_video {
            CachedVideo::VideoOverride { .. } => match modified_secs {
                Some(t) => {
                    let mut out: Vec<char> = Vec::new();
                    append_str(&mut out, "override");
                    let digits = decimal_chars(t);
                    append_chars(&mut out, digits.as_slice());
                    Ok(string_of(out.as_slice()))
                },
                None => Err(ChecksumError::NoModifiedTime),
            },
            CachedVideo::Video { .. } => match metadata {
                Some(song) => match &song.checksum {
                    Some(sum) => Ok(sum.clone()),
                    None => Err(ChecksumError::NoChecksum),
                },
                None => Err(ChecksumError::NoMetadata),
            },
        }
    }

    /// The checksum of the video cached under `id`, if there is one.
    pub fn get_video_file_checksum_by_id(
        &self,
        id: SongId,
        probe: PathProbe,
        modified_secs: Option<u64>,
        metadata: Option<&Song>,
    ) -> (r: Result<ChecksumType, ChecksumError>)
        requires
            id != 0,
        ensures
            if probe.override_exists {
                match modified_secs {
                    Some(t) => r matches Ok(c) && c@ == override_checksum(t as nat),
                    None => r == Err::<ChecksumType, ChecksumError>(ChecksumError::NoModifiedTime),
                }
            } else if probe.metadata_exists && probe.video_exists {
                match metadata {
                    Some(song) => match song.checksum {
                        Some(sum) => r matches Ok(c) && c@ == sum@,
                        None => r == Err::<ChecksumType, ChecksumError>(ChecksumError::NoChecksum),
                    },
                    None => r == Err::<ChecksumType, ChecksumError>(ChecksumError::NoMetadata),
                }
            } else {
                r == Err::<ChecksumType, ChecksumError>(ChecksumError::NotFound)
            },
    {
        match self.get_video_file_path(id, probe) {
            CachedVideoFile::Available(cached_video) => {
                self.get_video_file_checksum_by_cached_video(&cached_video, modified_secs, metadata)
            },
            CachedVideoFile::Unavailable { .. } => Err(ChecksumError::NotFound),
        }
    }

    /// Whether the local cache can serve the upstream file `file` of `size`
    /// bytes with the checksum `md5`, and the paths that a download of it
    /// would use: `(download_tmp, video_path, metadata_path, satisfied)`.
    ///
    /// An override always serves. A cached video serves if it has exactly
    /// `size` bytes and its descriptor holds `md5`; `video_size` is `None`
    /// where the size could not be read, `metadata` where the descriptor
    /// could not.
    pub fn serve_local_cache(
        &self,
        id: SongId,
        file: &String,
        md5: &String,
        size: u64,
        client_port: u16,
        probe: PathProbe,
        video_size: Option<u64>,
        metadata: Option<&Song>,
    ) -> (r: (String, String, String, bool))
        requires
            id != 0,
        ensures
            r.0@ == download_tmp_path(self.cache_path@, client_port, file@),
            if probe.override_exists {
                &&& r.1@ == self.spec_override_mp4(id)
                &&& r.2@ == Seq::<char>::empty()
                &&& r.3
            } else {
                &&& r.1@ == self.spec_video_mp4(id)
                &&& r.2@ == self.spec_metadata_json(id)
                &&& r.3 <==> {
                    &&& probe.metadata_exists
                    &&& probe.video_exists
                    &&& size == match video_size {
                        Some(n) => n,
                        None => 0,
                    }
                    &&& metadata matches Some(song)
                    &&& song.checksum matches Some(sum)
                    &&& sum@ == md5@
                }
            },
    {
        let mut tmp: Vec<char> = Vec::new();
        append_str(&mut tmp, self.cache_path.as_str());
        tmp.push('/');
        let port_text = decimal_chars(client_port as u64);
        append_chars(&mut tmp, port_text.as_slice());
        tmp.push('_');
        append_str(&mut tmp, file.as_str());
        let download_tmp_file = string_of(tmp.as_slice());
        match self.get_video_file_path(id, probe) {
            CachedVideoFile::Available(CachedVideo::VideoOverride { video_file }) => {
                (download_tmp_file, video_file, String::new(), true)
            },
            CachedVideoFile::Available(CachedVideo::Video { video_file, metadata_json_file }) => {
                let actual: u64 = match video_size {
                    Some(n) => n,
                    None => 0,
                };
                if actual != size {
                    return (download_tmp_file, video_file, metadata_json_file, false);
                }
                let song = match metadata {
                    Some(song) => song,
                    None => {
                        return (download_tmp_file, video_file, metadata_json_file, false);
                    },
                };
                match &song.checksum {
                    Some(sum) => {
                        let same = *sum == *md5;
                        (download_tmp_file, video_file, metadata_json_file, same)
                    },
                    None => (download_tmp_file, video_file, metadata_json_file, false),
                }
            },
            CachedVideoFile::Unavailable { video_file, metadata_json_file } => {
                (download_tmp_file, video_file, metadata_json_file, false)
            },
        }
    }
}

/// Downloads of one file from two client ports never share a temporary path.
pub proof fn lemma_download_tmp_isolated(
    cache_path: Seq<char>,
    file: Seq<char>,
    port_a: u16,
    port_b: u16,
)
    requires
        port_a != port_b,
    ensures
        download_tmp_path(cache_path, port_a, file) != download_tmp_path(cache_path, port_b, file),
{
    let a = decimal(port_a as nat);
    let b = decimal(port_b as nat);
    let head = cache_path + seq!['/'];
    let tail = seq!['_'] + file;
    let pa = download_tmp_path(cache_path, port_a, file);
    let pb = download_tmp_path(cache_path, port_b, file);
    assert(pa =~= head + a + tail);
    assert(pb =~= head + b + tail);
    if pa == pb {
        assert(a.len() == b.len()) by {
            assert(pa.len() == head.len() + a.len() + tail.len());
            assert(pb.len() == head.len() + b.len() + tail.len());
        }
        assert forall|i: int| 0 <= i < a.len() implies a[i] == b[i] by {
            assert(pa[head.len() + i] == a[i]);
            assert(pb[head.len() + i] == b[i]);
        }
        assert(a =~= b);
        lemma_decimal_value(port_a as nat);
        lemma_decimal_value(port_b as nat);
    }
}

} // verus!
