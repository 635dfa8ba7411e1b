//! Fetching from an upstream while keeping a copy.
//!
//! A request that the cache cannot answer is passed to an upstream with a
//! few headers rewritten. The body of the answer goes to the client and, in
//! step, to a temporary file. Once as many bytes as expected are written the
//! temporary file is checked against the expected MD5 and, only if it
//! matches, published into the cache.
//!
//! The library decides; the caller performs. [`DownloadSession::step`] takes
//! what happened last and says what to do next.

use vstd::prelude::*;

use crate::digest::{hex_lower, md5_digest, md5_hex};
use crate::text::{
    append_str, ascii_lower, chars_of, decimal, decimal_chars, equals_str, string_of,
    to_ascii_lower,
};
use crate::types::{Song, SongId};

verus! {

/// Where a download goes and what it must turn out to be.
#[derive(Debug)]
pub struct InspectingOpts {
    pub id: SongId,
    pub download_tmp: String,
    pub cache_file: String,
    pub metadata_json: String,
    pub etag: String,
    pub expected_size: u64,
}

/// How a request is rewritten on its way to the upstream.
#[derive(Debug)]
pub struct ProxyOpts {
    pub host_override: Option<String>,
    pub user_agent_override: Option<String>,
    pub allow_304: bool,
}

/// The category that marks a descriptor written by a download.
pub const FETCHED_CATEGORY: u32 = 114514;

// ---------------------------------------------------------------------------
// Request headers
// ---------------------------------------------------------------------------

/// What becomes of one request header on its way upstream. Names are
/// compared and passed on in lower case.
///
/// - `host` takes the configured value, where one is configured;
/// - `user-agent` gets the configured suffix after a space, where one is
///   configured;
/// - `if-none-match` and `if-modified-since` are dropped unless conditional
///   requests are allowed;
/// - any other header passes unchanged.
pub open spec fn rewrite_header(name: Seq<char>, value: Seq<char>, opts: ProxyOpts) -> Option<
    (Seq<char>, Seq<char>),
> {
    let lower = ascii_lower(name);
    if lower == "host"@ && opts.host_override is Some {
        Some((lower, opts.host_override->0@))
    } else if lower == "user-agent"@ && opts.user_agent_override is Some {
        Some((lower, value + seq![' '] + opts.user_agent_override->0@))
    } else if (lower == "if-none-match"@ || lower == "if-modified-since"@) && !opts.allow_304 {
        None
    } else {
        Some((lower, value))
    }
}

/// The headers sent upstream for the headers received, in order.
pub open spec fn rewrite_headers(
    headers: Seq<(Seq<char>, Seq<char>)>,
    opts: ProxyOpts,
) -> Seq<(Seq<char>, Seq<char>)>
    decreases headers.len(),
{
    if headers.len() == 0 {
        Seq::empty()
    } else {
        let before = rewrite_headers(headers.drop_last(), opts);
        match rewrite_header(headers.last().0, headers.last().1, opts) {
            Some(header) => before.push(header),
            None => before,
        }
    }
}

/// The names and values of a list of headers, as text.
pub open spec fn header_views(headers: Seq<(String, String)>) -> Seq<(Seq<char>, Seq<char>)> {
    Seq::new(headers.len(), |i: int| (headers[i].0@, headers[i].1@))
}

/// What becomes of one request header on its way upstream.
pub fn rewrite_request_header(name: &String, value: &String, opts: &ProxyOpts) -> (r: Option<
    (String, String),
>)
    ensures
        match (r, rewrite_header(name@, value@, *opts)) {
            (Some(header), Some(wanted)) => header.0@ == wanted.0 && header.1@ == wanted.1,
            (None, None) => true,
            _ => false,
        },
{
    let chars = chars_of(name.as_str());
    let lower = to_ascii_lower(chars.as_slice());
    let lower_name = string_of(lower.as_slice());
    if equals_str(lower.as_slice(), "host") {
        match &opts.host_override {
            Some(host) => {
                return Some((lower_name, host.clone()));
            },
            None => {},
        }
    }
    if equals_str(lower.as_slice(), "user-agent") {
        match &opts.user_agent_override {
            Some(suffix) => {
                let mut joined: Vec<char> = chars_of(value.as_str());
                joined.push(' ');
                append_str(&mut joined, suffix.as_str());
                return Some((lower_name, string_of(joined.as_slice())));
            },
            None => {},
        }
    }
    let conditional = equals_str(lower.as_slice(), "if-none-match") || equals_str(
        lower.as_slice(),
        "if-modified-since",
    );
    if conditional && !opts.allow_304 {
        return None;
    }
    Some((lower_name, value.clone()))
}

/// Rewrites the headers of a request for the upstream. The caller sets them
/// on the outgoing request in order, a later one replacing an earlier one of
/// the same name.
pub fn rewrite_request_headers(headers: &Vec<(String, String)>, opts: &ProxyOpts) -> (out: Vec<
    (String, String),
>)
    ensures
        header_views(out@) == rewrite_headers(header_views(headers@), *opts),
{
    let mut out: Vec<(String, String)> = Vec::new();
    let ghost all = header_views(headers@);
    let mut i: usize = 0;
    assert(header_views(out@) =~= rewrite_headers(all.take(0), *opts));
    while i < headers.len()
        invariant
            i <= headers.len(),
            all == header_views(headers@),
            header_views(out@) == rewrite_headers(all.take(i as int), *opts),
        decreases headers.len() - i,
    {
        proof {
            assert(all.take(i + 1).drop_last() =~= all.take(i as int));
            assert(all.take(i + 1).last() == all[i as int]);
            assert(all[i as int] == (headers@[i as int].0@, headers@[i as int].1@));
        }
        match rewrite_request_header(&headers[i].0, &headers[i].1, opts) {
            Some(header) => {
                assert(header_views(out@.push(header)) =~= header_views(out@).push(
                    (header.0@, header.1@),
                ));
                out.push(header);
            },
            None => {},
        }
        i += 1;
    }
    assert(all.take(headers.len() as int) =~= all);
    out
}

// ---------------------------------------------------------------------------
// Publishing
// ---------------------------------------------------------------------------

/// Why a finished download was not published.
#[derive(Debug)]
pub struct ChecksumMismatch {
    pub expected: String,
    pub got: String,
}

/// Whether `song` is the descriptor written for a download of the song `id`
/// that matched `etag`: the id, the checksum and the id as title, everything
/// else blank.
pub open spec fn is_fetched_metadata(song: Song, id: SongId, etag: Seq<char>) -> bool {
    &&& song.id == id
    &&& song.category == FETCHED_CATEGORY
    &&& song.title@ == decimal(id as nat)
    &&& song.category_name@ == Seq::<char>::empty()
    &&& song.title_spell@ == Seq::<char>::empty()
    &&& song.player_index == 0
    &&& song.volume_bits == 0
    &&& song.start == 0
    &&& song.end == 0
    &&& !song.flip
    &&& !song.skip_random
    &&& song.original_url is None
    &&& song.checksum matches Some(sum)
    &&& sum@ == etag
}

/// The descriptor written beside a video that a download has filled in.
pub fn fetched_metadata(id: SongId, etag: &String) -> (song: Song)
    ensures
        is_fetched_metadata(song, id, etag@),
{
    Song {
        id,
        category: FETCHED_CATEGORY,
        title: string_of(decimal_chars(id as u64).as_slice()),
        category_name: String::new(),
        title_spell: String::new(),
        player_index: 0,
        volume_bits: 0,
        start: 0,
        end: 0,
        flip: false,
        skip_random: false,
        original_url: None,
        checksum: Some(etag.clone()),
    }
}

/// Decides on a finished download whose MD5, in lowercase hexadecimal, is
/// `md5`: it is published, with the descriptor given, exactly when `md5` is
/// the expected `etag`.
pub fn publish_checked(id: SongId, md5: String, etag: &String) -> (r: Result<
    Song,
    ChecksumMismatch,
>)
    ensures
        match r {
            Ok(song) => md5@ == etag@ && is_fetched_metadata(song, id, etag@),
            Err(mismatch) => {
                &&& md5@ != etag@
                &&& mismatch.expected@ == etag@
                &&& mismatch.got@ == md5@
            },
        },
{
    if md5 != *etag {
        return Err(ChecksumMismatch { expected: etag.clone(), got: md5 });
    }
    Ok(fetched_metadata(id, etag))
}

/// Checks the bytes of a finished download against the expected MD5 and
/// gives the descriptor to write beside them. The download is published
/// exactly when the MD5 of `downloaded`, in lowercase hexadecimal, is `etag`.
pub fn publish_to_local_videos(id: SongId, downloaded: &[u8], etag: &String) -> (r: Result<
    Song,
    ChecksumMismatch,
>)
    ensures
        match r {
            Ok(song) => {
                &&& hex_lower(md5_digest(downloaded@)) == etag@
                &&& is_fetched_metadata(song, id, etag@)
            },
            Err(mismatch) => {
                &&& hex_lower(md5_digest(downloaded@)) != etag@
                &&& mismatch.expected@ == etag@
                &&& mismatch.got@ == hex_lower(md5_digest(downloaded@))
            },
        },
{
    publish_checked(id, md5_hex(downloaded), etag)
}

// ---------------------------------------------------------------------------
// The session
// ---------------------------------------------------------------------------

/// Where a download stands.
#[derive(Debug, Clone, Copy, PartialEq, Eq, Structural)]
pub enum SessionState {
    /// Nothing has been sent yet.
    Init,
    /// The request is on its way to the upstream.
    Dispatched,
    /// Waiting for the next piece of the body.
    Streaming,
    /// A piece of the body is being written to the client and the
    /// temporary file.
    WroteChunk,
    /// As many bytes as expected are written; the file is being synced.
    CompleteBytes,
    /// The file is on disk; its contents are being read back.
    Fsynced,
    /// The contents match the expected MD5; they are being published.
    Verified,
    /// Video and descriptor are in the cache; the temporary file is being
    /// removed.
    Published,
    /// The session is over and the cache holds the download.
    CleanedUp,
    /// The upstream failed or ended early. Nothing was published.
    UpstreamError,
    /// The contents do not match the expected MD5. Nothing was published,
    /// and the temporary file stays for inspection.
    ChecksumMismatch,
    /// The temporary file could not be opened, written, synced or read.
    /// Nothing was published.
    IoError,
    /// Publishing was begun and failed part-way.
    PublishFailed,
}

/// What has just happened.
#[derive(Debug)]
pub enum SessionEvent {
    /// The caller is ready to begin.
    Start,
    /// The upstream answered; `temp_opened` tells whether the temporary
    /// file could be opened for writing.
    Responded { temp_opened: bool },
    /// The upstream could not be reached.
    RequestFailed,
    /// A piece of the body of `len` bytes arrived.
    Chunk { len: u64 },
    /// Reading the body failed.
    UpstreamFailed,
    /// The body ended.
    UpstreamEnded,
    /// The piece was appended to the temporary file.
    Written,
    /// The piece could not be appended to the temporary file.
    WriteFailed,
    /// The temporary file was synced.
    Synced,
    /// Syncing the temporary file failed.
    SyncFailed,
    /// The temporary file was read back; these are its bytes.
    TempContents(Vec<u8>),
    /// The temporary file could not be read back.
    TempUnreadable,
    /// The video was copied and its descriptor written.
    PublishDone,
    /// Copying the video or writing its descriptor failed.
    PublishFailed,
    /// The temporary file was removed, or could not be.
    TempRemoved { removed: bool },
}

/// What to do next.
#[derive(Debug, Clone, Copy, PartialEq, Eq, Structural)]
pub enum SessionAction {
    /// Send the request upstream and mirror status and headers to the
    /// client; create the directories of the three paths and open the
    /// temporary file.
    Dispatch,
    /// Wait for the next piece of the body.
    ReadChunk,
    /// Write the piece to the client and append it to the temporary file.
    WriteChunk,
    /// Sync the temporary file to disk.
    Sync,
    /// Read the temporary file back.
    ReadTemp,
    /// Copy the temporary file to the cache path and write the descriptor
    /// of [`DownloadSession::metadata`] to the metadata path.
    Publish,
    /// Remove the temporary file; a failure is only logged.
    RemoveTemp,
    /// Remove the temporary file and close the connection.
    DiscardTemp,
    /// Write the piece to the client only, and go on reading.
    PassThrough,
    /// Close the connection.
    Finish,
    /// Nothing.
    Idle,
}

/// One download: its destination, its progress and where it stands.
#[derive(Debug)]
pub struct DownloadSession {
    pub opts: InspectingOpts,
    pub state: SessionState,
    pub total_written: u64,
    pub pending: u64,
}

impl SessionState {
    /// Whether the cache may have been written to: publishing has begun.
    pub open spec fn touched(self) -> bool {
        self is Verified || self is Published || self is CleanedUp || self is PublishFailed
    }

    /// Whether the session has failed without publishing anything.
    pub open spec fn failed_clean(self) -> bool {
        self is UpstreamError || self is ChecksumMismatch || self is IoError
    }
}

/// `total + len`, held at the largest value.
pub open spec fn add_written(total: u64, len: u64) -> u64 {
    if total + len > u64::MAX {
        u64::MAX
    } else {
        (total + len) as u64
    }
}

impl DownloadSession {
    /// What is done about an event that the state does not wait for: a piece
    /// of the body goes to the client only, the end of the body closes the
    /// connection, anything else is ignored.
    pub open spec fn spec_stray(event: SessionEvent) -> SessionAction {
        match event {
            SessionEvent::Chunk { .. } => SessionAction::PassThrough,
            SessionEvent::UpstreamFailed => SessionAction::Finish,
            SessionEvent::UpstreamEnded => SessionAction::Finish,
            _ => SessionAction::Idle,
        }
    }

    /// The session after `event`, and what to do next.
    pub open spec fn spec_step(self, event: SessionEvent) -> (DownloadSession, SessionAction) {
        match (self.state, event) {
            (SessionState::Init, SessionEvent::Start) => (
                DownloadSession { state: SessionState::Dispatched, ..self },
                SessionAction::Dispatch,
            ),
            (SessionState::Dispatched, SessionEvent::Responded { temp_opened }) => if temp_opened {
                (DownloadSession { state: SessionState::Streaming, ..self }, SessionAction::ReadChunk)
            } else {
                (DownloadSession { state: SessionState::IoError, ..self }, SessionAction::ReadChunk)
            },
            (SessionState::Dispatched, SessionEvent::RequestFailed) => (
                DownloadSession { state: SessionState::UpstreamError, ..self },
                SessionAction::Finish,
            ),
            (SessionState::Streaming, SessionEvent::Chunk { len }) => (
                DownloadSession { state: SessionState::WroteChunk, pending: len, ..self },
                SessionAction::WriteChunk,
            ),
            (SessionState::Streaming, SessionEvent::UpstreamFailed) => (
                DownloadSession { state: SessionState::UpstreamError, ..self },
                SessionAction::DiscardTemp,
            ),
            (SessionState::Streaming, SessionEvent::UpstreamEnded) => (
                DownloadSession { state: SessionState::UpstreamError, ..self },
                SessionAction::DiscardTemp,
            ),
            (SessionState::WroteChunk, SessionEvent::Written) => {
                let total = add_written(self.total_written, self.pending);
                if total >= self.opts.expected_size {
                    (
                        DownloadSession {
                            state: SessionState::CompleteBytes,
                            total_written: total,
                            pending: 0,
                            ..self
                        },
                        SessionAction::Sync,
                    )
                } else {
                    (
                        DownloadSession {
                            state: SessionState::Streaming,
                            total_written: total,
                            pending: 0,
                            ..self
                        },
                        SessionAction::ReadChunk,
                    )
                }
            },
            (SessionState::WroteChunk, SessionEvent::WriteFailed) => (
                DownloadSession { state: SessionState::IoError, pending: 0, ..self },
                SessionAction::ReadChunk,
            ),
            (SessionState::CompleteBytes, SessionEvent::Synced) => (
                DownloadSession { state: SessionState::Fsynced, ..self },
                SessionAction::ReadTemp,
            ),
            (SessionState::CompleteBytes, SessionEvent::SyncFailed) => (
                DownloadSession { state: SessionState::IoError, ..self },
                SessionAction::ReadChunk,
            ),
            (SessionState::Fsynced, SessionEvent::TempContents(bytes)) => if hex_lower(
                md5_digest(bytes@),
            ) == self.opts.etag@ {
                (DownloadSession { state: SessionState::Verified, ..self }, SessionAction::Publish)
            } else {
                (
                    DownloadSession { state: SessionState::ChecksumMismatch, ..self },
                    SessionAction::ReadChunk,
                )
            },
            (SessionState::Fsynced, SessionEvent::TempUnreadable) => (
                DownloadSession { state: SessionState::IoError, ..self },
                SessionAction::ReadChunk,
            ),
            (SessionState::Verified, SessionEvent::PublishDone) => (
                DownloadSession { state: SessionState::Published, ..self },
                SessionAction::RemoveTemp,
            ),
            (SessionState::Verified, SessionEvent::PublishFailed) => (
                DownloadSession { state: SessionState::PublishFailed, ..self },
                SessionAction::ReadChunk,
            ),
            (SessionState::Published, SessionEvent::TempRemoved { .. }) => (
                DownloadSession { state: SessionState::CleanedUp, ..self },
                SessionAction::ReadChunk,
            ),
            (_, stray) => (self, Self::spec_stray(stray)),
        }
    }

    /// A session that has not begun.
    pub fn new(opts: InspectingOpts) -> (session: DownloadSession)
        ensures
            session.opts == opts,
            session.state is Init,
            session.total_written == 0,
            session.pending == 0,
    {
        DownloadSession { opts, state: SessionState::Init, total_written: 0, pending: 0 }
    }

    /// The descriptor that [`SessionAction::Publish`] writes.
    pub fn metadata(&self) -> (song: Song)
        ensures
            is_fetched_metadata(song, self.opts.id, self.opts.etag@),
    {
        fetched_metadata(self.opts.id, &self.opts.etag)
    }

    fn stray(event: &SessionEvent) -> (action: SessionAction)
        ensures
            action == Self::spec_stray(*event),
    {
        match event {
            SessionEvent::Chunk { .. } => SessionAction::PassThrough,
            SessionEvent::UpstreamFailed => SessionAction::Finish,
            SessionEvent::UpstreamEnded => SessionAction::Finish,
            _ => SessionAction::Idle,
        }
    }

    /// Takes in the MD5 of the synced temporary file, in lowercase
    /// hexadecimal: the download is to be published exactly when that is
    /// the expected one. Outside the state that waits for it, nothing
    /// happens.
    pub fn verify(&mut self, md5: &String) -> (action: SessionAction)
        ensures
            final(self).opts == old(self).opts,
            final(self).total_written == old(self).total_written,
            final(self).pending == old(self).pending,
            (final(self).state, action) == if !(old(self).state is Fsynced) {
                (old(self).state, SessionAction::Idle)
            } else if md5@ == old(self).opts.etag@ {
                (SessionState::Verified, SessionAction::Publish)
            } else {
                (SessionState::ChecksumMismatch, SessionAction::ReadChunk)
            },
    {
        match self.state {
            SessionState::Fsynced => {
                if *md5 == self.opts.etag {
                    self.state = SessionState::Verified;
                    SessionAction::Publish
                } else {
                    self.state = SessionState::ChecksumMismatch;
                    SessionAction::ReadChunk
                }
            },
            _ => SessionAction::Idle,
        }
    }

    /// Takes in what has just happened and says what to do next.
    ///
    /// Publishing is called for in one case only: the session has synced its
    /// temporary file, at least the expected number of bytes is written, and
    /// the bytes read back have the expected MD5.
    pub fn step(&mut self, event: SessionEvent) -> (action: SessionAction)
        ensures
            (*final(self), action) == old(self).spec_step(event),
            final(self).opts == old(self).opts,
            action is Publish <==> {
                &&& old(self).state is Fsynced
                &&& event matches SessionEvent::TempContents(bytes)
                &&& hex_lower(md5_digest(bytes@)) == old(self).opts.etag@
            },
            final(self).state.touched() <==> old(self).state.touched() || action is Publish,
    {
        let state = self.state;
        match state {
            SessionState::Init => match event {
                SessionEvent::Start => {
                    self.state = SessionState::Dispatched;
                    SessionAction::Dispatch
                },
                other => Self::stray(&other),
            },
            SessionState::Dispatched => match event {
                SessionEvent::Responded { temp_opened } => {
                    if temp_opened {
                        self.state = SessionState::Streaming;
                    } else {
                        self.state = SessionState::IoError;
                    }
                    SessionAction::ReadChunk
                },
                SessionEvent::RequestFailed => {
                    self.state = SessionState::UpstreamError;
                    SessionAction::Finish
                },
                other => Self::stray(&other),
            },
            SessionState::Streaming => match event {
                SessionEvent::Chunk { len } => {
                    self.state = SessionState::WroteChunk;
                    self.pending = len;
                    SessionAction::WriteChunk
                },
                SessionEvent::UpstreamFailed => {
                    self.state = SessionState::UpstreamError;
                    SessionAction::DiscardTemp
                },
                SessionEvent::UpstreamEnded => {
                    self.state = SessionState::UpstreamError;
                    SessionAction::DiscardTemp
                },
                other => Self::stray(&other),
            },
            SessionState::WroteChunk => match event {
                SessionEvent::Written => {
                    let total: u64 = if self.pending > u64::MAX - self.total_written {
                        u64::MAX
                    } else {
                        self.total_written + self.pending
                    };
                    self.total_written = total;
                    self.pending = 0;
                    if total >= self.opts.expected_size {
                        self.state = SessionState::CompleteBytes;
                        SessionAction::Sync
                    } else {
                        self.state = SessionState::Streaming;
                        SessionAction::ReadChunk
                    }
                },
                SessionEvent::WriteFailed => {
                    self.state = SessionState::IoError;
                    self.pending = 0;
                    SessionAction::ReadChunk
                },
                other => Self::stray(&other),
            },
            SessionState::CompleteBytes => match event {
                SessionEvent::Synced => {
                    self.state = SessionState::Fsynced;
                    SessionAction::ReadTemp
                },
                SessionEvent::SyncFailed => {
                    self.state = SessionState::IoError;
                    SessionAction::ReadChunk
                },
                other => Self::stray(&other),
            },
            SessionState::Fsynced => match event {
                SessionEvent::TempContents(bytes) => {
                    let md5 = md5_hex(bytes.as_slice());
                    self.verify(&md5)
                },
                SessionEvent::TempUnreadable => {
                    self.state = SessionState::IoError;
                    SessionAction::ReadChunk
                },
                other => Self::stray(&other),
            },
            SessionState::Verified => match event {
                SessionEvent::PublishDone => {
                    self.state = SessionState::Published;
                    SessionAction::RemoveTemp
                },
                SessionEvent::PublishFailed => {
                    self.state = SessionState::PublishFailed;
                    SessionAction::ReadChunk
                },
                other => Self::stray(&other),
            },
            SessionState::Published => match event {
                SessionEvent::TempRemoved { .. } => {
                    self.state = SessionState::CleanedUp;
                    SessionAction::ReadChunk
                },
                other => Self::stray(&other),
            },
            _ => Self::stray(&event),
        }
    }
}

/// The session after a run of events.
pub open spec fn run(session: DownloadSession, events: Seq<SessionEvent>) -> DownloadSession
    decreases events.len(),
{
    if events.len() == 0 {
        session
    } else {
        run(session, events.drop_last()).spec_step(events.last()).0
    }
}

/// Whether the event at `i` of a run makes the session call for publishing.
pub open spec fn publishes_at(session: DownloadSession, events: Seq<SessionEvent>, i: int) -> bool {
    run(session, events.take(i)).spec_step(events[i]).1 is Publish
}

/// Whether, when the event at `i` of a run comes in, the temporary file is
/// synced, holds at least as many bytes as expected, and the event brings
/// contents whose MD5 is the expected one.
pub open spec fn verified_at(session: DownloadSession, events: Seq<SessionEvent>, i: int) -> bool {
    let before = run(session, events.take(i));
    &&& before.state is Fsynced
    &&& before.total_written >= session.opts.expected_size
    &&& events[i] matches SessionEvent::TempContents(bytes)
    &&& hex_lower(md5_digest(bytes@)) == session.opts.etag@
}

/// Whether the session has as many bytes as expected wherever it is past
/// the point of counting them.
pub open spec fn counted(session: DownloadSession) -> bool {
    (session.state is CompleteBytes || session.state is Fsynced || session.state.touched())
        ==> session.total_written >= session.opts.expected_size
}

proof fn lemma_step(session: DownloadSession, event: SessionEvent)
    requires
        counted(session),
    ensures
        session.spec_step(event).0.opts == session.opts,
        counted(session.spec_step(event).0),
        session.spec_step(event).0.state.touched() <==> session.state.touched()
            || session.spec_step(event).1 is Publish,
        session.spec_step(event).1 is Publish ==> {
            &&& session.state is Fsynced
            &&& session.total_written >= session.opts.expected_size
            &&& event matches SessionEvent::TempContents(bytes)
            &&& hex_lower(md5_digest(bytes@)) == session.opts.etag@
        },
{
}

proof fn lemma_run(session: DownloadSession, events: Seq<SessionEvent>)
    requires
        session.state is Init,
    ensures
        run(session, events).opts == session.opts,
        counted(run(session, events)),
        run(session, events).state.touched() <==> exists|i: int|
            0 <= i < events.len() && #[trigger] publishes_at(session, events, i),
        forall|i: int|
            0 <= i < events.len() && #[trigger] publishes_at(session, events, i) ==> verified_at(
                session,
                events,
                i,
            ),
    decreases events.len(),
{
    if events.len() > 0 {
        let before = events.drop_last();
        let last = events.len() - 1;
        lemma_run(session, before);
        lemma_step(run(session, before), events.last());
        assert(events.take(last) =~= before);
        assert forall|i: int| 0 <= i < last implies publishes_at(session, events, i)
            == publishes_at(session, before, i) && verified_at(session, events, i) == verified_at(
            session,
            before,
            i,
        ) by {
            assert(events.take(i) =~= before.take(i));
        }
        if run(session, events).state.touched() {
            if run(session, before).state.touched() {
                let i = choose|i: int| 0 <= i < before.len() && publishes_at(session, before, i);
                assert(publishes_at(session, events, i));
            } else {
                assert(publishes_at(session, events, last));
            }
        }
    }
}

/// Nothing reaches the cache unverified. In any run of events from the
/// start of a session:
///
/// - publishing is called for only once the temporary file is synced, holds
///   at least the expected number of bytes, and has the expected MD5, which
///   is also the checksum of the descriptor that is published with it;
/// - a session that ends published or cleaned up has called for it;
/// - a session that ends in an upstream error, a checksum mismatch or an
///   I/O error before publishing has never called for it, so the cache is
///   as it was.
///
/// Where no piece of the body goes beyond the expected size, the bytes
/// published are exactly as many as expected.
pub proof fn lemma_publication(session: DownloadSession, events: Seq<SessionEvent>)
    requires
        session.state is Init,
    ensures
        forall|i: int|
            0 <= i < events.len() && #[trigger] publishes_at(session, events, i) ==> verified_at(
                session,
                events,
                i,
            ),
        run(session, events).state is Published || run(session, events).state is CleanedUp
            ==> exists|i: int|
            0 <= i < events.len() && #[trigger] publishes_at(session, events, i) && verified_at(
                session,
                events,
                i,
            ),
        run(session, events).state.failed_clean() ==> forall|i: int|
            0 <= i < events.len() ==> !#[trigger] publishes_at(session, events, i),
{
    lemma_run(session, events);
    if run(session, events).state is Published || run(session, events).state is CleanedUp {
        let i = choose|i: int| 0 <= i < events.len() && publishes_at(session, events, i);
        assert(verified_at(session, events, i));
    }
}

} // verus!
