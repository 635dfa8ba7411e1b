//! The gateway's routes: what a request must hold, and what it is answered
//! with.
//!
//! Every refusal is answered with status 400. The functions here take the
//! parts of a request as plain values; the server around them reads those
//! parts and sends the answers.

use vstd::prelude::*;
use vstd::utf8::encode_utf8;

use crate::cdn::proxy::{InspectingOpts, ProxyOpts};
use crate::cdn::token::{issued_token, TokenError};
use crate::cdn::{
    CachedVideo, CachedVideoFile, CdnFetchResult, CdnServiceImpl, ChecksumError, ChecksumType,
    TimestampType,
};
use crate::digest::base64_encodable;
use crate::text::{
    append_chars, append_str, chars_of, decimal, decimal_chars, parse_u32, parse_u64, split,
    split_chars, string_of, texts, trim_end, trim_end_matches, unsigned_literal,
};
use crate::types::SongId;

verus! {

/// Why a request is refused.
#[derive(Debug, Clone, Copy, PartialEq, Eq, Structural)]
pub enum CustomRejection {
    BadVideoId,
    BadToken,
    AreYouTryingToHackMe,
    NoClientIP,
    NoUserAgent,
    NoServeToken,
    IndexNotReady,
    CacheDirNotAvailable,
    VideoExpired,
}

/// The status that answers every refusal.
pub const REJECTION_STATUS: u16 = 400;

/// The status of a redirect.
pub const REDIRECT_STATUS: u16 = 302;

/// The id that `text` names: an unsigned decimal number of 32 bits that is
/// not zero. Zero stands for "no song" and is never looked up.
pub open spec fn song_id_of(text: Seq<char>) -> Option<SongId> {
    match unsigned_literal(text, u32::MAX as nat) {
        Some(n) => if n == 0 {
            None
        } else {
            Some(n as u32)
        },
        None => None,
    }
}

/// `name` without the `.mp4` that ends it.
pub open spec fn without_mp4(name: Seq<char>) -> Seq<char> {
    trim_end_matches(name, ".mp4"@)
}

/// `https://api.udon.dance/Api/Songs/play?id={id}`
pub open spec fn origin_play_url(id: SongId) -> Seq<char> {
    "https://api.udon.dance/Api/Songs/play?id="@ + decimal(id as nat)
}

/// `/v/{id}-{checksum}.mp4?auth={token}&t={tag}&auth_key={token}`
pub open spec fn delivery_url(
    id: SongId,
    checksum: Seq<char>,
    token: Seq<char>,
    tag: Seq<char>,
) -> Seq<char> {
    "/v/"@ + decimal(id as nat) + seq!['-'] + checksum + ".mp4?auth="@ + token + "&t="@ + tag
        + "&auth_key="@ + token
}

/// `http://{dns}/files/{date}/{file}?e={etag}&s={size}`
pub open spec fn upstream_file_url(
    dns: Seq<char>,
    date: Seq<char>,
    file: Seq<char>,
    etag: Seq<char>,
    size: u64,
) -> Seq<char> {
    "http://"@ + dns + "/files/"@ + date + seq!['/'] + file + "?e="@ + etag + "&s="@ + decimal(
        size as nat,
    )
}

/// `WannaDanceSelfHostedCDN/{version}.{revision}`
pub open spec fn self_identification(version: u32, revision: Seq<char>) -> Seq<char> {
    "WannaDanceSelfHostedCDN/"@ + decimal(version as nat) + seq!['.'] + revision
}

/// Reads a song id.
pub fn parse_song_id(text: &[char]) -> (r: Result<SongId, CustomRejection>)
    ensures
        r == match song_id_of(text@) {
            Some(id) => Ok::<SongId, CustomRejection>(id),
            None => Err::<SongId, CustomRejection>(CustomRejection::BadVideoId),
        },
        r matches Ok(id) ==> id != 0,
{
    match parse_u32(text) {
        Some(id) => if id == 0 {
            Err(CustomRejection::BadVideoId)
        } else {
            Ok(id)
        },
        None => Err(CustomRejection::BadVideoId),
    }
}

/// The address that a request is taken to come from: the first address that
/// the proxy in front forwarded, else the peer's. Without a peer there is
/// none.
pub fn real_ip(peer: Option<String>, forwarded_for: &Vec<String>) -> (r: Option<String>)
    ensures
        match peer {
            None => r is None,
            Some(addr) => {
                &&& r matches Some(ip)
                &&& ip@ == if forwarded_for@.len() > 0 {
                    forwarded_for@[0]@
                } else {
                    addr@
                }
            },
        },
{
    match peer {
        None => None,
        Some(addr) => if forwarded_for.len() > 0 {
            Some(forwarded_for[0].clone())
        } else {
            Some(addr)
        },
    }
}

/// A request for a token: `/api/{v}/videos/{id}.mp4`.
///
/// Refused without a client address, then for a name that is no song id,
/// then without a User-Agent. What is handed back is the song, the address
/// and the User-Agent that the token is made for.
pub fn token_request(id_mp4: &str, remote: Option<String>, user_agent: Option<String>) -> (r:
    Result<(SongId, String, String), CustomRejection>)
    ensures
        match r {
            Ok((id, ip, agent)) => {
                &&& remote matches Some(addr)
                &&& ip@ == addr@
                &&& song_id_of(without_mp4(id_mp4@)) == Some(id)
                &&& id != 0
                &&& user_agent matches Some(ua)
                &&& agent@ == ua@
            },
            Err(e) => if remote is None {
                e == CustomRejection::NoClientIP
            } else if song_id_of(without_mp4(id_mp4@)) is None {
                e == CustomRejection::BadVideoId
            } else {
                user_agent is None && e == CustomRejection::NoUserAgent
            },
        },
{
    let remote = match remote {
        Some(addr) => addr,
        None => {
            return Err(CustomRejection::NoClientIP);
        },
    };
    let name = chars_of(id_mp4);
    let suffix = chars_of(".mp4");
    let bare = trim_end(name.as_slice(), suffix.as_slice());
    let id = match parse_song_id(bare.as_slice()) {
        Ok(id) => id,
        Err(e) => {
            return Err(e);
        },
    };
    match user_agent {
        Some(agent) => Ok((id, remote, agent)),
        None => Err(CustomRejection::NoUserAgent),
    }
}

/// A request for a token by query: `/Api/Songs/play?id={id}`.
///
/// Refused for a missing or unreadable id, then without a client address,
/// then without a User-Agent.
pub fn play_request(id: Option<String>, remote: Option<String>, user_agent: Option<String>) -> (r:
    Result<(SongId, String, String), CustomRejection>)
    ensures
        match r {
            Ok((song, ip, agent)) => {
                &&& id matches Some(text)
                &&& song_id_of(text@) == Some(song)
                &&& song != 0
                &&& remote matches Some(addr)
                &&& ip@ == addr@
                &&& user_agent matches Some(ua)
                &&& agent@ == ua@
            },
            Err(e) => if !(id matches Some(text) && song_id_of(text@) is Some) {
                e == CustomRejection::BadVideoId
            } else if remote is None {
                e == CustomRejection::NoClientIP
            } else {
                user_agent is None && e == CustomRejection::NoUserAgent
            },
        },
{
    let text = match id {
        Some(text) => text,
        None => {
            return Err(CustomRejection::BadVideoId);
        },
    };
    let chars = chars_of(text.as_str());
    let song = match parse_song_id(chars.as_slice()) {
        Ok(song) => song,
        Err(e) => {
            return Err(e);
        },
    };
    let ip = match remote {
        Some(addr) => addr,
        None => {
            return Err(CustomRejection::NoClientIP);
        },
    };
    match user_agent {
        Some(agent) => Ok((song, ip, agent)),
        None => Err(CustomRejection::NoUserAgent),
    }
}

/// What a request for delivery asks for.
#[derive(Debug)]
pub struct DeliveryRequest {
    pub id: SongId,
    pub checksum: String,
    pub remote: String,
    pub token: String,
}

/// A request for delivery: `/v/{id}-{checksum}.mp4?auth={token}`.
///
/// The name, without its `.mp4`, must be two fields around one dash, else
/// the request is refused as an attack. It is then refused for an id that is
/// none, without a client address, and without a token, in that order.
pub fn delivery_request(id_checksum_mp4: &str, remote: Option<String>, auth: Option<String>) -> (r:
    Result<DeliveryRequest, CustomRejection>)
    ensures
        ({
            let fields = split(without_mp4(id_checksum_mp4@), '-');
            match r {
                Ok(request) => {
                    &&& fields.len() == 2
                    &&& song_id_of(fields[0]) == Some(request.id)
                    &&& request.id != 0
                    &&& request.checksum@ == fields[1]
                    &&& remote matches Some(addr)
                    &&& request.remote@ == addr@
                    &&& auth matches Some(token)
                    &&& request.token@ == token@
                },
                Err(e) => if fields.len() != 2 {
                    e == CustomRejection::AreYouTryingToHackMe
                } else if song_id_of(fields[0]) is None {
                    e == CustomRejection::BadVideoId
                } else if remote is None {
                    e == CustomRejection::NoClientIP
                } else {
                    auth is None && e == CustomRejection::BadToken
                },
            }
        }),
{
    let name = chars_of(id_checksum_mp4);
    let suffix = chars_of(".mp4");
    let bare = trim_end(name.as_slice(), suffix.as_slice());
    let fields = split_chars(bare.as_slice(), '-');
    assert(texts(fields@).len() == fields@.len());
    if fields.len() != 2 {
        return Err(CustomRejection::AreYouTryingToHackMe);
    }
    assert(texts(fields@)[0] == fields@[0]@);
    assert(texts(fields@)[1] == fields@[1]@);
    let id = match parse_song_id(fields[0].as_slice()) {
        Ok(id) => id,
        Err(e) => {
            return Err(e);
        },
    };
    let checksum = string_of(fields[1].as_slice());
    let remote = match remote {
        Some(addr) => addr,
        None => {
            return Err(CustomRejection::NoClientIP);
        },
    };
    match auth {
        Some(token) => Ok(DeliveryRequest { id, checksum, remote, token }),
        None => Err(CustomRejection::BadToken),
    }
}

/// What becomes of a delivery once the token is checked and the song looked
/// up: the path of the video to serve; `BadToken` where the token did not
/// hold; a refusal as an attack where it held but no video is cached.
pub fn delivery_outcome(served: Result<Option<CachedVideo>, TokenError>) -> (r: Result<
    String,
    CustomRejection,
>)
    ensures
        match served {
            Ok(Some(video)) => r matches Ok(path) && path@ == video.spec_video_file(),
            Ok(None) => r == Err::<String, CustomRejection>(CustomRejection::AreYouTryingToHackMe),
            Err(_) => r == Err::<String, CustomRejection>(CustomRejection::BadToken),
        },
{
    match served {
        Ok(Some(video)) => Ok(video.video_file()),
        Ok(None) => Err(CustomRejection::AreYouTryingToHackMe),
        Err(_) => Err(CustomRejection::BadToken),
    }
}

/// Where a request for a token is sent: to the delivery route with the
/// token where the song is cached, and on to the origin where it is not.
/// `tag` names the route that issued the token.
fn redirect_location(serve: &CdnFetchResult, id: SongId, tag: &str) -> (location: String)
    ensures
        location@ == match *serve {
            CdnFetchResult::Miss => origin_play_url(id),
            CdnFetchResult::Hit(token, checksum, _, _, _) => delivery_url(
                id,
                checksum@,
                token@,
                tag@,
            ),
        },
{
    let mut out: Vec<char> = Vec::new();
    let id_text = decimal_chars(id as u64);
    match serve {
        CdnFetchResult::Miss => {
            append_str(&mut out, "https://api.udon.dance/Api/Songs/play?id=");
            append_chars(&mut out, id_text.as_slice());
        },
        CdnFetchResult::Hit(token, checksum, _, _, _) => {
            append_str(&mut out, "/v/");
            append_chars(&mut out, id_text.as_slice());
            out.push('-');
            append_str(&mut out, checksum.as_str());
            append_str(&mut out, ".mp4?auth=");
            append_str(&mut out, token.as_str());
            append_str(&mut out, "&t=");
            append_str(&mut out, tag);
            append_str(&mut out, "&auth_key=");
            append_str(&mut out, token.as_str());
        },
    }
    string_of(out.as_slice())
}

/// Where a request for a token for the song `id` is sent, made at `now` by
/// the client at `remote` with the User-Agent `user_agent`: to the delivery
/// route, with a token for that song, checksum, User-Agent and address,
/// where the video is cached and has a checksum; else on to the origin.
pub open spec fn token_location(
    secret: Seq<char>,
    id: SongId,
    remote: Seq<char>,
    user_agent: Seq<char>,
    video: CachedVideoFile,
    checksum: Result<ChecksumType, ChecksumError>,
    now: int,
    tag: Seq<char>,
) -> Seq<char> {
    match (video, checksum) {
        (CachedVideoFile::Available(_), Ok(sum)) => delivery_url(
            id,
            sum@,
            issued_token(secret, id, sum@, user_agent, remote, now),
            tag,
        ),
        _ => origin_play_url(id),
    }
}

/// Answers `/api/{v}/videos/{id}.mp4`: the `Location` of the redirect. The
/// token in it is made for the User-Agent and the address of the request,
/// and the route names itself `aya`.
pub fn videos_redirect(
    cdn: &CdnServiceImpl,
    id: SongId,
    remote: &str,
    user_agent: String,
    video: &CachedVideoFile,
    checksum: Result<ChecksumType, ChecksumError>,
    now: TimestampType,
) -> (location: String)
    requires
        base64_encodable(encode_utf8(user_agent@).len()),
    ensures
        location@ == token_location(
            cdn.token_sign_secret@,
            id,
            remote@,
            user_agent@,
            *video,
            checksum,
            now as int,
            "aya"@,
        ),
{
    let serve = cdn.serve_token(id, remote, user_agent, video, checksum, now);
    redirect_location(&serve, id, "aya")
}

/// Answers `/Api/Songs/play?id={id}`: the `Location` of the redirect. The
/// token in it is made for the User-Agent and the address of the request,
/// and the route names itself `wd`.
pub fn play_redirect(
    cdn: &CdnServiceImpl,
    id: SongId,
    remote: &str,
    user_agent: String,
    video: &CachedVideoFile,
    checksum: Result<ChecksumType, ChecksumError>,
    now: TimestampType,
) -> (location: String)
    requires
        base64_encodable(encode_utf8(user_agent@).len()),
    ensures
        location@ == token_location(
            cdn.token_sign_secret@,
            id,
            remote@,
            user_agent@,
            *video,
            checksum,
            now as int,
            "wd"@,
        ),
{
    let serve = cdn.serve_token(id, remote, user_agent, video, checksum, now);
    redirect_location(&serve, id, "wd")
}

/// Where any other request under `/Api/` is sent: the same path at the
/// origin.
pub fn origin_redirect(path: &str) -> (location: String)
    ensures
        location@ == "https://api.udon.dance"@ + path@,
{
    let mut out: Vec<char> = Vec::new();
    append_str(&mut out, "https://api.udon.dance");
    append_str(&mut out, path);
    string_of(out.as_slice())
}

/// What a request for an upstream file asks for.
#[derive(Debug)]
pub struct FileRequest {
    pub id: SongId,
    pub etag: String,
    pub size: u64,
    pub client_port: u16,
}

/// A request for an upstream file: `/files/{date}/{file}?e={etag}&s={size}`.
///
/// Refused without a client address; as an attack without a peer; for a
/// file name that does not begin with a song id; and as `BadToken` without
/// an `e` or without an `s` that is a size, in that order.
pub fn file_request(
    file: &str,
    real_ip: Option<String>,
    peer_port: Option<u16>,
    e: Option<String>,
    s: Option<String>,
) -> (r: Result<FileRequest, CustomRejection>)
    ensures
        match r {
            Ok(request) => {
                &&& real_ip is Some
                &&& peer_port == Some(request.client_port)
                &&& song_id_of(split(file@, '-')[0]) == Some(request.id)
                &&& request.id != 0
                &&& e matches Some(etag)
                &&& request.etag@ == etag@
                &&& s matches Some(size)
                &&& unsigned_literal(size@, u64::MAX as nat) == Some(request.size as nat)
            },
            Err(why) => if real_ip is None {
                why == CustomRejection::NoClientIP
            } else if peer_port is None {
                why == CustomRejection::AreYouTryingToHackMe
            } else if song_id_of(split(file@, '-')[0]) is None {
                why == CustomRejection::BadVideoId
            } else {
                &&& why == CustomRejection::BadToken
                &&& e is None || !(s matches Some(size) && unsigned_literal(
                    size@,
                    u64::MAX as nat,
                ) is Some)
            },
        },
{
    if real_ip.is_none() {
        return Err(CustomRejection::NoClientIP);
    }
    let client_port = match peer_port {
        Some(port) => port,
        None => {
            return Err(CustomRejection::AreYouTryingToHackMe);
        },
    };
    let name = chars_of(file);
    let fields = split_chars(name.as_slice(), '-');
    assert(texts(fields@).len() == fields@.len());
    assert(split(file@, '-').len() > 0);
    assert(texts(fields@)[0] == fields@[0]@);
    let id = match parse_song_id(fields[0].as_slice()) {
        Ok(id) => id,
        Err(why) => {
            return Err(why);
        },
    };
    let etag = match e {
        Some(etag) => etag,
        None => {
            return Err(CustomRejection::BadToken);
        },
    };
    let size_text = match s {
        Some(text) => text,
        None => {
            return Err(CustomRejection::BadToken);
        },
    };
    let size_chars = chars_of(size_text.as_str());
    match parse_u64(size_chars.as_slice()) {
        Some(size) => Ok(FileRequest { id, etag, size, client_port }),
        None => Err(CustomRejection::BadToken),
    }
}

/// The two upstreams that serve files.
#[derive(Debug)]
pub struct Upstreams {
    /// The address at which the upstream for `nya.xin.moe` is reached.
    pub domestic: String,
    /// The address at which the upstream for `play.udon.dance` is reached.
    pub oversea: String,
}

/// A fetch from an upstream: where to, rewritten how, and kept where.
#[derive(Debug)]
pub struct UpstreamFetch {
    pub url: String,
    pub proxy_opts: ProxyOpts,
    pub inspecting: InspectingOpts,
}

/// The upstream for a request by its `Host` header, as `(address, host)`:
/// the domestic one for `nya.xin.moe`, the overseas one for anything else.
pub fn select_upstream<'a>(host: Option<&str>, upstreams: &'a Upstreams) -> (r: (&'a String, String))
    ensures
        if host matches Some(name) && name@ == "nya.xin.moe"@ {
            r.0@ == upstreams.domestic@ && r.1@ == "nya.xin.moe"@
        } else {
            r.0@ == upstreams.oversea@ && r.1@ == "play.udon.dance"@
        },
{
    let domestic = match host {
        Some(name) => {
            let chars = chars_of(name);
            crate::text::equals_str(chars.as_slice(), "nya.xin.moe")
        },
        None => false,
    };
    if domestic {
        (&upstreams.domestic, string_of(chars_of("nya.xin.moe").as_slice()))
    } else {
        (&upstreams.oversea, string_of(chars_of("play.udon.dance").as_slice()))
    }
}

/// The suffix by which this gateway names itself in `User-Agent`.
pub fn self_identify(version: u32, revision: &str) -> (r: String)
    ensures
        r@ == self_identification(version, revision@),
{
    let mut out: Vec<char> = Vec::new();
    append_str(&mut out, "WannaDanceSelfHostedCDN/");
    let digits = decimal_chars(version as u64);
    append_chars(&mut out, digits.as_slice());
    out.push('.');
    append_str(&mut out, revision);
    string_of(out.as_slice())
}

/// Plans the fetch of a file that the local cache cannot serve.
///
/// `paths` is `(download_tmp, cache_file, metadata_json)`, as the cache
/// index gave them.
pub fn plan_upstream_fetch(
    host: Option<&str>,
    upstreams: &Upstreams,
    date: &str,
    file: &str,
    request: FileRequest,
    paths: (String, String, String),
    allow_304: bool,
    revision: &str,
) -> (fetch: UpstreamFetch)
    ensures
        ({
            let domestic = host matches Some(name) && name@ == "nya.xin.moe"@;
            let dns = if domestic {
                upstreams.domestic@
            } else {
                upstreams.oversea@
            };
            let via = if domestic {
                "nya.xin.moe"@
            } else {
                "play.udon.dance"@
            };
            &&& fetch.url@ == upstream_file_url(dns, date@, file@, request.etag@, request.size)
            &&& fetch.proxy_opts.host_override matches Some(name)
            &&& name@ == via
            &&& fetch.proxy_opts.user_agent_override matches Some(suffix)
            &&& suffix@ == self_identification(crate::MY_VERSION_ID, revision@)
            &&& fetch.proxy_opts.allow_304 == allow_304
            &&& fetch.inspecting.id == request.id
            &&& fetch.inspecting.download_tmp == paths.0
            &&& fetch.inspecting.cache_file == paths.1
            &&& fetch.inspecting.metadata_json == paths.2
            &&& fetch.inspecting.etag@ == request.etag@
            &&& fetch.inspecting.expected_size == request.size
        }),
{
    let (dns, via) = select_upstream(host, upstreams);
    let mut url: Vec<char> = Vec::new();
    append_str(&mut url, "http://");
    append_str(&mut url, dns.as_str());
    append_str(&mut url, "/files/");
    append_str(&mut url, date);
    url.push('/');
    append_str(&mut url, file);
    append_str(&mut url, "?e=");
    append_str(&mut url, request.etag.as_str());
    append_str(&mut url, "&s=");
    let size_text = decimal_chars(request.size);
    append_chars(&mut url, size_text.as_slice());
    UpstreamFetch {
        url: string_of(url.as_slice()),
        proxy_opts: ProxyOpts {
            host_override: Some(via),
            user_agent_override: Some(self_identify(crate::MY_VERSION_ID, revision)),
            allow_304,
        },
        inspecting: InspectingOpts {
            id: request.id,
            download_tmp: paths.0,
            cache_file: paths.1,
            metadata_json: paths.2,
            etag: request.etag,
            expected_size: request.size,
        },
    }
}

/// The song that an override file is for, by its name `{id}.mp4`.
pub fn override_song_id(file_name: &str) -> (r: Option<SongId>)
    ensures
        r == song_id_of(without_mp4(file_name@)),
{
    let name = chars_of(file_name);
    let suffix = chars_of(".mp4");
    let bare = trim_end(name.as_slice(), suffix.as_slice());
    match parse_song_id(bare.as_slice()) {
        Ok(id) => Some(id),
        Err(_) => None,
    }
}

} // verus!
