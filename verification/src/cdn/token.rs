//! Signed URL tokens.
//!
//! A token is `sign_ts-rand-uid-sign`. The signature is the MD5, in lowercase
//! hexadecimal, of `/v/{id}-{checksum}.mp4-{sign_ts}-{rand}-{uid}-{secret}`.
//! It holds when the signature recomputes and no more than the configured
//! number of seconds has passed since `sign_ts`.
//!
//! Of the four fields only `rand` may hold a dash: it is base64 in the
//! URL-safe alphabet. A token is therefore taken apart from its ends:
//! `sign_ts` stands before the first dash, `sign` after the last, `uid`
//! between the last two, and `rand` is all that stands between.

use vstd::prelude::*;
use vstd::utf8::encode_utf8;

use crate::cdn::{
    CachedVideo, CachedVideoFile, CdnFetchResult, CdnServiceImpl, ChecksumError, ChecksumType,
    RandType, SignTimestampType, SignType, TimestampType, UidType,
};
use crate::digest::{
    base64_encodable, base64_url_encode, base64url, hex_lower, lemma_hex_injective,
    lemma_hex_no_dash, md5_digest, md5_hex,
};
use crate::text::{
    append_chars, append_str, chars_of, decimal, decimal_chars, find_char, free_of, index_of,
    last_index_of, lemma_decimal_digits, lemma_decimal_value, lemma_index_of_first,
    lemma_index_of_found, lemma_last_index_found, lemma_last_index_last, parse_i64, replace_char, rfind_char, signed_decimal,
    signed_decimal_chars, signed_literal, string_of, swap_char,
};
use crate::types::SongId;

verus! {

/// Why a token was turned down.
#[derive(Debug)]
pub enum TokenError {
    /// The token holds fewer than three dashes, so it has no four fields.
    Malformed,
    /// The signature in the token is not the one that its fields call for.
    SignatureMismatch { provided: String, wanted: String },
    /// The signature holds but the time of signing is no decimal number.
    BadTimestamp { sign_ts: String },
    /// The token was signed more than `tolerance` seconds before `now`.
    Expired { now: i64, provided: i64, tolerance: i64 },
}

/// The text that is signed.
pub open spec fn sign_plain(
    secret: Seq<char>,
    id: SongId,
    checksum: Seq<char>,
    sign_ts: Seq<char>,
    rand: Seq<char>,
    uid: Seq<char>,
) -> Seq<char> {
    seq!['/', 'v', '/'] + decimal(id as nat) + seq!['-'] + checksum + seq!['.', 'm', 'p', '4']
        + seq!['-'] + sign_ts + seq!['-'] + rand + seq!['-'] + uid + seq!['-'] + secret
}

/// The signature: the MD5 of the signed text's UTF-8 bytes, in hexadecimal.
pub open spec fn sign_of(
    secret: Seq<char>,
    id: SongId,
    checksum: Seq<char>,
    sign_ts: Seq<char>,
    rand: Seq<char>,
    uid: Seq<char>,
) -> Seq<char> {
    hex_lower(md5_digest(encode_utf8(sign_plain(secret, id, checksum, sign_ts, rand, uid))))
}

/// A token from its four fields.
pub open spec fn token_text(
    sign: Seq<char>,
    sign_ts: Seq<char>,
    rand: Seq<char>,
    uid: Seq<char>,
) -> Seq<char> {
    sign_ts + seq!['-'] + rand + seq!['-'] + uid + seq!['-'] + sign
}

/// The time of signing that a field states, if it states one.
pub open spec fn sign_ts_value(sign_ts: Seq<char>) -> Option<int> {
    signed_literal(sign_ts, i64::MIN as int, i64::MAX as int)
}

/// The four fields of a token, as `(sign, sign_ts, rand, uid)`: `sign_ts` is
/// what stands before the first dash, `sign` what stands after the last,
/// `uid` what stands between the last two dashes, and `rand` everything
/// between the first dash and the last but one. A text with fewer than
/// three dashes has no fields.
pub open spec fn token_fields(token: Seq<char>) -> Option<
    (Seq<char>, Seq<char>, Seq<char>, Seq<char>),
> {
    let first = index_of(token, '-') as int;
    let last = last_index_of(token, '-');
    if last < 0 {
        None
    } else {
        let middle = last_index_of(token.take(last), '-');
        if first < middle {
            Some(
                (
                    token.skip(last + 1),
                    token.take(first),
                    token.subrange(first + 1, middle),
                    token.subrange(middle + 1, last),
                ),
            )
        } else {
            None
        }
    }
}

/// Whether `token` holds for the file `(id, checksum)` at time `now`.
pub open spec fn token_valid(
    token: Seq<char>,
    secret: Seq<char>,
    id: SongId,
    checksum: Seq<char>,
    token_valid_seconds: int,
    now: int,
) -> bool {
    &&& token_fields(token) matches Some((sign, sign_ts, rand, uid))
    &&& sign == sign_of(secret, id, checksum, sign_ts, rand, uid)
    &&& sign_ts_value(sign_ts) matches Some(at)
    &&& now - at <= token_valid_seconds
}

/// Whether `e` is the reason for which `token` is turned down for the file
/// `(id, checksum)` at time `now`: no four fields; else a signature that is
/// not the one called for; else a time of signing that cannot be read; else
/// a time of signing too long ago.
pub open spec fn token_refused(
    e: TokenError,
    token: Seq<char>,
    secret: Seq<char>,
    id: SongId,
    checksum: Seq<char>,
    token_valid_seconds: int,
    now: int,
) -> bool {
    match (e, token_fields(token)) {
        (TokenError::Malformed, fields) => fields is None,
        (_, None) => false,
        (
            TokenError::SignatureMismatch { provided, wanted },
            Some((sign, sign_ts, rand, uid)),
        ) => {
            &&& provided@ == sign
            &&& wanted@ == sign_of(secret, id, checksum, sign_ts, rand, uid)
            &&& provided@ != wanted@
        },
        (TokenError::BadTimestamp { sign_ts: stated }, Some((sign, sign_ts, rand, uid))) => {
            &&& sign == sign_of(secret, id, checksum, sign_ts, rand, uid)
            &&& stated@ == sign_ts
            &&& sign_ts_value(sign_ts) is None
        },
        (
            TokenError::Expired { now: at, provided, tolerance },
            Some((sign, sign_ts, rand, uid)),
        ) => {
            &&& sign == sign_of(secret, id, checksum, sign_ts, rand, uid)
            &&& sign_ts_value(sign_ts) == Some(provided as int)
            &&& now - provided > token_valid_seconds
            &&& at == now
            &&& tolerance == token_valid_seconds
        },
    }
}

/// The field that a client's address gives: every dot becomes an underscore.
pub open spec fn uid_of(remote: Seq<char>) -> Seq<char> {
    replace_char(remote, '.', '_')
}

/// The field that a client's User-Agent gives.
pub open spec fn rand_of(user_agent: Seq<char>) -> Seq<char> {
    base64url(encode_utf8(user_agent))
}

impl CdnServiceImpl {
    /// Joins the four fields of a token, the signature last.
    pub fn encode_token(
        sign: &SignType,
        sign_ts: &SignTimestampType,
        rand: &RandType,
        uid: &UidType,
    ) -> (token: String)
        ensures
            token@ == token_text(sign@, sign_ts@, rand@, uid@),
    {
        let mut out: Vec<char> = Vec::new();
        append_str(&mut out, sign_ts.as_str());
        out.push('-');
        append_str(&mut out, rand.as_str());
        out.push('-');
        append_str(&mut out, uid.as_str());
        out.push('-');
        append_str(&mut out, sign.as_str());
        assert(out@ =~= token_text(sign@, sign_ts@, rand@, uid@));
        string_of(out.as_slice())
    }

    /// Takes a token apart into `(sign, sign_ts, rand, uid)`: at its first
    /// dash and at its last two. A token with fewer than three dashes is
    /// malformed.
    pub fn decode_token(token: &str) -> (r: Result<
        (SignType, SignTimestampType, RandType, UidType),
        TokenError,
    >)
        ensures
            match (r, token_fields(token@)) {
                (Ok((sign, sign_ts, rand, uid)), Some(fields)) => {
                    &&& sign@ == fields.0
                    &&& sign_ts@ == fields.1
                    &&& rand@ == fields.2
                    &&& uid@ == fields.3
                },
                (Err(TokenError::Malformed), None) => true,
                _ => false,
            },
    {
        let chars = chars_of(token);
        let all = chars.as_slice();
        let total: usize = all.len();
        let last = match rfind_char(all, '-') {
            Some(at) => at,
            None => {
                return Err(TokenError::Malformed);
            },
        };
        let head = vstd::slice::slice_subrange(all, 0, last);
        assert(head@ =~= chars@.take(last as int));
        let middle = match rfind_char(head, '-') {
            Some(at) => at,
            None => {
                return Err(TokenError::Malformed);
            },
        };
        let first = match find_char(all, '-') {
            Some(at) => at,
            None => {
                return Err(TokenError::Malformed);
            },
        };
        if first >= middle {
            return Err(TokenError::Malformed);
        }
        let sign = vstd::slice::slice_subrange(all, last + 1, total);
        let sign_ts = vstd::slice::slice_subrange(all, 0, first);
        let rand = vstd::slice::slice_subrange(all, first + 1, middle);
        let uid = vstd::slice::slice_subrange(all, middle + 1, last);
        assert(sign@ =~= chars@.skip(last + 1));
        assert(sign_ts@ =~= chars@.take(first as int));
        Ok((string_of(sign), string_of(sign_ts), string_of(rand), string_of(uid)))
    }

    /// The time `now` in seconds, and the same as the field of a token.
    pub fn generate_sign_ts_now(now: TimestampType) -> (r: (TimestampType, SignTimestampType))
        ensures
            r.0 == now,
            r.1@ == signed_decimal(now as int),
    {
        let text = signed_decimal_chars(now);
        (now, string_of(text.as_slice()))
    }

    /// Reads the time of signing from its field.
    pub fn decode_sign_ts(ts: &SignTimestampType) -> (r: Option<TimestampType>)
        ensures
            r == match sign_ts_value(ts@) {
                Some(t) => Some(t as i64),
                None => None,
            },
    {
        let chars = chars_of(ts.as_str());
        parse_i64(chars.as_slice())
    }

    /// Signs the fields of a token for the file `(id, checksum)`.
    pub fn generate_sign(
        secret: &str,
        id: SongId,
        checksum: &ChecksumType,
        sign_ts: &SignTimestampType,
        rand: &RandType,
        uid: &UidType,
    ) -> (sign: String)
        ensures
            sign@ == sign_of(secret@, id, checksum@, sign_ts@, rand@, uid@),
            sign@.len() == 32,
    {
        let mut plain: Vec<char> = Vec::new();
        plain.push('/');
        plain.push('v');
        plain.push('/');
        let id_text = decimal_chars(id as u64);
        append_chars(&mut plain, id_text.as_slice());
        plain.push('-');
        append_str(&mut plain, checksum.as_str());
        plain.push('.');
        plain.push('m');
        plain.push('p');
        plain.push('4');
        plain.push('-');
        append_str(&mut plain, sign_ts.as_str());
        plain.push('-');
        append_str(&mut plain, rand.as_str());
        plain.push('-');
        append_str(&mut plain, uid.as_str());
        plain.push('-');
        append_str(&mut plain, secret);
        assert(plain@ =~= sign_plain(secret@, id, checksum@, sign_ts@, rand@, uid@));
        let text = string_of(plain.as_slice());
        md5_hex(text.as_str().as_bytes())
    }

    /// Checks the signature and the age of a token whose fields are known:
    /// `sign` is the signature it carries, `wanted` the one that its fields
    /// call for, `sign_ts` the time of signing as it states it.
    pub fn check_signed(
        sign: String,
        wanted: String,
        sign_ts: SignTimestampType,
        token_valid_seconds: i64,
        now: TimestampType,
    ) -> (r: Result<(), TokenError>)
        ensures
            match r {
                Ok(_) => {
                    &&& sign@ == wanted@
                    &&& sign_ts_value(sign_ts@) matches Some(at)
                    &&& now - at <= token_valid_seconds
                },
                Err(TokenError::SignatureMismatch { provided, wanted: called_for }) => {
                    &&& sign@ != wanted@
                    &&& provided@ == sign@
                    &&& called_for@ == wanted@
                },
                Err(TokenError::BadTimestamp { sign_ts: stated }) => {
                    &&& sign@ == wanted@
                    &&& sign_ts_value(sign_ts@) is None
                    &&& stated@ == sign_ts@
                },
                Err(TokenError::Expired { now: at, provided, tolerance }) => {
                    &&& sign@ == wanted@
                    &&& sign_ts_value(sign_ts@) == Some(provided as int)
                    &&& now - provided > token_valid_seconds
                    &&& at == now
                    &&& tolerance == token_valid_seconds
                },
                Err(TokenError::Malformed) => false,
            },
    {
        if wanted != sign {
            return Err(TokenError::SignatureMismatch { provided: sign, wanted });
        }
        let provided_ts = match Self::decode_sign_ts(&sign_ts) {
            Some(t) => t,
            None => {
                return Err(TokenError::BadTimestamp { sign_ts });
            },
        };
        if now as i128 - provided_ts as i128 > token_valid_seconds as i128 {
            return Err(
                TokenError::Expired { now, provided: provided_ts, tolerance: token_valid_seconds },
            );
        }
        Ok(())
    }

    /// Checks `token` for the file `(id, checksum)` at time `now`: first its
    /// shape, then its signature, then its age.
    pub fn verify_token(
        token: &str,
        secret: &str,
        id: SongId,
        checksum: &ChecksumType,
        token_valid_seconds: i64,
        now: TimestampType,
    ) -> (r: Result<(), TokenError>)
        ensures
            r is Ok <==> token_valid(
                token@,
                secret@,
                id,
                checksum@,
                token_valid_seconds as int,
                now as int,
            ),
            r matches Err(e) ==> token_refused(
                e,
                token@,
                secret@,
                id,
                checksum@,
                token_valid_seconds as int,
                now as int,
            ),
            r is Ok ==> (token_fields(token@) matches Some(fields) && fields.0.len() == 32),
    {
        let (sign, sign_ts, rand, uid) = match Self::decode_token(token) {
            Ok(fields) => fields,
            Err(e) => {
                return Err(e);
            },
        };
        let sign_verify = Self::generate_sign(secret, id, checksum, &sign_ts, &rand, &uid);
        Self::check_signed(sign, sign_verify, sign_ts, token_valid_seconds, now)
    }

    /// The `rand` field of a token: the User-Agent in URL-safe base64.
    pub fn generate_rand_from_user_agent(user_agent: &String) -> (rand: RandType)
        requires
            base64_encodable(encode_utf8(user_agent@).len()),
        ensures
            rand@ == rand_of(user_agent@),
    {
        base64_url_encode(user_agent.as_str().as_bytes())
    }

    /// The `uid` field of a token: the client's address as text, with an
    /// underscore for every dot.
    pub fn generate_uid_from_client_ip(remote: &str) -> (uid: UidType)
        ensures
            uid@ == uid_of(remote@),
    {
        let chars = chars_of(remote);
        let swapped = swap_char(chars.as_slice(), '.', '_');
        string_of(swapped.as_slice())
    }
}

/// The token that is issued at time `ts` for the file `(id, checksum)` to the
/// client at `remote` with the given User-Agent.
pub open spec fn issued_token(
    secret: Seq<char>,
    id: SongId,
    checksum: Seq<char>,
    user_agent: Seq<char>,
    remote: Seq<char>,
    ts: int,
) -> Seq<char> {
    let sign_ts = signed_decimal(ts);
    let rand = rand_of(user_agent);
    let uid = uid_of(remote);
    token_text(sign_of(secret, id, checksum, sign_ts, rand, uid), sign_ts, rand, uid)
}

/// Whether the fields that a client and a time of signing give can be told
/// apart again in a token: neither the time nor the address brings a dash.
/// This leaves out times before 1970 and addresses that hold a dash. The
/// User-Agent is free.
pub open spec fn fields_separable(remote: Seq<char>, ts: int) -> bool {
    &&& 0 <= ts <= i64::MAX
    &&& free_of(remote, '-')
}

impl CdnServiceImpl {
    /// Answers a request for the song `id`: a token where the video is cached
    /// and has a checksum, else a miss.
    pub fn serve_token(
        &self,
        id: SongId,
        remote: &str,
        user_agent: String,
        video: &CachedVideoFile,
        checksum: Result<ChecksumType, ChecksumError>,
        now: TimestampType,
    ) -> (r: CdnFetchResult)
        requires
            base64_encodable(encode_utf8(user_agent@).len()),
        ensures
            match (*video, checksum) {
                (CachedVideoFile::Available(_), Ok(c)) => {
                    &&& r matches CdnFetchResult::Hit(token, sum, ts, sign, sign_ts)
                    &&& token@ == issued_token(
                        self.token_sign_secret@,
                        id,
                        c@,
                        user_agent@,
                        remote@,
                        now as int,
                    )
                    &&& sum@ == c@
                    &&& ts == now
                    &&& sign_ts@ == signed_decimal(now as int)
                    &&& sign@ == sign_of(
                        self.token_sign_secret@,
                        id,
                        c@,
                        sign_ts@,
                        rand_of(user_agent@),
                        uid_of(remote@),
                    )
                },
                _ => r is Miss,
            },
    {
        match video {
            CachedVideoFile::Available(_) => match checksum {
                Ok(checksum) => {
                    let (ts, sign_ts) = Self::generate_sign_ts_now(now);
                    let rand = Self::generate_rand_from_user_agent(&user_agent);
                    let uid = Self::generate_uid_from_client_ip(remote);
                    let sign = Self::generate_sign(
                        self.token_sign_secret.as_str(),
                        id,
                        &checksum,
                        &sign_ts,
                        &rand,
                        &uid,
                    );
                    let token = Self::encode_token(&sign, &sign_ts, &rand, &uid);
                    CdnFetchResult::Hit(token, checksum, ts, sign, sign_ts)
                },
                Err(_) => CdnFetchResult::Miss,
            },
            CachedVideoFile::Unavailable { .. } => CdnFetchResult::Miss,
        }
    }

    /// Decides a delivery of the song `id`: with a token, the token must hold
    /// for `(id, checksum)` at `now`; then the video is handed out if it is
    /// cached, and `None` if it is not.
    pub fn serve_file(
        &self,
        id: SongId,
        token: Option<String>,
        checksum: ChecksumType,
        video: CachedVideoFile,
        now: TimestampType,
    ) -> (r: Result<Option<CachedVideo>, TokenError>)
        ensures
            r is Ok <==> (token matches Some(t) ==> token_valid(
                t@,
                self.token_sign_secret@,
                id,
                checksum@,
                self.token_valid_seconds as int,
                now as int,
            )),
            r matches Ok(found) ==> found == match video {
                CachedVideoFile::Available(v) => Some(v),
                CachedVideoFile::Unavailable { .. } => None,
            },
            r matches Err(e) ==> (token matches Some(t) && token_refused(
                e,
                t@,
                self.token_sign_secret@,
                id,
                checksum@,
                self.token_valid_seconds as int,
                now as int,
            )),
    {
        match token {
            Some(token) => self.serve_file_auth(id, token, checksum, video, now),
            None => Ok(Self::serve_file_no_auth(video)),
        }
    }

    fn serve_file_no_auth(video: CachedVideoFile) -> (r: Option<CachedVideo>)
        ensures
            r == match video {
                CachedVideoFile::Available(v) => Some(v),
                CachedVideoFile::Unavailable { .. } => None,
            },
    {
        match video {
            CachedVideoFile::Available(video) => Some(video),
            _ => None,
        }
    }

    fn serve_file_auth(
        &self,
        id: SongId,
        token: String,
        checksum: ChecksumType,
        video: CachedVideoFile,
        now: TimestampType,
    ) -> (r: Result<Option<CachedVideo>, TokenError>)
        ensures
            r is Ok <==> token_valid(
                token@,
                self.token_sign_secret@,
                id,
                checksum@,
                self.token_valid_seconds as int,
                now as int,
            ),
            r matches Ok(found) ==> found == match video {
                CachedVideoFile::Available(v) => Some(v),
                CachedVideoFile::Unavailable { .. } => None,
            },
            r matches Err(e) ==> token_refused(
                e,
                token@,
                self.token_sign_secret@,
                id,
                checksum@,
                self.token_valid_seconds as int,
                now as int,
            ),
    {
        match Self::verify_token(
            token.as_str(),
            self.token_sign_secret.as_str(),
            id,
            &checksum,
            self.token_valid_seconds,
            now,
        ) {
            Ok(_) => Ok(Self::serve_file_no_auth(video)),
            Err(e) => Err(e),
        }
    }
}

/// A numeral holds no dash.
pub proof fn lemma_decimal_no_dash(n: nat)
    ensures
        free_of(decimal(n), '-'),
{
    lemma_decimal_digits(n);
}

/// A token made of a time and an address free of dashes, any `rand` and a
/// signature comes apart into those four fields.
pub proof fn lemma_token_fields(
    bytes: Seq<u8>,
    sign_ts: Seq<char>,
    rand: Seq<char>,
    uid: Seq<char>,
)
    requires
        free_of(sign_ts, '-'),
        free_of(uid, '-'),
    ensures
        token_fields(token_text(hex_lower(bytes), sign_ts, rand, uid)) == Some(
            (hex_lower(bytes), sign_ts, rand, uid),
        ),
{
    let sign = hex_lower(bytes);
    lemma_hex_no_dash(bytes);
    let token = token_text(sign, sign_ts, rand, uid);
    let first = sign_ts.len() as int;
    let middle = first + 1 + rand.len();
    let last = middle + 1 + uid.len();
    assert(token.len() == last + 1 + sign.len());
    assert(token[first] == '-');
    assert(token[middle] == '-');
    assert(token[last] == '-');
    assert forall|j: int| 0 <= j < first implies #[trigger] token[j] != '-' by {
        assert(token[j] == sign_ts[j]);
    }
    lemma_index_of_found(token, '-', first);
    assert forall|j: int| last < j < token.len() implies #[trigger] token[j] != '-' by {
        assert(token[j] == sign[j - last - 1]);
    }
    lemma_last_index_found(token, '-', last);
    let head = token.take(last);
    assert(head[middle] == '-');
    assert forall|j: int| middle < j < head.len() implies #[trigger] head[j] != '-' by {
        assert(head[j] == uid[j - middle - 1]);
    }
    lemma_last_index_found(head, '-', middle);
    assert(token.skip(last + 1) =~= sign);
    assert(token.take(first) =~= sign_ts);
    assert(token.subrange(first + 1, middle) =~= rand);
    assert(token.subrange(middle + 1, last) =~= uid);
}

/// A field added at the end of a token takes the place of its signature:
/// the signature that the token carried is then read as its `uid`, and what
/// was its `uid` as the end of its `rand`.
pub proof fn lemma_added_field(token: Seq<char>, extra: Seq<char>)
    requires
        token_fields(token) is Some,
        free_of(extra, '-'),
    ensures
        ({
            let longer = token + seq!['-'] + extra;
            let had = token_fields(token)->0;
            &&& token_fields(longer) matches Some(fields)
            &&& fields.0 == extra
            &&& fields.1 == had.1
            &&& fields.2 == had.2 + seq!['-'] + had.3
            &&& fields.3 == had.0
        }),
{
    let longer = token + seq!['-'] + extra;
    let first = index_of(token, '-') as int;
    let last = last_index_of(token, '-');
    let middle = last_index_of(token.take(last), '-');
    lemma_index_of_first(token, '-');
    lemma_last_index_last(token, '-');
    lemma_last_index_last(token.take(last), '-');
    let end = token.len() as int;
    assert(longer[end] == '-');
    assert forall|j: int| end < j < longer.len() implies #[trigger] longer[j] != '-' by {
        assert(longer[j] == extra[j - end - 1]);
    }
    lemma_last_index_found(longer, '-', end);
    assert(longer.take(end) =~= token);
    assert(longer[first] == token[first]);
    assert forall|j: int| 0 <= j < first implies #[trigger] longer[j] != '-' by {
        assert(longer[j] == token[j]);
    }
    lemma_index_of_found(longer, '-', first);
    assert(first < middle < last);
    assert(longer.skip(end + 1) =~= extra);
    assert(longer.take(first) =~= token.take(first));
    assert(longer.subrange(last + 1, end) =~= token.skip(last + 1));
    assert(longer.subrange(first + 1, last) =~= token.subrange(first + 1, middle) + seq!['-']
        + token.subrange(middle + 1, last)) by {
        assert(token[middle] == token.take(last)[middle]);
    }
}

/// The time of signing reads back from its field.
pub proof fn lemma_sign_ts_reads_back(ts: int)
    requires
        0 <= ts <= i64::MAX,
    ensures
        sign_ts_value(signed_decimal(ts)) == Some(ts),
{
    lemma_decimal_digits(ts as nat);
    lemma_decimal_value(ts as nat);
    let s = decimal(ts as nat);
    assert(crate::text::is_digit(s[0]));
}

/// A token holds from the moment it is issued until `token_valid_seconds`
/// have passed, and never after: issued at `ts` for `(id, checksum)`, it is
/// valid for that file at `now` exactly when `now - ts` is at most
/// `token_valid_seconds`.
pub proof fn lemma_token_round_trip(
    secret: Seq<char>,
    id: SongId,
    checksum: Seq<char>,
    user_agent: Seq<char>,
    remote: Seq<char>,
    ts: int,
    token_valid_seconds: int,
    now: int,
)
    requires
        fields_separable(remote, ts),
    ensures
        token_valid(
            issued_token(secret, id, checksum, user_agent, remote, ts),
            secret,
            id,
            checksum,
            token_valid_seconds,
            now,
        ) <==> now - ts <= token_valid_seconds,
{
    let sign_ts = signed_decimal(ts);
    let rand = rand_of(user_agent);
    let uid = uid_of(remote);
    lemma_decimal_no_dash(ts as nat);
    assert(free_of(uid, '-'));
    lemma_token_fields(
        md5_digest(encode_utf8(sign_plain(secret, id, checksum, sign_ts, rand, uid))),
        sign_ts,
        rand,
        uid,
    );
    lemma_sign_ts_reads_back(ts);
}

/// The MD5 of the text that is signed.
pub open spec fn sign_digest(
    secret: Seq<char>,
    id: SongId,
    checksum: Seq<char>,
    sign_ts: Seq<char>,
    rand: Seq<char>,
    uid: Seq<char>,
) -> Seq<u8> {
    md5_digest(encode_utf8(sign_plain(secret, id, checksum, sign_ts, rand, uid)))
}

/// A token is bound to the checksum it was issued for. The texts signed
/// for two checksums differ, and a token issued for one holds under the
/// other only if MD5 gives both texts the same digest.
pub proof fn lemma_token_binding(
    secret: Seq<char>,
    id: SongId,
    checksum: Seq<char>,
    other_checksum: Seq<char>,
    user_agent: Seq<char>,
    remote: Seq<char>,
    ts: int,
    token_valid_seconds: int,
    now: int,
)
    requires
        checksum != other_checksum,
        fields_separable(remote, ts),
    ensures
        sign_plain(
            secret,
            id,
            checksum,
            signed_decimal(ts),
            rand_of(user_agent),
            uid_of(remote),
        ) != sign_plain(
            secret,
            id,
            other_checksum,
            signed_decimal(ts),
            rand_of(user_agent),
            uid_of(remote),
        ),
        token_valid(
            issued_token(secret, id, checksum, user_agent, remote, ts),
            secret,
            id,
            other_checksum,
            token_valid_seconds,
            now,
        ) ==> sign_digest(
            secret,
            id,
            checksum,
            signed_decimal(ts),
            rand_of(user_agent),
            uid_of(remote),
        ) == sign_digest(
            secret,
            id,
            other_checksum,
            signed_decimal(ts),
            rand_of(user_agent),
            uid_of(remote),
        ),
{
    let sign_ts = signed_decimal(ts);
    let rand = rand_of(user_agent);
    let uid = uid_of(remote);
    lemma_decimal_no_dash(ts as nat);
    assert(free_of(uid, '-'));
    lemma_token_fields(
        md5_digest(encode_utf8(sign_plain(secret, id, checksum, sign_ts, rand, uid))),
        sign_ts,
        rand,
        uid,
    );
    if hex_lower(sign_digest(secret, id, checksum, sign_ts, rand, uid)) == hex_lower(
        sign_digest(secret, id, other_checksum, sign_ts, rand, uid),
    ) {
        lemma_hex_injective(
            sign_digest(secret, id, checksum, sign_ts, rand, uid),
            sign_digest(secret, id, other_checksum, sign_ts, rand, uid),
        );
    }
    let head = seq!['/', 'v', '/'] + decimal(id as nat) + seq!['-'];
    let rest = seq!['.', 'm', 'p', '4'] + seq!['-'] + sign_ts + seq!['-'] + rand + seq!['-'] + uid
        + seq!['-'] + secret;
    let a = sign_plain(secret, id, checksum, sign_ts, rand, uid);
    let b = sign_plain(secret, id, other_checksum, sign_ts, rand, uid);
    assert(a =~= head + checksum + rest);
    assert(b =~= head + other_checksum + rest);
    if a == b {
        assert(a.len() == head.len() + checksum.len() + rest.len());
        assert(b.len() == head.len() + other_checksum.len() + rest.len());
        assert forall|i: int| 0 <= i < checksum.len() implies checksum[i] == other_checksum[i] by {
            assert(a[head.len() + i] == checksum[i]);
            assert(b[head.len() + i] == other_checksum[i]);
        }
        assert(checksum =~= other_checksum);
    }
}

} // verus!
