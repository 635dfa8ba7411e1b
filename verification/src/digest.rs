//! Digests and text encodings of byte strings.
//!
//! The MD5 function itself is not modelled: its result carries a name, and
//! contracts speak of that name. The two text encodings are stated in full.

use vstd::prelude::*;

verus! {

/// The MD5 digest of `data`.
pub uninterp spec fn md5_digest(data: Seq<u8>) -> Seq<u8>;

/// The lowercase hexadecimal digit for `n`, for `n` below sixteen.
pub open spec fn hex_digit(n: nat) -> char {
    if n < 10 {
        (48 + n) as char
    } else {
        (87 + n) as char
    }
}

/// Two lowercase hexadecimal digits for each byte, high digit first.
pub open spec fn hex_lower(bytes: Seq<u8>) -> Seq<char>
    decreases bytes.len(),
{
    if bytes.len() == 0 {
        Seq::empty()
    } else {
        hex_lower(bytes.drop_last()).push(hex_digit((bytes.last() / 16) as nat)).push(
            hex_digit((bytes.last() % 16) as nat),
        )
    }
}

/// The character that stands for the six-bit value `v` in the URL-safe
/// base64 alphabet: `A-Z`, `a-z`, `0-9`, `-`, `_`.
pub open spec fn base64url_char(v: nat) -> char {
    if v < 26 {
        (65 + v) as char
    } else if v < 52 {
        (71 + v) as char
    } else if v < 62 {
        ((v - 4) as nat) as char
    } else if v == 62 {
        '-'
    } else {
        '_'
    }
}

/// URL-safe base64 without padding: each three bytes give four characters,
/// a last single byte gives two and a last pair gives three.
pub open spec fn base64url(data: Seq<u8>) -> Seq<char>
    decreases data.len(),
{
    if data.len() == 0 {
        Seq::empty()
    } else if data.len() == 1 {
        seq![base64url_char((data[0] / 4) as nat), base64url_char(((data[0] % 4) * 16) as nat)]
    } else if data.len() == 2 {
        seq![
            base64url_char((data[0] / 4) as nat),
            base64url_char(((data[0] % 4) * 16 + data[1] / 16) as nat),
            base64url_char(((data[1] % 16) * 4) as nat),
        ]
    } else {
        seq![
            base64url_char((data[0] / 4) as nat),
            base64url_char(((data[0] % 4) * 16 + data[1] / 16) as nat),
            base64url_char(((data[1] % 16) * 4 + data[2] / 64) as nat),
            base64url_char((data[2] % 64) as nat),
        ] + base64url(data.skip(3))
    }
}

/// Whether the base64 encoder accepts an input of `len` bytes: the length of
/// its output must fit in `usize`.
pub open spec fn base64_encodable(len: nat) -> bool {
    len / 3 * 4 + 3 <= usize::MAX
}

/// Calls `md5::compute`. The contract names the digest that it returns for
/// `data`, and says that it has sixteen bytes.
#[verifier::external_body]
fn md5_compute(data: &[u8]) -> (digest: Vec<u8>)
    ensures
        digest@ == md5_digest(data@),
        digest@.len() == 16,
{
    md5::compute(data).0.to_vec()
}

/// Calls `hex::encode`, which writes each byte as two digits taken from
/// `0123456789abcdef`, the high four bits first.
#[verifier::external_body]
fn hex_encode(data: &[u8]) -> (text: String)
    ensures
        text@ == hex_lower(data@),
{
    hex::encode(data)
}

/// Calls `base64_url::encode`, the URL-safe alphabet without padding. The
/// encoder panics where the output length overflows `usize`.
#[verifier::external_body]
pub(crate) fn base64_url_encode(data: &[u8]) -> (text: String)
    requires
        base64_encodable(data@.len()),
    ensures
        text@ == base64url(data@),
{
    base64_url::encode(data)
}

/// The MD5 digest of `data` in lowercase hexadecimal, thirty-two digits.
pub fn md5_hex(data: &[u8]) -> (text: String)
    ensures
        text@ == hex_lower(md5_digest(data@)),
        text@.len() == 32,
{
    let digest = md5_compute(data);
    proof {
        lemma_hex_len(digest@);
    }
    hex_encode(digest.as_slice())
}

/// Hexadecimal text holds no dash.
pub proof fn lemma_hex_no_dash(bytes: Seq<u8>)
    ensures
        crate::text::free_of(hex_lower(bytes), '-'),
    decreases bytes.len(),
{
    if bytes.len() > 0 {
        lemma_hex_no_dash(bytes.drop_last());
    }
}

/// Hexadecimal text is twice as long as the bytes it stands for.
pub proof fn lemma_hex_len(bytes: Seq<u8>)
    ensures
        hex_lower(bytes).len() == 2 * bytes.len(),
    decreases bytes.len(),
{
    if bytes.len() > 0 {
        lemma_hex_len(bytes.drop_last());
    }
}

/// Different bytes never have the same hexadecimal text.
pub proof fn lemma_hex_injective(a: Seq<u8>, b: Seq<u8>)
    requires
        hex_lower(a) == hex_lower(b),
    ensures
        a == b,
    decreases a.len(),
{
    lemma_hex_len(a);
    lemma_hex_len(b);
    if a.len() == 0 {
        assert(a =~= b);
    } else {
        let ha = hex_lower(a);
        let hb = hex_lower(b);
        let n = ha.len() as int;
        lemma_hex_len(a.drop_last());
        lemma_hex_len(b.drop_last());
        assert(ha[n - 1] == hex_digit((a.last() % 16) as nat));
        assert(ha[n - 2] == hex_digit((a.last() / 16) as nat));
        assert(hb[n - 1] == hex_digit((b.last() % 16) as nat));
        assert(hb[n - 2] == hex_digit((b.last() / 16) as nat));
        assert forall|x: nat, y: nat| x < 16 && y < 16 && hex_digit(x) == hex_digit(
            y,
        ) implies x == y by {
            assert(hex_digit(x) as int == if x < 10 {
                48 + x
            } else {
                87 + x
            });
            assert(hex_digit(y) as int == if y < 10 {
                48 + y
            } else {
                87 + y
            });
        }
        assert(a.last() % 16 == b.last() % 16);
        assert(a.last() / 16 == b.last() / 16);
        assert(a.last() == b.last());
        assert(hex_lower(a.drop_last()) =~= ha.take(n - 2));
        assert(hex_lower(b.drop_last()) =~= hb.take(n - 2));
        lemma_hex_injective(a.drop_last(), b.drop_last());
        assert(a =~= a.drop_last().push(a.last()));
        assert(b =~= b.drop_last().push(b.last()));
    }
}

} // verus!
