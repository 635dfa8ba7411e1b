//! Reading the server name out of a TLS ClientHello.
//!
//! The forwarder looks at the first bytes that a client sends, without
//! taking them off the connection, and routes by the host name in the
//! `server_name` extension. Nothing else of the handshake is interpreted.
//!
//! The layout read here: a record header of five bytes (type 22, version,
//! length); a handshake header of four (type 1, length); then version (2),
//! random (32), session id (length 1), cipher suites (length 2),
//! compression methods (length 1) and extensions (length 2), each extension
//! a type (2), a length (2) and its data. The `server_name` extension has
//! type 0 and holds a list (length 2) of names, each a type (1), a length
//! (2) and the name; a host name has type 0.

use vstd::prelude::*;
use vstd::slice::{slice_subrange, slice_to_vec};

verus! {

/// How many bytes are looked at before a connection without a readable
/// ClientHello is dropped.
pub const PEEK_BUDGET: usize = 8192;

/// What the bytes seen so far say of the server name.
#[derive(Debug, Clone, PartialEq, Eq)]
pub enum Sni {
    /// The bytes may be the beginning of a ClientHello; more are needed.
    Incomplete,
    /// The bytes are no ClientHello.
    Invalid,
    /// The ClientHello names no host.
    Absent,
    /// The host name, as sent.
    Name(Vec<u8>),
}

/// What the bytes seen so far say of the server name, as a value of
/// specifications.
pub enum SniView {
    Incomplete,
    Invalid,
    Absent,
    Name(Seq<u8>),
}

impl View for Sni {
    type V = SniView;

    open spec fn view(&self) -> SniView {
        match self {
            Sni::Incomplete => SniView::Incomplete,
            Sni::Invalid => SniView::Invalid,
            Sni::Absent => SniView::Absent,
            Sni::Name(name) => SniView::Name(name@),
        }
    }
}

/// What to do with a connection after a look at its first bytes.
#[derive(Debug, Clone, PartialEq, Eq)]
pub enum Peek {
    /// Look again once more bytes have arrived.
    NeedMore,
    /// Close the connection.
    Drop,
    /// Forward the connection to the backend for this host name.
    Route(Vec<u8>),
}

/// The two bytes at `at` as a number, high byte first.
pub open spec fn be16(b: Seq<u8>, at: int) -> int {
    b[at] * 256 + b[at + 1]
}

/// The three bytes at `at` as a number, high byte first.
pub open spec fn be24(b: Seq<u8>, at: int) -> int {
    b[at] * 65536 + b[at + 1] * 256 + b[at + 2]
}

/// The first host name in the list of names `list`, read from `at`.
pub open spec fn name_in_list(list: Seq<u8>, at: int) -> SniView
    decreases list.len() - at,
{
    if at < 0 || at >= list.len() {
        SniView::Absent
    } else if list.len() - at < 3 {
        SniView::Invalid
    } else {
        let len = be16(list, at + 1);
        if list.len() - at - 3 < len {
            SniView::Invalid
        } else if list[at] == 0 {
            SniView::Name(list.subrange(at + 3, at + 3 + len))
        } else {
            name_in_list(list, at + 3 + len)
        }
    }
}

/// The host name in the data of a `server_name` extension.
pub open spec fn name_in_extension(data: Seq<u8>) -> SniView {
    if data.len() < 2 {
        SniView::Invalid
    } else if data.len() - 2 < be16(data, 0) {
        SniView::Invalid
    } else {
        name_in_list(data.subrange(2, 2 + be16(data, 0)), 0)
    }
}

/// The host name in the first `server_name` extension among the extensions
/// `ext`, read from `at`.
pub open spec fn name_in_extensions(ext: Seq<u8>, at: int) -> SniView
    decreases ext.len() - at,
{
    if at < 0 || at >= ext.len() {
        SniView::Absent
    } else if ext.len() - at < 4 {
        SniView::Invalid
    } else {
        let len = be16(ext, at + 2);
        if ext.len() - at - 4 < len {
            SniView::Invalid
        } else if be16(ext, at) == 0 {
            name_in_extension(ext.subrange(at + 4, at + 4 + len))
        } else {
            name_in_extensions(ext, at + 4 + len)
        }
    }
}

/// Where the session id ends in the body of a ClientHello.
pub open spec fn after_session_id(body: Seq<u8>) -> int {
    35 + body[34]
}

/// Where the cipher suites end.
pub open spec fn after_cipher_suites(body: Seq<u8>) -> int {
    after_session_id(body) + 2 + be16(body, after_session_id(body))
}

/// Where the compression methods end.
pub open spec fn after_compression(body: Seq<u8>) -> int {
    after_cipher_suites(body) + 1 + body[after_cipher_suites(body)]
}

/// The host name in the body of a ClientHello.
pub open spec fn name_in_hello(body: Seq<u8>) -> SniView {
    if body.len() < 35 {
        SniView::Invalid
    } else if body.len() < after_session_id(body) + 2 {
        SniView::Invalid
    } else if body.len() < after_cipher_suites(body) + 1 {
        SniView::Invalid
    } else if body.len() < after_compression(body) {
        SniView::Invalid
    } else if body.len() == after_compression(body) {
        SniView::Absent
    } else if body.len() < after_compression(body) + 2 {
        SniView::Invalid
    } else {
        let at = after_compression(body);
        let len = be16(body, at);
        if body.len() - at - 2 < len {
            SniView::Invalid
        } else {
            name_in_extensions(body.subrange(at + 2, at + 2 + len), 0)
        }
    }
}

/// The host name in a handshake record's payload, which must hold one
/// whole ClientHello.
pub open spec fn name_in_record(record: Seq<u8>) -> SniView {
    if record.len() < 4 {
        SniView::Invalid
    } else if record[0] != 1 {
        SniView::Invalid
    } else if record.len() - 4 < be24(record, 1) {
        SniView::Invalid
    } else {
        name_in_hello(record.subrange(4, 4 + be24(record, 1)))
    }
}

/// What the first bytes of a connection say of the server name.
///
/// Bytes that do not begin a TLS handshake record are invalid from the
/// first byte on; a record that has not arrived whole is incomplete.
pub open spec fn client_hello_name(bytes: Seq<u8>) -> SniView {
    if bytes.len() >= 1 && bytes[0] != 22 {
        SniView::Invalid
    } else if bytes.len() >= 2 && bytes[1] != 3 {
        SniView::Invalid
    } else if bytes.len() < 5 {
        SniView::Incomplete
    } else if bytes.len() - 5 < be16(bytes, 3) {
        SniView::Incomplete
    } else {
        name_in_record(bytes.subrange(5, 5 + be16(bytes, 3)))
    }
}

/// What to do after a look at `bytes`: route by the name once it can be
/// read, wait while the budget lasts, and drop anything else.
pub open spec fn peek_of(bytes: Seq<u8>) -> SniView {
    match client_hello_name(bytes) {
        SniView::Incomplete => if bytes.len() >= PEEK_BUDGET {
            SniView::Invalid
        } else {
            SniView::Incomplete
        },
        SniView::Absent => SniView::Invalid,
        other => other,
    }
}

fn read16(b: &[u8], at: usize) -> (v: usize)
    requires
        at + 1 < b@.len(),
    ensures
        v == be16(b@, at as int),
        v <= 65535,
{
    (b[at] as usize) * 256 + (b[at + 1] as usize)
}

fn read24(b: &[u8], at: usize) -> (v: usize)
    requires
        at + 2 < b@.len(),
    ensures
        v == be24(b@, at as int),
        v <= 16777215,
{
    (b[at] as usize) * 65536 + (b[at + 1] as usize) * 256 + (b[at + 2] as usize)
}

fn find_in_list(list: &[u8]) -> (r: Sni)
    ensures
        r@ == name_in_list(list@, 0),
{
    let mut at: usize = 0;
    while at < list.len()
        invariant
            at <= list.len(),
            name_in_list(list@, 0) == name_in_list(list@, at as int),
        decreases list.len() - at,
    {
        if list.len() - at < 3 {
            return Sni::Invalid;
        }
        let len = read16(list, at + 1);
        if list.len() - at - 3 < len {
            return Sni::Invalid;
        }
        if list[at] == 0 {
            return Sni::Name(slice_to_vec(slice_subrange(list, at + 3, at + 3 + len)));
        }
        at = at + 3 + len;
    }
    Sni::Absent
}

fn find_in_extension(data: &[u8]) -> (r: Sni)
    ensures
        r@ == name_in_extension(data@),
{
    if data.len() < 2 {
        return Sni::Invalid;
    }
    let len = read16(data, 0);
    if data.len() - 2 < len {
        return Sni::Invalid;
    }
    find_in_list(slice_subrange(data, 2, 2 + len))
}

fn find_in_extensions(ext: &[u8]) -> (r: Sni)
    ensures
        r@ == name_in_extensions(ext@, 0),
{
    let mut at: usize = 0;
    while at < ext.len()
        invariant
            at <= ext.len(),
            name_in_extensions(ext@, 0) == name_in_extensions(ext@, at as int),
        decreases ext.len() - at,
    {
        if ext.len() - at < 4 {
            return Sni::Invalid;
        }
        let kind = read16(ext, at);
        let len = read16(ext, at + 2);
        if ext.len() - at - 4 < len {
            return Sni::Invalid;
        }
        if kind == 0 {
            return find_in_extension(slice_subrange(ext, at + 4, at + 4 + len));
        }
        at = at + 4 + len;
    }
    Sni::Absent
}

fn find_in_hello(body: &[u8]) -> (r: Sni)
    ensures
        r@ == name_in_hello(body@),
{
    if body.len() < 35 {
        return Sni::Invalid;
    }
    let after_id: usize = 35 + body[34] as usize;
    if body.len() < after_id + 2 {
        return Sni::Invalid;
    }
    let after_suites: usize = after_id + 2 + read16(body, after_id);
    if body.len() < after_suites + 1 {
        return Sni::Invalid;
    }
    let after_methods: usize = after_suites + 1 + body[after_suites] as usize;
    if body.len() < after_methods {
        return Sni::Invalid;
    }
    if body.len() == after_methods {
        return Sni::Absent;
    }
    if body.len() < after_methods + 2 {
        return Sni::Invalid;
    }
    let len = read16(body, after_methods);
    if body.len() - after_methods - 2 < len {
        return Sni::Invalid;
    }
    find_in_extensions(slice_subrange(body, after_methods + 2, after_methods + 2 + len))
}

fn find_in_record(record: &[u8]) -> (r: Sni)
    ensures
        r@ == name_in_record(record@),
{
    if record.len() < 4 {
        return Sni::Invalid;
    }
    if record[0] != 1 {
        return Sni::Invalid;
    }
    let len = read24(record, 1);
    if record.len() - 4 < len {
        return Sni::Invalid;
    }
    find_in_hello(slice_subrange(record, 4, 4 + len))
}

/// Reads the server name out of the first bytes of a connection.
pub fn parse_client_hello(bytes: &[u8]) -> (r: Sni)
    ensures
        r@ == client_hello_name(bytes@),
{
    if bytes.len() >= 1 && bytes[0] != 22 {
        return Sni::Invalid;
    }
    if bytes.len() >= 2 && bytes[1] != 3 {
        return Sni::Invalid;
    }
    if bytes.len() < 5 {
        return Sni::Incomplete;
    }
    let len = read16(bytes, 3);
    if bytes.len() - 5 < len {
        return Sni::Incomplete;
    }
    find_in_record(slice_subrange(bytes, 5, 5 + len))
}

/// Decides what to do with a connection after a look at its first bytes.
pub fn peek_sni(bytes: &[u8]) -> (r: Peek)
    ensures
        match peek_of(bytes@) {
            SniView::Name(name) => r matches Peek::Route(host) && host@ == name,
            SniView::Incomplete => r is NeedMore,
            _ => r is Drop,
        },
{
    match parse_client_hello(bytes) {
        Sni::Name(host) => Peek::Route(host),
        Sni::Incomplete => if bytes.len() >= PEEK_BUDGET {
            Peek::Drop
        } else {
            Peek::NeedMore
        },
        _ => Peek::Drop,
    }
}

} // verus!
