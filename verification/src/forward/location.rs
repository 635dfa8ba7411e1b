//! Where a connection is forwarded to.

use vstd::prelude::*;
use vstd::slice::slice_subrange;

use crate::text::{chars_of, last_index_of, parse_unsigned, string_of, unsigned_literal};

verus! {

/// A host and a port.
#[derive(Debug, Clone, PartialEq, Eq)]
pub struct NetLocation {
    pub address: String,
    pub port: u16,
}

/// The destination of a forwarded connection.
#[derive(Debug, Clone, PartialEq, Eq)]
pub enum Location {
    Address(NetLocation),
}

/// The host and port that `text` names as `host:port`: the port is the
/// decimal number of 16 bits after the last colon, the host what stands
/// before that colon, and is not empty.
pub open spec fn net_location(text: Seq<char>) -> Option<(Seq<char>, u16)> {
    let colon = last_index_of(text, ':');
    if colon <= 0 {
        None
    } else {
        match unsigned_literal(text.skip(colon + 1), u16::MAX as nat) {
            Some(port) => Some((text.take(colon), port as u16)),
            None => None,
        }
    }
}

impl NetLocation {
    /// Reads `host:port`.
    pub fn parse(text: &str) -> (r: Option<NetLocation>)
        ensures
            match (r, net_location(text@)) {
                (Some(location), Some((address, port))) => {
                    &&& location.address@ == address
                    &&& location.port == port
                },
                (None, None) => true,
                _ => false,
            },
    {
        let chars = chars_of(text);
        let mut at: usize = chars.len();
        assert(chars@.take(at as int) =~= chars@);
        while at > 0 && chars[at - 1] != ':'
            invariant
                at <= chars.len(),
                last_index_of(chars@, ':') == last_index_of(chars@.take(at as int), ':'),
            decreases at,
        {
            assert(chars@.take(at as int).drop_last() =~= chars@.take(at - 1));
            at -= 1;
        }
        if at <= 1 {
            assert(at == 1 ==> chars@.take(1).last() == ':');
            return None;
        }
        assert(chars@.take(at as int).last() == ':');
        let colon: usize = at - 1;
        let tail = slice_subrange(chars.as_slice(), at, chars.len());
        assert(tail@ =~= chars@.skip(colon + 1));
        match parse_unsigned(tail, 65535) {
            Some(port) => {
                let head = slice_subrange(chars.as_slice(), 0, colon);
                assert(head@ =~= chars@.take(colon as int));
                Some(NetLocation { address: string_of(head), port: port as u16 })
            },
            None => None,
        }
    }
}

} // verus!
