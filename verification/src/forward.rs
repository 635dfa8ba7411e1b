//! Forwarding TLS connections by server name, without terminating TLS.
//!
//! A route names a host and the backend that connections for it go to. The
//! routes are fixed when the forwarder starts.

use vstd::prelude::*;
use vstd::utf8::encode_utf8;

use crate::forward::location::{net_location, Location, NetLocation};
use crate::forward::sni::{peek_of, peek_sni, Peek, SniView};
use crate::forward::tcp::{TargetData, TargetLocationData};
use crate::text::{chars_of, index_of, string_of};

pub mod location;
pub mod sni;
pub mod tcp;

verus! {

/// One route: connections that name `host` go to `target`, which was
/// configured as `forward_target`.
#[derive(Debug)]
pub struct SniRoute {
    pub host: String,
    pub forward_target: String,
    pub target: TargetData,
}

/// The routes of the forwarder. No host occurs twice.
#[derive(Debug)]
pub struct SniMap {
    pub host_mappings: Vec<SniRoute>,
}

/// What becomes of a connection after a look at its first bytes.
#[derive(Debug, Clone, Copy, PartialEq, Eq, Structural)]
pub enum Forward {
    /// Look again once more bytes have arrived.
    NeedMore,
    /// Close the connection.
    Drop,
    /// Connect to the backend of the route at this position and copy bytes
    /// both ways.
    Connect(usize),
}

/// The host and the target of a route written `host=target`: what stands
/// before and after the first `=`. Text without one defines no route.
pub open spec fn route_definition(text: Seq<char>) -> Option<(Seq<char>, Seq<char>)> {
    let at = index_of(text, '=') as int;
    if at >= text.len() {
        None
    } else {
        Some((text.take(at), text.skip(at + 1)))
    }
}

/// Reads a route written `host=target`.
pub fn parse_route(text: &str) -> (r: Option<(String, String)>)
    ensures
        match (r, route_definition(text@)) {
            (Some((host, target)), Some((h, t))) => host@ == h && target@ == t,
            (None, None) => true,
            _ => false,
        },
{
    let chars = chars_of(text);
    let mut at: usize = 0;
    while at < chars.len() && chars[at] != '='
        invariant
            at <= chars.len(),
            forall|j: int| 0 <= j < at ==> #[trigger] chars@[j] != '=',
        decreases chars.len() - at,
    {
        at += 1;
    }
    if at >= chars.len() {
        proof {
            crate::text::lemma_index_of_absent(chars@, '=');
        }
        return None;
    }
    proof {
        crate::text::lemma_index_of_found(chars@, '=', at as int);
    }
    let host = vstd::slice::slice_subrange(chars.as_slice(), 0, at);
    let target = vstd::slice::slice_subrange(chars.as_slice(), at + 1, chars.len());
    assert(host@ =~= chars@.take(at as int));
    assert(target@ =~= chars@.skip(at + 1));
    Some((string_of(host), string_of(target)))
}

/// What a route's backend is when it is made from the target `address` and
/// `port`: that one location, no delay switched off, and no connection
/// counted yet.
pub open spec fn fresh_target(target: TargetData, address: Seq<char>, port: u16) -> bool {
    &&& target.location_data@.len() == 1
    &&& target.location_data@[0].location matches Location::Address(first)
    &&& first.address@ == address
    &&& first.port == port
    &&& target.next_address_index == 0
    &&& !target.tcp_nodelay
}

/// The backend of a route from its configured target, which must read as
/// `host:port`.
pub fn to_location(forward_target: &String) -> (r: (Location, TargetData))
    requires
        net_location(forward_target@) is Some,
    ensures
        ({
            let (address, port) = net_location(forward_target@)->0;
            &&& r.0 matches Location::Address(net)
            &&& net.address@ == address
            &&& net.port == port
            &&& fresh_target(r.1, address, port)
        }),
{
    match NetLocation::parse(forward_target.as_str()) {
        Some(net) => {
            let copy = NetLocation { address: net.address.clone(), port: net.port };
            let mut location_data: Vec<TargetLocationData> = Vec::new();
            location_data.push(TargetLocationData { location: Location::Address(copy) });
            (
                Location::Address(net),
                TargetData { location_data, next_address_index: 0, tcp_nodelay: false },
            )
        },
        None => vstd::pervasive::unreached(),
    }
}

impl SniMap {
    /// No host occurs twice, and every route has a backend.
    pub open spec fn wf(&self) -> bool {
        &&& forall|i: int, j: int|
            0 <= i < j < self.host_mappings@.len() ==> #[trigger] self.host_mappings@[i].host@
                != #[trigger] self.host_mappings@[j].host@
        &&& forall|i: int|
            0 <= i < self.host_mappings@.len() ==> (#[trigger] self.host_mappings@[i])
                .target.location_data@.len() > 0
    }

    /// Whether a route exists for the host whose name, in UTF-8, is `name`.
    pub open spec fn routes(&self, name: Seq<u8>) -> bool {
        exists|i: int|
            0 <= i < self.host_mappings@.len() && encode_utf8(
                #[trigger] self.host_mappings@[i].host@,
            ) == name
    }

    /// No routes.
    pub fn new() -> (map: SniMap)
        ensures
            map.wf(),
            map.host_mappings@.len() == 0,
    {
        SniMap { host_mappings: Vec::new() }
    }

    /// Where the route for `host` stands, if there is one.
    pub fn position(&self, host: &String) -> (r: Option<usize>)
        ensures
            match r {
                Some(i) => {
                    &&& i < self.host_mappings@.len()
                    &&& self.host_mappings@[i as int].host@ == host@
                    &&& forall|j: int| 0 <= j < i ==> (#[trigger] self.host_mappings@[j]).host@
                        != host@
                },
                None => forall|i: int|
                    0 <= i < self.host_mappings@.len() ==> (
                    #[trigger] self.host_mappings@[i]).host@ != host@,
            },
    {
        let mut i: usize = 0;
        while i < self.host_mappings.len()
            invariant
                i <= self.host_mappings@.len(),
                forall|j: int| 0 <= j < i ==> (#[trigger] self.host_mappings@[j]).host@ != host@,
            decreases self.host_mappings.len() - i,
        {
            if self.host_mappings[i].host == *host {
                return Some(i);
            }
            i += 1;
        }
        None
    }

    /// Adds the route `host` to `forward_target`: in the place of the route
    /// that `host` had, or after the others where it had none. Its backend
    /// is the one that the target names. A target that is no `host:port` is
    /// refused and leaves the routes as they were.
    pub fn insert(&mut self, host: String, forward_target: String) -> (added: bool)
        requires
            old(self).wf(),
        ensures
            final(self).wf(),
            added == net_location(forward_target@) is Some,
            !added ==> final(self).host_mappings == old(self).host_mappings,
            added ==> {
                let before = old(self).host_mappings@;
                let after = final(self).host_mappings@;
                let (address, port) = net_location(forward_target@)->0;
                &&& before.len() <= after.len() <= before.len() + 1
                &&& forall|i: int|
                    0 <= i < before.len() && (#[trigger] before[i]).host@ != host@ ==> after[i]
                        == before[i]
                &&& exists|i: int|
                    0 <= i < after.len() && (#[trigger] after[i]).host@ == host@
                        && after[i].forward_target@ == forward_target@ && fresh_target(
                        after[i].target,
                        address,
                        port,
                    ) && (i < before.len() ==> before[i].host@ == host@)
            },
    {
        if NetLocation::parse(forward_target.as_str()).is_none() {
            return false;
        }
        let (_, target) = to_location(&forward_target);
        let ghost before = self.host_mappings@;
        let route = SniRoute { host, forward_target, target };
        match self.position(&route.host) {
            Some(at) => {
                let _ = self.host_mappings.remove(at);
                self.host_mappings.insert(at, route);
                assert(self.host_mappings@ =~= before.update(at as int, route));
                assert(self.host_mappings@[at as int] == route);
            },
            None => {
                self.host_mappings.push(route);
                assert(self.host_mappings@[before.len() as int] == route);
            },
        }
        true
    }

    /// Finds the route for the host whose name, in UTF-8, is `name`.
    pub fn lookup(&self, name: &[u8]) -> (r: Option<usize>)
        ensures
            r is Some <==> self.routes(name@),
            r matches Some(i) ==> {
                &&& i < self.host_mappings@.len()
                &&& encode_utf8(self.host_mappings@[i as int].host@) == name@
                &&& forall|j: int|
                    0 <= j < i ==> encode_utf8((#[trigger] self.host_mappings@[j]).host@) != name@
            },
    {
        let mut i: usize = 0;
        while i < self.host_mappings.len()
            invariant
                i <= self.host_mappings@.len(),
                forall|j: int|
                    0 <= j < i ==> encode_utf8((#[trigger] self.host_mappings@[j]).host@) != name@,
            decreases self.host_mappings.len() - i,
        {
            if same_bytes(self.host_mappings[i].host.as_str().as_bytes(), name) {
                return Some(i);
            }
            i += 1;
        }
        None
    }

    /// Decides what becomes of a connection whose first bytes are `peeked`:
    /// it is forwarded once a ClientHello can be read that names a host
    /// with a route; it waits for more bytes while the ClientHello is
    /// incomplete and the budget lasts; else it is dropped.
    pub fn route(&self, peeked: &[u8]) -> (r: Forward)
        ensures
            match peek_of(peeked@) {
                SniView::Name(name) => if self.routes(name) {
                    &&& r matches Forward::Connect(i)
                    &&& i < self.host_mappings@.len()
                    &&& encode_utf8(self.host_mappings@[i as int].host@) == name
                    &&& forall|j: int|
                        0 <= j < i ==> encode_utf8((#[trigger] self.host_mappings@[j]).host@)
                            != name
                } else {
                    r is Drop
                },
                SniView::Incomplete => r is NeedMore,
                _ => r is Drop,
            },
    {
        match peek_sni(peeked) {
            Peek::NeedMore => Forward::NeedMore,
            Peek::Drop => Forward::Drop,
            Peek::Route(name) => match self.lookup(name.as_slice()) {
                Some(i) => Forward::Connect(i),
                None => Forward::Drop,
            },
        }
    }
}

/// Whether two byte strings are the same.
pub fn same_bytes(a: &[u8], b: &[u8]) -> (r: bool)
    ensures
        r == (a@ == b@),
{
    if a.len() != b.len() {
        return false;
    }
    let mut i: usize = 0;
    while i < a.len()
        invariant
            i <= a.len(),
            a.len() == b.len(),
            forall|j: int| 0 <= j < i ==> a@[j] == b@[j],
        decreases a.len() - i,
    {
        if a[i] != b[i] {
            return false;
        }
        i += 1;
    }
    assert(a@ =~= b@);
    true
}

} // verus!
