use wanna_cdn::forward::location::{Location, NetLocation};
use wanna_cdn::forward::sni::{parse_client_hello, peek_sni, Peek, Sni, PEEK_BUDGET};
use wanna_cdn::forward::tcp::{TargetData, TargetLocationData};
use wanna_cdn::forward::{parse_route, same_bytes, to_location, Forward, SniMap};

fn extension(kind: u16, data: &[u8]) -> Vec<u8> {
    let mut out = kind.to_be_bytes().to_vec();
    out.extend_from_slice(&(data.len() as u16).to_be_bytes());
    out.extend_from_slice(data);
    out
}

fn server_name(names: &[(u8, &str)]) -> Vec<u8> {
    let mut list = vec![];
    for (kind, name) in names {
        list.push(*kind);
        list.extend_from_slice(&(name.len() as u16).to_be_bytes());
        list.extend_from_slice(name.as_bytes());
    }
    let mut data = (list.len() as u16).to_be_bytes().to_vec();
    data.extend_from_slice(&list);
    extension(0, &data)
}

fn client_hello(extensions: Option<&[u8]>) -> Vec<u8> {
    let mut body = vec![3, 3];
    body.extend_from_slice(&[7u8; 32]);
    body.push(4);
    body.extend_from_slice(&[1, 2, 3, 4]);
    body.extend_from_slice(&[0, 4, 0x13, 0x01, 0x13, 0x02]);
    body.extend_from_slice(&[1, 0]);
    if let Some(ext) = extensions {
        body.extend_from_slice(&(ext.len() as u16).to_be_bytes());
        body.extend_from_slice(ext);
    }
    let mut handshake = vec![1];
    handshake.extend_from_slice(&(body.len() as u32).to_be_bytes()[1..]);
    handshake.extend_from_slice(&body);
    let mut record = vec![22, 3, 1];
    record.extend_from_slice(&(handshake.len() as u16).to_be_bytes());
    record.extend_from_slice(&handshake);
    record
}

fn hello_for(host: &str) -> Vec<u8> {
    let mut ext = extension(0x000a, &[0, 2, 0, 0x1d]);
    ext.extend_from_slice(&server_name(&[(0, host)]));
    ext.extend_from_slice(&extension(0x0010, &[0, 3, 2, b'h', b'2']));
    client_hello(Some(&ext))
}

#[test]
fn server_name_is_read() {
    let hello = hello_for("api.udon.dance");
    assert_eq!(parse_client_hello(&hello), Sni::Name(b"api.udon.dance".to_vec()));
    let mut followed = hello.clone();
    followed.extend_from_slice(b"arbitrary bytes");
    assert_eq!(parse_client_hello(&followed), Sni::Name(b"api.udon.dance".to_vec()));
}

#[test]
fn first_host_name_is_taken() {
    let ext = server_name(&[(1, "other"), (0, "a.example"), (0, "b.example")]);
    assert_eq!(parse_client_hello(&client_hello(Some(&ext))), Sni::Name(b"a.example".to_vec()));
}

#[test]
fn every_prefix_is_incomplete() {
    let hello = hello_for("api.udon.dance");
    for n in 0..hello.len() {
        assert_eq!(parse_client_hello(&hello[..n]), Sni::Incomplete, "prefix of {}", n);
        assert_eq!(peek_sni(&hello[..n]), Peek::NeedMore);
    }
}

#[test]
fn hello_without_server_name() {
    assert_eq!(parse_client_hello(&client_hello(None)), Sni::Absent);
    let ext = extension(0x000a, &[0, 2, 0, 0x1d]);
    assert_eq!(parse_client_hello(&client_hello(Some(&ext))), Sni::Absent);
    assert_eq!(peek_sni(&client_hello(Some(&ext))), Peek::Drop);
}

#[test]
fn garbage_is_invalid() {
    assert_eq!(parse_client_hello(b"GET / HTTP/1.1\r\n\r\n"), Sni::Invalid);
    assert_eq!(parse_client_hello(&[22, 2]), Sni::Invalid);
    assert_eq!(parse_client_hello(&[23, 3, 3, 0, 1, 0]), Sni::Invalid);
    let mut not_hello = hello_for("api.udon.dance");
    not_hello[5] = 2;
    assert_eq!(parse_client_hello(&not_hello), Sni::Invalid);
    let mut truncated_list = client_hello(Some(&extension(0, &[0, 9, 0, 0, 20, b'a'])));
    assert_eq!(parse_client_hello(&truncated_list), Sni::Invalid);
    truncated_list.push(0);
    assert_eq!(parse_client_hello(&truncated_list), Sni::Invalid);
    assert_eq!(peek_sni(b"GET / HTTP/1.1\r\n\r\n"), Peek::Drop);
}

#[test]
fn budget_bounds_the_wait() {
    assert_eq!(PEEK_BUDGET, 8192);
    let mut long = vec![22, 3, 1, 0xff, 0xff];
    long.extend_from_slice(&vec![0u8; PEEK_BUDGET - 6]);
    assert_eq!(peek_sni(&long), Peek::NeedMore);
    long.push(0);
    assert_eq!(parse_client_hello(&long), Sni::Incomplete);
    assert_eq!(peek_sni(&long), Peek::Drop);
}

#[test]
fn locations() {
    assert_eq!(
        NetLocation::parse("ud-orig.kiva.moe:443"),
        Some(NetLocation { address: "ud-orig.kiva.moe".to_string(), port: 443 })
    );
    assert_eq!(
        NetLocation::parse("::1:8443"),
        Some(NetLocation { address: "::1".to_string(), port: 8443 })
    );
    assert_eq!(NetLocation::parse("host"), None);
    assert_eq!(NetLocation::parse(":443"), None);
    assert_eq!(NetLocation::parse("host:"), None);
    assert_eq!(NetLocation::parse("host:65536"), None);
    assert_eq!(NetLocation::parse("host:http"), None);
    let (location, target) = to_location(&"203.0.113.7:443".to_string());
    let wanted = Location::Address(NetLocation { address: "203.0.113.7".to_string(), port: 443 });
    assert_eq!(location, wanted);
    assert_eq!(target.location_data.len(), 1);
    assert_eq!(target.location_data[0].location, wanted);
    assert_eq!(target.next_address_index, 0);
    assert!(!target.tcp_nodelay);
}

#[test]
fn route_definitions() {
    assert_eq!(
        parse_route("api.udon.dance=ud-orig.kiva.moe:443"),
        Some(("api.udon.dance".to_string(), "ud-orig.kiva.moe:443".to_string()))
    );
    assert_eq!(parse_route("a=b=c"), Some(("a".to_string(), "b=c".to_string())));
    assert_eq!(parse_route("no-target"), None);
}

fn map() -> SniMap {
    let mut map = SniMap::new();
    assert!(map.insert("api.udon.dance".to_string(), "203.0.113.7:443".to_string()));
    assert!(map.insert("play.udon.dance".to_string(), "203.0.113.8:443".to_string()));
    map
}

#[test]
fn routes_are_found_by_host() {
    let map = map();
    assert_eq!(map.lookup(b"api.udon.dance"), Some(0));
    assert_eq!(map.lookup(b"play.udon.dance"), Some(1));
    assert_eq!(map.lookup(b"Api.udon.dance"), None);
    assert_eq!(map.position(&"play.udon.dance".to_string()), Some(1));
    assert_eq!(map.route(&hello_for("play.udon.dance")), Forward::Connect(1));
    assert_eq!(map.route(&hello_for("unknown.example")), Forward::Drop);
    assert_eq!(map.route(&hello_for("api.udon.dance")[..20]), Forward::NeedMore);
    assert_eq!(map.route(b"\x16\x03\x01\x00"), Forward::NeedMore);
    assert_eq!(map.route(b"SSH-2.0"), Forward::Drop);
}

#[test]
fn inserting_a_host_again_replaces_its_route() {
    let mut map = map();
    assert!(map.insert("api.udon.dance".to_string(), "198.51.100.1:8443".to_string()));
    assert_eq!(map.host_mappings.len(), 2);
    assert_eq!(map.host_mappings[0].forward_target, "198.51.100.1:8443");
    let backend = &map.host_mappings[0].target;
    assert_eq!(backend.location_data.len(), 1);
    assert_eq!(
        backend.location_data[0].location,
        Location::Address(NetLocation { address: "198.51.100.1".to_string(), port: 8443 })
    );
    assert_eq!(backend.next_address_index, 0);
    assert!(!backend.tcp_nodelay);
    assert_eq!(
        map.host_mappings[1].target.location_data[0].location,
        Location::Address(NetLocation { address: "203.0.113.8".to_string(), port: 443 })
    );
    assert!(!map.insert("bad.example".to_string(), "nowhere".to_string()));
    assert_eq!(map.host_mappings.len(), 2);
}

#[test]
fn backends_are_taken_in_turn() {
    let one = |port| TargetLocationData {
        location: Location::Address(NetLocation { address: "h".to_string(), port }),
    };
    let mut target =
        TargetData { location_data: vec![one(1), one(2), one(3)], next_address_index: 0, tcp_nodelay: true };
    let picks: Vec<usize> = (0..7).map(|_| target.next_location()).collect();
    assert_eq!(picks, vec![0, 1, 2, 0, 1, 2, 0]);
    assert_eq!(target.next_address_index, 7);
    target.next_address_index = usize::MAX;
    assert_eq!(target.next_location(), usize::MAX % 3);
    assert_eq!(target.next_address_index, 0);
    let mut single = TargetData { location_data: vec![one(1)], next_address_index: 5, tcp_nodelay: false };
    assert_eq!(single.next_location(), 0);
    assert_eq!(single.next_address_index, 5);
}

#[test]
fn bytes_compare() {
    assert!(same_bytes(b"abc", b"abc"));
    assert!(!same_bytes(b"abc", b"abd"));
    assert!(!same_bytes(b"abc", b"ab"));
}
