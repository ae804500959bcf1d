use std::cmp::Ordering;

use tarantool_tcp::addr::{
    sort_addrs, to_network_order, AddrInfo, SockAddr, SockAddrIn, SockAddrIn6,
};
use tarantool_tcp::error::{Error, ErrorKind, NulError};
use tarantool_tcp::platform::{Os, Platform};
use tarantool_tcp::resolve::{
    addr_layout, lookup_request, resolve_addr, AddrEntry, AddrLayout, EntryAddr, Hints,
    LookupError,
};
use tarantool_tcp::text::{c_string, format_decimal, format_host_port};

fn platform() -> Platform {
    Platform::new(Os::Linux {
        sock_cloexec: libc::SOCK_CLOEXEC,
        sock_nonblock: libc::SOCK_NONBLOCK,
    })
}

fn v4(last: u8) -> SockAddrIn {
    SockAddrIn {
        sin_family: 2,
        sin_port: [0, 0],
        sin_addr: [127, 0, 0, last],
        sin_zero: [0; 8],
    }
}

fn v6(scope: u32) -> SockAddrIn6 {
    SockAddrIn6 {
        sin6_family: 10,
        sin6_port: [9, 9],
        sin6_flowinfo: 7,
        sin6_addr: [1; 16],
        sin6_scope_id: scope,
    }
}

fn entry4(last: u8) -> AddrEntry {
    AddrEntry { family: libc::AF_INET, addr: EntryAddr::In(v4(last)) }
}

fn entry6(scope: u32) -> AddrEntry {
    AddrEntry { family: libc::AF_INET6, addr: EntryAddr::In6(v6(scope)) }
}

fn show<T: std::fmt::Debug>(value: &T) -> String {
    format!("{:?}", value)
}

#[test]
fn decimal_numbers() {
    assert_eq!(format_decimal(0), "0");
    assert_eq!(format_decimal(9), "9");
    assert_eq!(format_decimal(10), "10");
    assert_eq!(format_decimal(305), "305");
    assert_eq!(format_decimal(65535), "65535");
}

#[test]
fn host_and_port() {
    assert_eq!(format_host_port("localhost", 18899), "localhost:18899");
    assert_eq!(format_host_port("", 0), ":0");
}

#[test]
fn c_strings() {
    assert_eq!(c_string("ab"), Ok(vec![97, 98]));
    assert_eq!(c_string(""), Ok(vec![]));
    assert_eq!(c_string("é"), Ok(vec![0xc3, 0xa9]));
    assert_eq!(
        c_string("é\0b\0"),
        Err(NulError { position: 2, bytes: vec![0xc3, 0xa9, 0, 98, 0] })
    );
}

#[test]
fn platform_numbers() {
    let p = platform();
    assert_eq!(p.af_unspec, libc::AF_UNSPEC);
    assert_eq!(p.af_inet, libc::AF_INET);
    assert_eq!(p.af_inet6, libc::AF_INET6);
    assert_eq!(p.sock_stream, libc::SOCK_STREAM);
    assert_eq!(p.sol_socket, libc::SOL_SOCKET);
    assert_eq!(p.so_reuseaddr, libc::SO_REUSEADDR);
    assert_eq!(p.so_error, libc::SO_ERROR);
    assert_eq!(p.somaxconn, libc::SOMAXCONN);
    assert_eq!(p.einprogress, libc::EINPROGRESS);
    assert_eq!(p.sockaddr_in_len, 16);
    assert_eq!(p.sockaddr_in6_len, 28);
    assert_eq!(p.af_inet, 2);
    assert_eq!(p.af_inet6, 10);
}

#[test]
fn network_order() {
    assert_eq!(to_network_order(0x1234), [0x12, 0x34]);
    assert_eq!(to_network_order(80), [0, 80]);
    assert_eq!(to_network_order(65535), [255, 255]);
    assert_eq!(u16::from_ne_bytes(to_network_order(18899)), 18899u16.to_be());
}

#[test]
fn addresses_compare_by_kind() {
    let a = SockAddr::V4(v4(1));
    let b = SockAddr::V4(v4(2));
    let c = SockAddr::V6(v6(1));
    assert_eq!(a.cmp(&b), Ordering::Equal);
    assert_eq!(a.cmp(&c), Ordering::Less);
    assert_eq!(c.cmp(&a), Ordering::Greater);
    assert_eq!(c.partial_cmp(&a), Some(Ordering::Greater));
    assert!(a == b);
    assert!(a != c);
    assert!(a < c);
}

#[test]
fn sorting_is_stable() {
    let addrs = vec![
        SockAddr::V6(v6(1)),
        SockAddr::V4(v4(2)),
        SockAddr::V6(v6(3)),
        SockAddr::V4(v4(1)),
        SockAddr::V4(v4(2)),
    ];
    let expected = vec![
        SockAddr::V4(v4(2)),
        SockAddr::V4(v4(1)),
        SockAddr::V4(v4(2)),
        SockAddr::V6(v6(1)),
        SockAddr::V6(v6(3)),
    ];
    assert_eq!(show(&sort_addrs(&addrs)), show(&expected));
    assert_eq!(show(&sort_addrs(&vec![])), "[]");
}

#[test]
fn addresses_are_described() {
    let p = platform();
    let a = SockAddr::V4(v4(1));
    let info = AddrInfo::from(&a, &p);
    assert_eq!(info.kind, libc::AF_INET);
    assert_eq!(info.addr_len, 16);
    assert_eq!(show(info.addr), show(&a));
    assert_eq!(addr_layout(info.kind, &p), AddrLayout::In);
    let b = SockAddr::V6(v6(1));
    let info = AddrInfo::from(&b, &p);
    assert_eq!(info.kind, libc::AF_INET6);
    assert_eq!(info.addr_len, 28);
    assert_eq!(addr_layout(info.kind, &p), AddrLayout::In6);
    assert_eq!(addr_layout(libc::AF_UNIX, &p), AddrLayout::Unknown);
}

#[test]
fn lookup_requests() {
    let p = platform();
    let request = lookup_request("localhost", &p).unwrap();
    assert_eq!(request.host, b"localhost".to_vec());
    assert_eq!(
        request.hints,
        Hints { ai_family: libc::AF_UNSPEC, ai_socktype: libc::SOCK_STREAM }
    );
    assert_eq!(
        lookup_request("a\0b", &p),
        Err(Error::ConstructCString(NulError { position: 1, bytes: vec![97, 0, 98] }))
    );
}

#[test]
fn resolving_sets_the_port_and_sorts() {
    let p = platform();
    let found = Ok(vec![entry6(1), entry4(1), entry6(2), entry4(2)]);
    let addrs = resolve_addr("localhost", 18899, &found, &p).unwrap();
    let expected = vec![
        SockAddr::V4(SockAddrIn { sin_port: [0x49, 0xd3], ..v4(1) }),
        SockAddr::V4(SockAddrIn { sin_port: [0x49, 0xd3], ..v4(2) }),
        SockAddr::V6(SockAddrIn6 { sin6_port: [0x49, 0xd3], ..v6(1) }),
        SockAddr::V6(SockAddrIn6 { sin6_port: [0x49, 0xd3], ..v6(2) }),
    ];
    assert_eq!(show(&addrs), show(&expected));
    assert_eq!(resolve_addr("localhost", 1, &Ok(vec![]), &p), Ok(vec![]));
}

#[test]
fn resolving_fails() {
    let p = platform();
    let timeout = Err(LookupError::Io(ErrorKind::TimedOut));
    assert_eq!(resolve_addr("h", 1, &timeout, &p), Err(Error::Timeout));
    let timeout = Err(LookupError::Tarantool { error_type: Some("TimedOut".to_string()) });
    assert_eq!(resolve_addr("h", 1, &timeout, &p), Err(Error::Timeout));
    let failures = vec![
        LookupError::Io(ErrorKind::WouldBlock),
        LookupError::Io(ErrorKind::Other),
        LookupError::Tarantool { error_type: None },
        LookupError::Tarantool { error_type: Some("timedout".to_string()) },
        LookupError::Other,
    ];
    for failure in failures {
        assert_eq!(
            resolve_addr("h", 1, &Err(failure), &p),
            Err(Error::ResolveAddress("h".to_string()))
        );
    }
    assert_eq!(
        resolve_addr("\0", 1, &Ok(vec![entry4(1)]), &p),
        Err(Error::ConstructCString(NulError { position: 0, bytes: vec![0] }))
    );
}

#[test]
fn unknown_families_spoil_the_list() {
    let p = platform();
    let unknown = |family: i32| AddrEntry { family, addr: EntryAddr::Unread };
    let found = Ok(vec![entry4(1), unknown(libc::AF_UNIX), unknown(77)]);
    assert_eq!(resolve_addr("h", 1, &found, &p), Err(Error::UnknownAddressFamily(1)));
    let found = Ok(vec![unknown(-1)]);
    assert_eq!(resolve_addr("h", 1, &found, &p), Err(Error::UnknownAddressFamily(65535)));
    let found = Ok(vec![unknown(0x1_0002)]);
    assert_eq!(resolve_addr("h", 1, &found, &p), Err(Error::UnknownAddressFamily(2)));
}
