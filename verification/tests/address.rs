//! Which of two addresses comes first, and which are one.

use cairn_net::address::{Address, Host};

#[test]
fn addresses_sort_by_host_port_flow_and_scope() {
    let plain = Address::new(Host::V6(9), 4);
    assert_eq!((plain.flow, plain.scope), (0, 0));
    let ordered = [
        Address::new(Host::V4(203, 0, 113, 200), 9_944),
        Address::new(Host::V6(8), 9_944),
        plain,
        Address { scope: 2, ..plain },
        Address { flow: 1, ..plain },
        Address { flow: 1, scope: 1, ..plain },
        Address::new(Host::V6(9), 5),
    ];
    for (at, address) in ordered.iter().enumerate() {
        for (other_at, other) in ordered.iter().enumerate() {
            assert_eq!(address.is_before(*other), at < other_at);
            assert_eq!(address == other, at == other_at);
        }
    }
}

#[test]
fn only_this_machine_is_loopback() {
    assert!(Host::localhost().is_loopback());
    assert!(Host::V4(127, 9, 9, 9).is_loopback());
    assert!(Host::V6(1).is_loopback());
    assert!(!Host::V4(128, 0, 0, 1).is_loopback());
    assert!(!Host::V6(2).is_loopback());
}
