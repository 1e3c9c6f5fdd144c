use pulsar_proto::{DeviceId, RelayMsg, SocketAddr};

fn v4(ip: [u8; 4], port: u16) -> SocketAddr {
    SocketAddr::V4 { ip, port }
}

/// An IPv6 address from its segments.
fn v6(segments: [u16; 8], port: u16, scope_id: u32) -> SocketAddr {
    let mut ip = [0u8; 16];
    for i in 0..8 {
        ip[2 * i] = (segments[i] >> 8) as u8;
        ip[2 * i + 1] = segments[i] as u8;
    }
    SocketAddr::V6 { ip, port, flowinfo: 9, scope_id }
}

fn shown(segments: [u16; 8]) -> String {
    v6(segments, 443, 0).debug_text()
}

#[test]
fn ipv4_addresses_are_shown_with_dots() {
    assert_eq!(v4([203, 0, 113, 5], 51820).debug_text(), "203.0.113.5:51820");
    assert_eq!(v4([0, 0, 0, 0], 0).debug_text(), "0.0.0.0:0");
    assert_eq!(v4([255, 255, 255, 255], 65535).debug_text(), "255.255.255.255:65535");
    assert_eq!(format!("{:?}", v4([127, 0, 0, 1], 8080)), "127.0.0.1:8080");
}

#[test]
fn ipv6_addresses_are_shown_in_brackets() {
    assert_eq!(shown([0x2001, 0xdb8, 1, 2, 3, 4, 5, 0xffff]), "[2001:db8:1:2:3:4:5:ffff]:443");
    assert_eq!(shown([0x20, 0, 2, 0, 4, 0, 6, 0]), "[20:0:2:0:4:0:6:0]:443");
    assert_eq!(
        format!("{:?}", v6([0x2001, 0xdb8, 0, 0, 0, 0, 0, 1], 0, 0)),
        "[2001:db8::1]:0"
    );
}

#[test]
fn the_first_longest_run_of_zeros_is_left_out() {
    assert_eq!(shown([0; 8]), "[::]:443");
    assert_eq!(shown([0, 0, 0, 0, 0, 0, 0, 1]), "[::1]:443");
    assert_eq!(shown([0xfe80, 0, 0, 0, 0, 0, 0, 0]), "[fe80::]:443");
    assert_eq!(shown([1, 0, 0, 2, 0, 0, 0, 3]), "[1:0:0:2::3]:443");
    assert_eq!(shown([1, 0, 0, 2, 3, 0, 0, 4]), "[1::2:3:0:0:4]:443");
    assert_eq!(shown([0, 0, 1, 2, 3, 4, 0, 0]), "[::1:2:3:4:0:0]:443");
    assert_eq!(shown([0, 1, 2, 3, 4, 5, 6, 0]), "[0:1:2:3:4:5:6:0]:443");
}

#[test]
fn an_ipv4_address_inside_is_shown_with_dots() {
    assert_eq!(shown([0, 0, 0, 0, 0, 0xffff, 0xc000, 0x0280]), "[::ffff:192.0.2.128]:443");
    assert_eq!(shown([0, 0, 0, 0, 0, 0xfffe, 0xc000, 0x0280]), "[::fffe:c000:280]:443");
    assert_eq!(shown([0, 0, 0, 0, 0, 0, 0xc000, 0x0280]), "[::c000:280]:443");
    assert_eq!(shown([0, 0, 0, 0, 1, 0xffff, 0xc000, 0x0280]), "[::1:ffff:c000:280]:443");
}

#[test]
fn a_scope_is_shown_behind_the_address() {
    assert_eq!(v6([0xfe80, 0, 0, 0, 0, 0, 0, 1], 443, 2).debug_text(), "[fe80::1%2]:443");
    assert_eq!(
        v6([0, 0, 0, 0, 0, 0xffff, 0x7f00, 1], 1, u32::MAX).debug_text(),
        "[::ffff:127.0.0.1%4294967295]:1"
    );
}

#[test]
fn addresses_are_padded_and_cut_as_asked() {
    let addr = v4([10, 0, 0, 1], 80);
    assert_eq!(format!("{:14?}|", addr), "10.0.0.1:80   |");
    assert_eq!(format!("{:>14?}|", addr), "   10.0.0.1:80|");
    assert_eq!(format!("{:*^13?}", addr), "*10.0.0.1:80*");
    assert_eq!(format!("{:4?}", addr), "10.0.0.1:80");
    assert_eq!(format!("{:.4?}", addr), "10.0");
    assert_eq!(format!("{:6.4?}|", addr), "10.0  |");
}

#[test]
fn messages_show_their_addresses() {
    let msg = RelayMsg::Incoming {
        from: DeviceId(482_913_056),
        from_addr: v4([203, 0, 113, 5], 51820),
        session: 7,
        hello: vec![4, 5],
    };
    assert_eq!(
        format!("{:?}", msg),
        "Incoming { from: DeviceId(482 913 056), from_addr: 203.0.113.5:51820, session: 7, hello: [4, 5] }"
    );
}
