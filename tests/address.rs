use libscylla::address::{push_decimal, Ipv4Address, SockAddr};

#[test]
fn decimal_text() {
    for (n, t) in [(0u64, "0"), (7, "7"), (10, "10"), (255, "255"), (65535, "65535"), (u64::MAX, "18446744073709551615")] {
        let mut s = String::from("x");
        push_decimal(&mut s, n);
        assert_eq!(s, format!("x{}", t));
    }
}

#[test]
fn dotted_quad_and_socket_text() {
    let ip = Ipv4Address(172, 30, 1, 10);
    assert_eq!(ip.to_text(), "172.30.1.10");
    let s = SockAddr { ip, port: 22 };
    assert_eq!(s.to_text(), "172.30.1.10:22");
    assert_eq!(Ipv4Address(0, 0, 0, 0).to_text(), "0.0.0.0");
}
