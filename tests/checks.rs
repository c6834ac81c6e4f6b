use libscylla::address::{Ipv4Address, Ipv6Address, SockAddr};
use libscylla::checks::{
    get_sock_addr, poll_message, ChanMsg, DnsAnswer, DnsCheck, HttpCheck, ProbeOutcome, RecordKind,
    Service, SharedService, SvcMeta,
};
use libscylla::config::{DnsRecord, HttpMethod, ServiceConfig, ServiceConfigTy, Team, Vm};

fn team(subnet: u8) -> Team {
    Team { timeout: 5, subnet, password: "pw".to_string() }
}

fn vm(host: u8) -> Vm {
    Vm { host, services: vec![] }
}

fn meta() -> SvcMeta {
    SvcMeta { team_id: "a".to_string(), vm_id: "box1".to_string(), svc_id: "ssh".to_string() }
}

fn http(hash: Option<&str>) -> HttpCheck {
    HttpCheck {
        remote: SockAddr { ip: Ipv4Address(172, 30, 1, 10), port: 80 },
        method: reqwest::Method::GET,
        ssl: false,
        content_hash: hash.map(|h| h.to_string()),
    }
}

#[test]
fn sock_addr_joins_prefix_subnet_and_host() {
    let a = get_sock_addr(&team(1), &vm(10), 22);
    assert_eq!(a, SockAddr { ip: Ipv4Address(172, 30, 1, 10), port: 22 });
}

#[test]
fn tcp_service_record() {
    let svc = ServiceConfig { id: "ssh".to_string(), ty: ServiceConfigTy::Tcp { port: 22 } };
    let r = SharedService::from_config(&svc, (&"a".to_string(), &team(1)), (&"box1".to_string(), &vm(10)));
    match r.inner {
        Service::Tcp(t) => assert_eq!(t.remote.to_text(), "172.30.1.10:22"),
        _ => panic!("expected a TCP probe"),
    }
    assert_eq!(r.meta.team_id, "a");
    assert_eq!(r.meta.vm_id, "box1");
    assert_eq!(r.meta.svc_id, "ssh");
}

#[test]
fn ssh_defaults_to_port_22_as_tcp() {
    let svc = ServiceConfig { id: "s".to_string(), ty: ServiceConfigTy::Ssh { port: None } };
    let r = SharedService::from_config(&svc, (&"a".to_string(), &team(2)), (&"b".to_string(), &vm(3)));
    match r.inner {
        Service::Tcp(t) => assert_eq!(t.remote, SockAddr { ip: Ipv4Address(172, 30, 2, 3), port: 22 }),
        _ => panic!("expected a TCP probe"),
    }
    let svc = ServiceConfig { id: "s".to_string(), ty: ServiceConfigTy::Ssh { port: Some(2222) } };
    let r = SharedService::from_config(&svc, (&"a".to_string(), &team(2)), (&"b".to_string(), &vm(3)));
    match r.inner {
        Service::Tcp(t) => assert_eq!(t.remote.port, 2222),
        _ => panic!("expected a TCP probe"),
    }
}

#[test]
fn udp_binds_on_all_interfaces() {
    let svc = ServiceConfig { id: "u".to_string(), ty: ServiceConfigTy::Udp { port: 53, bind_port: 5353 } };
    let r = SharedService::from_config(&svc, (&"a".to_string(), &team(4)), (&"b".to_string(), &vm(5)));
    match r.inner {
        Service::Udp(u) => {
            assert_eq!(u.remote, SockAddr { ip: Ipv4Address(172, 30, 4, 5), port: 53 });
            assert_eq!(u.socket_addr, SockAddr { ip: Ipv4Address(0, 0, 0, 0), port: 5353 });
        }
        _ => panic!("expected a UDP probe"),
    }
}

#[test]
fn http_defaults_to_port_80_without_ssl() {
    let method = HttpMethod::from_name("POST").unwrap();
    let svc = ServiceConfig {
        id: "web".to_string(),
        ty: ServiceConfigTy::Http { port: None, method, content_hash: Some("abc".to_string()) },
    };
    let r = SharedService::from_config(&svc, (&"a".to_string(), &team(1)), (&"box1".to_string(), &vm(10)));
    match r.inner {
        Service::Http(h) => {
            assert_eq!(h.remote.port, 80);
            assert!(!h.ssl);
            assert_eq!(h.method, reqwest::Method::POST);
            assert_eq!(h.content_hash.as_deref(), Some("abc"));
            assert_eq!(h.url(), "http://172.30.1.10:80/");
        }
        _ => panic!("expected an HTTP probe"),
    }
}

#[test]
fn dns_record_keeps_resolver() {
    let rec = DnsRecord::A { addr: Ipv4Address(10, 0, 0, 1) };
    let svc = ServiceConfig {
        id: "dns".to_string(),
        ty: ServiceConfigTy::Dns { resolver: Ipv4Address(172, 30, 1, 53), record: rec },
    };
    let r = SharedService::from_config(&svc, (&"a".to_string(), &team(1)), (&"box1".to_string(), &vm(10)));
    match r.inner {
        Service::Dns(d) => {
            assert_eq!(d.name, Ipv4Address(172, 30, 1, 53));
            assert_eq!(d.record, rec);
        }
        _ => panic!("expected a DNS probe"),
    }
}

#[test]
fn https_url() {
    let mut h = http(None);
    h.ssl = true;
    h.remote.port = 8443;
    assert_eq!(h.url(), "https://172.30.1.10:8443/");
}

#[test]
fn http_content_hash_of_hello() {
    let h = http(Some("5d41402abc4b2a76b9719d911017c592"));
    assert!(h.body_ok(b"hello"));
    assert!(!h.body_ok(b"hellx"));
    assert!(!h.body_ok(b""));
}

#[test]
fn http_without_hash_accepts_any_body() {
    let h = http(None);
    assert!(h.body_ok(b"anything"));
    assert!(h.digest_ok(&"whatever".to_string()));
}

#[test]
fn http_digest_compared_exactly() {
    let h = http(Some("5d41402abc4b2a76b9719d911017c592"));
    assert!(h.digest_ok(&"5d41402abc4b2a76b9719d911017c592".to_string()));
    assert!(!h.digest_ok(&"5d41402abc4b2a76b9719d911017c593".to_string()));
    assert!(!h.digest_ok(&"5D41402ABC4B2A76B9719D911017C592".to_string()));
}

#[test]
fn dns_expected_record_among_several() {
    let d = DnsCheck { name: Ipv4Address(1, 1, 1, 1), record: DnsRecord::A { addr: Ipv4Address(10, 0, 0, 1) } };
    let answers = vec![
        DnsAnswer::Other,
        DnsAnswer::A(Ipv4Address(10, 0, 0, 2)),
        DnsAnswer::A(Ipv4Address(10, 0, 0, 1)),
    ];
    assert!(d.answers_ok(&answers));
    assert_eq!(d.query_kind(), RecordKind::A);
}

#[test]
fn dns_no_matching_record() {
    let d = DnsCheck { name: Ipv4Address(1, 1, 1, 1), record: DnsRecord::A { addr: Ipv4Address(10, 0, 0, 1) } };
    assert!(!d.answers_ok(&vec![]));
    assert!(!d.answers_ok(&vec![DnsAnswer::A(Ipv4Address(10, 0, 0, 2)), DnsAnswer::Other]));
}

#[test]
fn dns_aaaa_record() {
    let addr = Ipv6Address(0x2001_0db8_0000_0000_0000_0000_0000_0001);
    let d = DnsCheck { name: Ipv4Address(1, 1, 1, 1), record: DnsRecord::AAAA { addr } };
    assert_eq!(d.query_kind(), RecordKind::AAAA);
    assert!(d.answers_ok(&vec![DnsAnswer::AAAA(addr)]));
    assert!(!d.answers_ok(&vec![DnsAnswer::A(Ipv4Address(10, 0, 0, 1)), DnsAnswer::AAAA(Ipv6Address(1))]));
}

#[test]
fn probe_outcome_messages() {
    match poll_message(ProbeOutcome::Up, meta()) {
        ChanMsg::Uptime(m) => assert_eq!(m.svc_id, "ssh"),
        _ => panic!("expected an uptime"),
    }
    for o in [ProbeOutcome::Failed, ProbeOutcome::TimedOut] {
        let msg = poll_message(o, meta());
        assert!(matches!(msg, ChanMsg::Error(_)));
        assert_eq!(msg.meta().team_id, "a");
    }
}
