use libscylla::checks::{Service, SharedService};
use libscylla::config::{
    Cfg, CheckSettings, ConfigError, HttpMethod, Inject, InjectMeta, ServiceConfig, ServiceConfigTy,
    Team, Vm, Web,
};
use libscylla::injects::ProbeSet;

fn team(subnet: u8) -> Team {
    Team { timeout: 5, subnet, password: format!("pw{}", subnet) }
}

fn tcp(id: &str, port: u16) -> ServiceConfig {
    ServiceConfig { id: id.to_string(), ty: ServiceConfigTy::Tcp { port } }
}

fn web_svc() -> ServiceConfig {
    ServiceConfig {
        id: "web".to_string(),
        ty: ServiceConfigTy::Http { port: Some(80), method: HttpMethod::from_name("GET").unwrap(), content_hash: None },
    }
}

fn cfg(injects: Vec<Inject>) -> Cfg {
    Cfg {
        round: "qualifier".to_string(),
        start: 1_600_000_000,
        boxes: vec![
            ("box1".to_string(), Vm { host: 10, services: vec![tcp("ssh", 22)] }),
            ("box2".to_string(), Vm { host: 20, services: vec![tcp("ftp", 21), tcp("smtp", 25)] }),
        ],
        checks: CheckSettings { interval: 60, jitter: 0, timeout: 5 },
        teams: vec![("a".to_string(), team(1)), ("b".to_string(), team(2))],
        injects,
        patch_server: "patches".to_string(),
        database: "postgres://localhost/scylla".to_string(),
        web: Web { port: 8000 },
    }
}

fn inject(offset: usize, duration: usize, vm: &str) -> Inject {
    Inject {
        offset,
        duration,
        new_services: vec![(vm.to_string(), vec![web_svc()])],
        meta: InjectMeta { title: "New web".to_string(), description: "Serve a page".to_string() },
    }
}

fn ids(s: &SharedService) -> (String, String, String) {
    (s.meta.team_id.clone(), s.meta.vm_id.clone(), s.meta.svc_id.clone())
}

fn triple(t: &str, v: &str, s: &str) -> (String, String, String) {
    (t.to_string(), v.to_string(), s.to_string())
}

#[test]
fn initial_probe_set_is_the_cross_product() {
    let set = cfg(vec![]).set_services();
    let got: Vec<_> = set.services.iter().map(ids).collect();
    assert_eq!(
        got,
        vec![
            triple("a", "box1", "ssh"),
            triple("b", "box1", "ssh"),
            triple("a", "box2", "ftp"),
            triple("a", "box2", "smtp"),
            triple("b", "box2", "ftp"),
            triple("b", "box2", "smtp"),
        ]
    );
    match &set.services[4].inner {
        Service::Tcp(t) => assert_eq!(t.remote.to_text(), "172.30.2.20:21"),
        _ => panic!("expected a TCP probe"),
    }
}

#[test]
fn inject_activation_includes_duration() {
    let i = inject(1, 1, "box1");
    let t0 = 1_600_000_000i64;
    assert_eq!(i.activation(t0), (t0 + 120) as i128);
    assert_eq!(i.wait_secs(t0, t0), 120);
    assert_eq!(i.wait_secs(t0, t0 + 119), 1);
    assert_eq!(i.wait_secs(t0, t0 + 120), 0);
    assert_eq!(i.wait_secs(t0, t0 + 5000), 0);
    let j = inject(3, 0, "box1");
    assert_eq!(j.wait_secs(t0, t0), 180);
}

#[test]
fn inject_start_is_its_offset() {
    let i = inject(1, 1, "box1");
    let t0 = 1_600_000_000i64;
    assert!(!i.has_started(t0, t0 + 60));
    assert!(i.has_started(t0, t0 + 61));
}

#[test]
fn inject_activation_adds_service_for_every_team() {
    let c = cfg(vec![inject(1, 1, "box1")]);
    let mut set = c.set_services();
    let before = set.services.len();
    assert_eq!(set.add_inject(&c, &c.injects[0]), Ok(()));
    assert_eq!(set.services.len(), before + 2);
    let added: Vec<_> = set.services[before..].iter().map(ids).collect();
    assert_eq!(added, vec![triple("a", "box1", "web"), triple("b", "box1", "web")]);
    match &set.services[before + 1].inner {
        Service::Http(h) => assert_eq!(h.url(), "http://172.30.2.10:80/"),
        _ => panic!("expected an HTTP probe"),
    }
}

#[test]
fn inject_on_unknown_machine_changes_nothing() {
    let c = cfg(vec![inject(0, 0, "box9")]);
    let mut set = c.set_services();
    let before: Vec<_> = set.services.iter().map(ids).collect();
    assert_eq!(
        set.add_inject(&c, &c.injects[0]),
        Err(ConfigError::UnknownMachine { vm_id: "box9".to_string() })
    );
    let after: Vec<_> = set.services.iter().map(ids).collect();
    assert_eq!(before, after);
}

#[test]
fn append_keeps_existing_records() {
    let c = cfg(vec![]);
    let mut set = ProbeSet { services: vec![] };
    let all = c.set_services().services;
    set.append(all.clone());
    set.append(all);
    assert_eq!(set.services.len(), 12);
    assert_eq!(ids(&set.services[6]), triple("a", "box1", "ssh"));
}
