use libscylla::config::{Cfg, CheckSettings, ServiceConfig, ServiceConfigTy, Team, Vm, Web};
use libscylla::store::{setup_rows, SetupRow};

fn svc(id: &str) -> ServiceConfig {
    ServiceConfig { id: id.to_string(), ty: ServiceConfigTy::Tcp { port: 1 } }
}

#[test]
fn setup_inserts_every_team_machine_and_service() {
    let c = Cfg {
        round: "r".to_string(),
        start: 0,
        boxes: vec![
            ("v1".to_string(), Vm { host: 1, services: vec![svc("s1"), svc("s2")] }),
            ("v2".to_string(), Vm { host: 2, services: vec![] }),
        ],
        checks: CheckSettings { interval: 60, jitter: 0, timeout: 5 },
        teams: vec![
            ("t1".to_string(), Team { timeout: 5, subnet: 1, password: "pass-a".to_string() }),
            ("t2".to_string(), Team { timeout: 5, subnet: 2, password: "pass-b".to_string() }),
        ],
        injects: vec![],
        patch_server: String::new(),
        database: String::new(),
        web: Web { port: 80 },
    };
    let rows = setup_rows(&c);
    let text: Vec<String> = rows
        .iter()
        .map(|r| match r {
            SetupRow::Team { team_id, pass } => format!("team {} {}", team_id, pass),
            SetupRow::Vm { vm_id, team_id } => format!("vm {} {}", vm_id, team_id),
            SetupRow::Service { svc_id, vm_id, team_id } => format!("svc {} {} {}", svc_id, vm_id, team_id),
        })
        .collect();
    assert_eq!(
        text,
        vec![
            "team t1 pass-a", "vm v1 t1", "svc s1 v1 t1", "svc s2 v1 t1", "vm v2 t1",
            "team t2 pass-b", "vm v1 t2", "svc s1 v1 t2", "svc s2 v1 t2", "vm v2 t2",
        ]
    );
}
