use crate::config::{Cfg, ServiceConfig, Team, Vm};
use vstd::prelude::*;

verus! {

/// One row that preparing the store inserts.
#[derive(Debug, Clone)]
pub enum SetupRow {
    /// A row of `teams(team_id, pass)`.
    Team { team_id: String, pass: String },
    /// A row of `vms(vm_id, team_id)`.
    Vm { vm_id: String, team_id: String },
    /// A row of `services(svc_id, vm_id, team_id)`, its counters at their defaults.
    Service { svc_id: String, vm_id: String, team_id: String },
}

/// The service rows of one machine for one team.
pub open spec fn service_rows(svcs: Seq<ServiceConfig>, vm_id: String, team_id: String) -> Seq<
    SetupRow,
> {
    svcs.map_values(|s: ServiceConfig| SetupRow::Service { svc_id: s.id, vm_id, team_id })
}

/// The machine rows of one team, each followed by its service rows.
pub open spec fn team_machine_rows(boxes: Seq<(String, Vm)>, team_id: String) -> Seq<SetupRow>
    decreases boxes.len(),
{
    if boxes.len() == 0 {
        Seq::empty()
    } else {
        let vm = boxes.last();
        team_machine_rows(boxes.drop_last(), team_id).push(
            SetupRow::Vm { vm_id: vm.0, team_id },
        ) + service_rows(vm.1.services@, vm.0, team_id)
    }
}

/// Every row of a round: each team, followed by its machines and their services.
pub open spec fn setup_rows_of(teams: Seq<(String, Team)>, boxes: Seq<(String, Vm)>) -> Seq<
    SetupRow,
>
    decreases teams.len(),
{
    if teams.len() == 0 {
        Seq::empty()
    } else {
        let t = teams.last();
        setup_rows_of(teams.drop_last(), boxes).push(
            SetupRow::Team { team_id: t.0, pass: t.1.password },
        ) + team_machine_rows(boxes, t.0)
    }
}

/// The rows to insert into an empty store for the round `cfg`, in order.
pub fn setup_rows(cfg: &Cfg) -> (r: Vec<SetupRow>)
    ensures
        r@ == setup_rows_of(cfg.teams@, cfg.boxes@),
{
    let mut out: Vec<SetupRow> = Vec::new();
    let mut t: usize = 0;
    while t < cfg.teams.len()
        invariant
            0 <= t <= cfg.teams@.len(),
            out@ == setup_rows_of(cfg.teams@.take(t as int), cfg.boxes@),
        decreases cfg.teams@.len() - t,
    {
        assert(cfg.teams@.take(t + 1).drop_last() =~= cfg.teams@.take(t as int));
        let team = &cfg.teams[t];
        out.push(SetupRow::Team { team_id: team.0.clone(), pass: team.1.password.clone() });
        let ghost before = out@;
        let mut b: usize = 0;
        while b < cfg.boxes.len()
            invariant
                0 <= b <= cfg.boxes@.len(),
                out@ == before + team_machine_rows(cfg.boxes@.take(b as int), team.0),
            decreases cfg.boxes@.len() - b,
        {
            assert(cfg.boxes@.take(b + 1).drop_last() =~= cfg.boxes@.take(b as int));
            let vm = &cfg.boxes[b];
            out.push(SetupRow::Vm { vm_id: vm.0.clone(), team_id: team.0.clone() });
            let ghost mid = out@;
            let mut s: usize = 0;
            while s < vm.1.services.len()
                invariant
                    0 <= s <= vm.1.services@.len(),
                    out@ == mid + service_rows(vm.1.services@.take(s as int), vm.0, team.0),
                decreases vm.1.services@.len() - s,
            {
                let row = SetupRow::Service {
                    svc_id: vm.1.services[s].id.clone(),
                    vm_id: vm.0.clone(),
                    team_id: team.0.clone(),
                };
                out.push(row);
                assert(service_rows(vm.1.services@.take(s + 1), vm.0, team.0) =~= service_rows(
                    vm.1.services@.take(s as int),
                    vm.0,
                    team.0,
                ).push(row));
                s += 1;
            }
            assert(vm.1.services@.take(vm.1.services@.len() as int) =~= vm.1.services@);
            b += 1;
        }
        assert(cfg.boxes@.take(cfg.boxes@.len() as int) =~= cfg.boxes@);
        t += 1;
    }
    assert(cfg.teams@.take(cfg.teams@.len() as int) =~= cfg.teams@);
    out
}

} // verus!
