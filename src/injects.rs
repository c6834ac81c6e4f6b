use crate::checks::{record_of, SharedService};
use crate::config::{Cfg, ConfigError, Inject, ServiceConfig, Team, Vm};
use vstd::prelude::*;

verus! {

/// The records of `svcs` on machine `vm` for one team, in order.
pub open spec fn svc_records(svcs: Seq<ServiceConfig>, team: (String, Team), vm: (String, Vm)) -> Seq<
    SharedService,
> {
    svcs.map_values(|s: ServiceConfig| record_of(s, team.0, team.1, vm.0, vm.1))
}

/// The records of machine `vm` for every team: team by team, each team's
/// services in the machine's order.
pub open spec fn vm_records(teams: Seq<(String, Team)>, vm: (String, Vm)) -> Seq<SharedService>
    decreases teams.len(),
{
    if teams.len() == 0 {
        Seq::empty()
    } else {
        vm_records(teams.drop_last(), vm) + svc_records(vm.1.services@, teams.last(), vm)
    }
}

/// The records that a round starts with: machine by machine.
pub open spec fn round_records(boxes: Seq<(String, Vm)>, teams: Seq<(String, Team)>) -> Seq<
    SharedService,
>
    decreases boxes.len(),
{
    if boxes.len() == 0 {
        Seq::empty()
    } else {
        round_records(boxes.drop_last(), teams) + vm_records(teams, boxes.last())
    }
}

/// The records of one service on machine `vm` for every team.
pub open spec fn team_records(teams: Seq<(String, Team)>, svc: ServiceConfig, vm: (String, Vm)) -> Seq<
    SharedService,
> {
    teams.map_values(|t: (String, Team)| record_of(svc, t.0, t.1, vm.0, vm.1))
}

/// The records that services `svcs` added to machine `vm` give: service by
/// service, each for every team.
pub open spec fn added_records(svcs: Seq<ServiceConfig>, teams: Seq<(String, Team)>, vm: (String, Vm)) -> Seq<
    SharedService,
>
    decreases svcs.len(),
{
    if svcs.len() == 0 {
        Seq::empty()
    } else {
        added_records(svcs.drop_last(), teams, vm) + team_records(teams, svcs.last(), vm)
    }
}

/// The first machine with id `id`.
pub open spec fn lookup_vm(boxes: Seq<(String, Vm)>, id: Seq<char>) -> Option<Vm>
    decreases boxes.len(),
{
    if boxes.len() == 0 {
        None
    } else if boxes[0].0@ == id {
        Some(boxes[0].1)
    } else {
        lookup_vm(boxes.drop_first(), id)
    }
}

/// The records that an inject's new services give, or the id of the first
/// machine it names that the round lacks.
pub open spec fn inject_records_of(
    new_services: Seq<(String, Vec<ServiceConfig>)>,
    boxes: Seq<(String, Vm)>,
    teams: Seq<(String, Team)>,
) -> Result<Seq<SharedService>, Seq<char>>
    decreases new_services.len(),
{
    if new_services.len() == 0 {
        Ok(Seq::empty())
    } else {
        match inject_records_of(new_services.drop_last(), boxes, teams) {
            Err(id) => Err(id),
            Ok(before) => {
                let entry = new_services.last();
                match lookup_vm(boxes, entry.0@) {
                    None => Err(entry.0@),
                    Some(vm) => Ok(before + added_records(entry.1@, teams, (entry.0, vm))),
                }
            },
        }
    }
}

/// Seconds since the Unix epoch at which an inject activates: the round
/// start plus its offset and duration, in minutes.
pub open spec fn activation_time(start: int, offset: int, duration: int) -> int {
    start + (offset + duration) * 60
}

/// The live set of service records that every tick probes.
#[derive(Debug, Clone)]
pub struct ProbeSet {
    pub services: Vec<SharedService>,
}

impl ProbeSet {
    /// Appends records at the end of the set.
    pub fn append(&mut self, records: Vec<SharedService>)
        ensures
            final(self).services@ == old(self).services@ + records@,
    {
        let mut records = records;
        self.services.append(&mut records);
    }

    /// Adds the records of an inject's new services for every team; on an
    /// unknown machine nothing is added.
    pub fn add_inject(&mut self, cfg: &Cfg, inject: &Inject) -> (r: Result<(), ConfigError>)
        ensures
            match inject_records_of(inject.new_services@, cfg.boxes@, cfg.teams@) {
                Ok(recs) => r.is_ok() && final(self).services@ == old(self).services@ + recs,
                Err(id) => *final(self) == *old(self) && match r {
                    Err(ConfigError::UnknownMachine { vm_id }) => vm_id@ == id,
                    _ => false,
                },
            },
    {
        match inject.records(cfg) {
            Ok(recs) => {
                self.append(recs);
                Ok(())
            },
            Err(e) => Err(e),
        }
    }
}

fn find_vm<'a>(boxes: &'a Vec<(String, Vm)>, id: &String) -> (r: Option<&'a Vm>)
    ensures
        match lookup_vm(boxes@, id@) {
            Some(vm) => r == Some(&vm),
            None => r.is_none(),
        },
{
    let mut i: usize = 0;
    assert(boxes@.subrange(0, boxes@.len() as int) =~= boxes@);
    while i < boxes.len()
        invariant
            0 <= i <= boxes@.len(),
            lookup_vm(boxes@, id@) == lookup_vm(boxes@.subrange(i as int, boxes@.len() as int), id@),
        decreases boxes@.len() - i,
    {
        let ghost rest = boxes@.subrange(i as int, boxes@.len() as int);
        assert(rest.drop_first() =~= boxes@.subrange(i + 1, boxes@.len() as int));
        if boxes[i].0 == *id {
            return Some(&boxes[i].1);
        }
        i += 1;
    }
    None
}

impl Inject {
    /// The records that the inject's new services give, for every team.
    pub fn records(&self, cfg: &Cfg) -> (r: Result<Vec<SharedService>, ConfigError>)
        ensures
            match inject_records_of(self.new_services@, cfg.boxes@, cfg.teams@) {
                Ok(recs) => r.is_ok() && r.unwrap()@ == recs,
                Err(id) => match r {
                    Err(ConfigError::UnknownMachine { vm_id }) => vm_id@ == id,
                    _ => false,
                },
            },
    {
        let mut out: Vec<SharedService> = Vec::new();
        let mut b: usize = 0;
        while b < self.new_services.len()
            invariant
                0 <= b <= self.new_services@.len(),
                inject_records_of(self.new_services@.take(b as int), cfg.boxes@, cfg.teams@)
                    == Ok::<Seq<SharedService>, Seq<char>>(out@),
            decreases self.new_services@.len() - b,
        {
            let ghost before = out@;
            assert(self.new_services@.take(b + 1).drop_last() =~= self.new_services@.take(b as int));
            let entry = &self.new_services[b];
            let vm = match find_vm(&cfg.boxes, &entry.0) {
                Some(vm) => vm,
                None => {
                    proof {
                        lemma_records_err_persists(self.new_services@, cfg.boxes@, cfg.teams@, b + 1);
                    }
                    return Err(ConfigError::UnknownMachine { vm_id: entry.0.clone() });
                },
            };
            let ghost vm_pair = (entry.0, *vm);
            let mut s: usize = 0;
            while s < entry.1.len()
                invariant
                    0 <= s <= entry.1@.len(),
                    out@ == before + added_records(entry.1@.take(s as int), cfg.teams@, vm_pair),
                    vm_pair == (entry.0, *vm),
                decreases entry.1@.len() - s,
            {
                assert(entry.1@.take(s + 1).drop_last() =~= entry.1@.take(s as int));
                let ghost mid = out@;
                let svc = &entry.1[s];
                let mut t: usize = 0;
                while t < cfg.teams.len()
                    invariant
                        0 <= t <= cfg.teams@.len(),
                        out@ == mid + team_records(cfg.teams@.take(t as int), *svc, vm_pair),
                        vm_pair == (entry.0, *vm),
                    decreases cfg.teams@.len() - t,
                {
                    let team = &cfg.teams[t];
                    let rec = SharedService::from_config(svc, (&team.0, &team.1), (&entry.0, vm));
                    out.push(rec);
                    assert(team_records(cfg.teams@.take(t + 1), *svc, vm_pair) =~= team_records(
                        cfg.teams@.take(t as int),
                        *svc,
                        vm_pair,
                    ).push(rec));
                    t += 1;
                }
                assert(cfg.teams@.take(cfg.teams@.len() as int) =~= cfg.teams@);
                s += 1;
            }
            assert(entry.1@.take(entry.1@.len() as int) =~= entry.1@);
            b += 1;
        }
        assert(self.new_services@.take(self.new_services@.len() as int) =~= self.new_services@);
        Ok(out)
    }

    /// When the inject activates, in seconds since the Unix epoch, for a
    /// round that started at `start`.
    pub fn activation(&self, start: i64) -> (r: i128)
        ensures
            r as int == activation_time(start as int, self.offset as int, self.duration as int),
    {
        let minutes: i128 = self.offset as i128 + self.duration as i128;
        start as i128 + minutes * 60
    }

    /// Whole seconds from `now` until the inject activates; zero once it is due.
    pub fn wait_secs(&self, start: i64, now: i64) -> (r: u64)
        ensures
            r as int == {
                let left = activation_time(start as int, self.offset as int, self.duration as int)
                    - now;
                if left < 0 {
                    0
                } else if left > u64::MAX {
                    u64::MAX as int
                } else {
                    left
                }
            },
    {
        let left: i128 = self.activation(start) - now as i128;
        if left < 0 {
            0
        } else if left > u64::MAX as i128 {
            u64::MAX
        } else {
            left as u64
        }
    }

    /// Whether the inject has begun at `now`: its offset has elapsed since the round start.
    pub fn has_started(&self, start: i64, now: i64) -> (r: bool)
        ensures
            r == (start + self.offset * 60 < now),
    {
        (start as i128) + (self.offset as i128) * 60 < now as i128
    }
}

impl Cfg {
    /// The probe set that the round starts with: for every machine, every
    /// team, every service of the machine.
    pub fn set_services(&self) -> (r: ProbeSet)
        ensures
            r.services@ == round_records(self.boxes@, self.teams@),
    {
        let mut out: Vec<SharedService> = Vec::new();
        let mut b: usize = 0;
        while b < self.boxes.len()
            invariant
                0 <= b <= self.boxes@.len(),
                out@ == round_records(self.boxes@.take(b as int), self.teams@),
            decreases self.boxes@.len() - b,
        {
            assert(self.boxes@.take(b + 1).drop_last() =~= self.boxes@.take(b as int));
            let ghost before = out@;
            let vm = &self.boxes[b];
            let mut t: usize = 0;
            while t < self.teams.len()
                invariant
                    0 <= t <= self.teams@.len(),
                    out@ == before + vm_records(self.teams@.take(t as int), *vm),
                decreases self.teams@.len() - t,
            {
                assert(self.teams@.take(t + 1).drop_last() =~= self.teams@.take(t as int));
                let ghost mid = out@;
                let team = &self.teams[t];
                let mut s: usize = 0;
                while s < vm.1.services.len()
                    invariant
                        0 <= s <= vm.1.services@.len(),
                        out@ == mid + svc_records(vm.1.services@.take(s as int), *team, *vm),
                    decreases vm.1.services@.len() - s,
                {
                    let rec = SharedService::from_config(
                        &vm.1.services[s],
                        (&team.0, &team.1),
                        (&vm.0, &vm.1),
                    );
                    out.push(rec);
                    assert(svc_records(vm.1.services@.take(s + 1), *team, *vm) =~= svc_records(
                        vm.1.services@.take(s as int),
                        *team,
                        *vm,
                    ).push(rec));
                    s += 1;
                }
                assert(vm.1.services@.take(vm.1.services@.len() as int) =~= vm.1.services@);
                t += 1;
            }
            assert(self.teams@.take(self.teams@.len() as int) =~= self.teams@);
            b += 1;
        }
        assert(self.boxes@.take(self.boxes@.len() as int) =~= self.boxes@);
        ProbeSet { services: out }
    }
}

/// Whether no two entries share an id.
pub open spec fn ids_unique<V>(s: Seq<(String, V)>) -> bool {
    forall|i: int, j: int| 0 <= i < j < s.len() ==> (#[trigger] s[i]).0@ != (#[trigger] s[j]).0@
}

/// Whether no two services share an id.
pub open spec fn svc_ids_unique(svcs: Seq<ServiceConfig>) -> bool {
    forall|i: int, j: int| 0 <= i < j < svcs.len() ==> (#[trigger] svcs[i]).id@ != (#[trigger] svcs[j]).id@
}

/// A round whose teams, machines, and each machine's services have distinct ids.
pub open spec fn round_wf(boxes: Seq<(String, Vm)>, teams: Seq<(String, Team)>) -> bool {
    &&& ids_unique(boxes)
    &&& ids_unique(teams)
    &&& forall|b: int| 0 <= b < boxes.len() ==> svc_ids_unique((#[trigger] boxes[b]).1.services@)
}

/// Whether two records are for the same team, machine and service.
pub open spec fn same_service(a: SharedService, b: SharedService) -> bool {
    &&& a.meta.team_id@ == b.meta.team_id@
    &&& a.meta.vm_id@ == b.meta.vm_id@
    &&& a.meta.svc_id@ == b.meta.svc_id@
}

/// Whether no two records are for the same service.
pub open spec fn services_distinct(recs: Seq<SharedService>) -> bool {
    forall|i: int, j: int| 0 <= i < j < recs.len() ==> !same_service(#[trigger] recs[i], #[trigger] recs[j])
}

proof fn lemma_concat_distinct(a: Seq<SharedService>, b: Seq<SharedService>)
    requires
        services_distinct(a),
        services_distinct(b),
        forall|i: int, j: int| 0 <= i < a.len() && 0 <= j < b.len() ==> !same_service(#[trigger] a[i], #[trigger] b[j]),
    ensures
        services_distinct(a + b),
{
    let c = a + b;
    assert forall|i: int, j: int| 0 <= i < j < c.len() implies !same_service(#[trigger] c[i], #[trigger] c[j]) by {
        if j < a.len() {
            assert(c[i] == a[i] && c[j] == a[j]);
        } else if i >= a.len() {
            assert(c[i] == b[i - a.len()] && c[j] == b[j - a.len()]);
        } else {
            assert(c[i] == a[i] && c[j] == b[j - a.len()]);
        }
    }
}

proof fn lemma_vm_records_shape(teams: Seq<(String, Team)>, vm: (String, Vm))
    ensures
        forall|k: int| 0 <= k < vm_records(teams, vm).len() ==> {
            &&& (#[trigger] vm_records(teams, vm)[k]).meta.vm_id == vm.0
            &&& exists|t: int| 0 <= t < teams.len() && vm_records(teams, vm)[k].meta.team_id == (#[trigger] teams[t]).0
        },
        ids_unique(teams) && svc_ids_unique(vm.1.services@) ==> services_distinct(vm_records(teams, vm)),
    decreases teams.len(),
{
    if teams.len() > 0 {
        let prev = teams.drop_last();
        let a = vm_records(prev, vm);
        let b = svc_records(vm.1.services@, teams.last(), vm);
        lemma_vm_records_shape(prev, vm);
        let all = vm_records(teams, vm);
        assert(all == a + b);
        assert forall|k: int| 0 <= k < all.len() implies {
            &&& (#[trigger] all[k]).meta.vm_id == vm.0
            &&& exists|t: int| 0 <= t < teams.len() && all[k].meta.team_id == (#[trigger] teams[t]).0
        } by {
            if k < a.len() {
                assert(all[k] == a[k]);
                let t = choose|t: int| 0 <= t < prev.len() && a[k].meta.team_id == (#[trigger] prev[t]).0;
                assert(teams[t] == prev[t]);
            } else {
                assert(all[k] == b[k - a.len()]);
                assert(teams[teams.len() - 1] == teams.last());
            }
        }
        if ids_unique(teams) && svc_ids_unique(vm.1.services@) {
            assert(ids_unique(prev));
            assert forall|i: int, j: int| 0 <= i < j < b.len() implies !same_service(#[trigger] b[i], #[trigger] b[j]) by {
                assert(b[i].meta.svc_id == vm.1.services@[i].id);
                assert(b[j].meta.svc_id == vm.1.services@[j].id);
            }
            assert forall|i: int, j: int| 0 <= i < a.len() && 0 <= j < b.len() implies !same_service(#[trigger] a[i], #[trigger] b[j]) by {
                let t = choose|t: int| 0 <= t < prev.len() && a[i].meta.team_id == (#[trigger] prev[t]).0;
                assert(prev[t] == teams[t]);
                assert(b[j].meta.team_id == teams[teams.len() - 1].0);
            }
            lemma_concat_distinct(a, b);
        }
    }
}

proof fn lemma_round_records_shape(boxes: Seq<(String, Vm)>, teams: Seq<(String, Team)>)
    ensures
        forall|k: int| 0 <= k < round_records(boxes, teams).len() ==> exists|b: int|
            0 <= b < boxes.len() && (#[trigger] round_records(boxes, teams)[k]).meta.vm_id == (#[trigger] boxes[b]).0,
        round_wf(boxes, teams) ==> services_distinct(round_records(boxes, teams)),
    decreases boxes.len(),
{
    if boxes.len() > 0 {
        let prev = boxes.drop_last();
        let a = round_records(prev, teams);
        let b = vm_records(teams, boxes.last());
        lemma_round_records_shape(prev, teams);
        lemma_vm_records_shape(teams, boxes.last());
        let all = round_records(boxes, teams);
        assert(all == a + b);
        assert forall|k: int| 0 <= k < all.len() implies exists|q: int|
            0 <= q < boxes.len() && (#[trigger] all[k]).meta.vm_id == (#[trigger] boxes[q]).0 by {
            if k < a.len() {
                assert(all[k] == a[k]);
                let q = choose|q: int| 0 <= q < prev.len() && a[k].meta.vm_id == (#[trigger] prev[q]).0;
                assert(boxes[q] == prev[q]);
            } else {
                assert(all[k] == b[k - a.len()]);
                assert(boxes[boxes.len() - 1] == boxes.last());
            }
        }
        if round_wf(boxes, teams) {
            assert(round_wf(prev, teams)) by {
                assert forall|q: int| 0 <= q < prev.len() implies svc_ids_unique((#[trigger] prev[q]).1.services@) by {
                    assert(prev[q] == boxes[q]);
                }
            }
            assert(boxes[boxes.len() - 1] == boxes.last());
            assert forall|i: int, j: int| 0 <= i < a.len() && 0 <= j < b.len() implies !same_service(#[trigger] a[i], #[trigger] b[j]) by {
                let q = choose|q: int| 0 <= q < prev.len() && a[i].meta.vm_id == (#[trigger] prev[q]).0;
                assert(prev[q] == boxes[q]);
            }
            lemma_concat_distinct(a, b);
        }
    }
}

/// In a round whose ids are distinct, the probe set that the round starts
/// with holds at most one record per team, machine and service.
pub proof fn lemma_initial_services_distinct(boxes: Seq<(String, Vm)>, teams: Seq<(String, Team)>)
    requires
        round_wf(boxes, teams),
    ensures
        services_distinct(round_records(boxes, teams)),
{
    lemma_round_records_shape(boxes, teams);
}

proof fn lemma_added_holds(
    svcs: Seq<ServiceConfig>,
    teams: Seq<(String, Team)>,
    vm: (String, Vm),
    s: int,
    t: int,
)
    requires
        0 <= s < svcs.len(),
        0 <= t < teams.len(),
    ensures
        exists|k: int|
            0 <= k < added_records(svcs, teams, vm).len() && #[trigger] added_records(
                svcs,
                teams,
                vm,
            )[k] == record_of(svcs[s], teams[t].0, teams[t].1, vm.0, vm.1),
    decreases svcs.len(),
{
    let before = added_records(svcs.drop_last(), teams, vm);
    let last = team_records(teams, svcs.last(), vm);
    if s == svcs.len() - 1 {
        assert(added_records(svcs, teams, vm)[before.len() + t] == last[t]);
    } else {
        lemma_added_holds(svcs.drop_last(), teams, vm, s, t);
        let k = choose|k: int|
            0 <= k < before.len() && #[trigger] before[k] == record_of(
                svcs.drop_last()[s],
                teams[t].0,
                teams[t].1,
                vm.0,
                vm.1,
            );
        assert(added_records(svcs, teams, vm)[k] == before[k]);
    }
}

/// Once an inject has been applied, the probe set holds a record of each
/// of its new services for every team, on the machine it names.
pub proof fn lemma_inject_reaches_every_team(
    probes: Seq<SharedService>,
    new_services: Seq<(String, Vec<ServiceConfig>)>,
    boxes: Seq<(String, Vm)>,
    teams: Seq<(String, Team)>,
    b: int,
    s: int,
    t: int,
)
    requires
        inject_records_of(new_services, boxes, teams).is_ok(),
        0 <= b < new_services.len(),
        0 <= s < new_services[b].1@.len(),
        0 <= t < teams.len(),
    ensures
        lookup_vm(boxes, new_services[b].0@).is_some(),
        ({
            let after = probes + inject_records_of(new_services, boxes, teams)->Ok_0;
            let vm = lookup_vm(boxes, new_services[b].0@)->Some_0;
            exists|k: int|
                0 <= k < after.len() && #[trigger] after[k] == record_of(
                    new_services[b].1@[s],
                    teams[t].0,
                    teams[t].1,
                    new_services[b].0,
                    vm,
                )
        }),
    decreases new_services.len(),
{
    let ns = new_services;
    let prev = inject_records_of(ns.drop_last(), boxes, teams);
    let entry = ns.last();
    let vm_last = lookup_vm(boxes, entry.0@);
    let recs = inject_records_of(ns, boxes, teams)->Ok_0;
    let after = probes + recs;
    if b == ns.len() - 1 {
        let vm = vm_last->Some_0;
        lemma_added_holds(entry.1@, teams, (entry.0, vm), s, t);
        let added = added_records(entry.1@, teams, (entry.0, vm));
        let k = choose|k: int|
            0 <= k < added.len() && #[trigger] added[k] == record_of(
                entry.1@[s],
                teams[t].0,
                teams[t].1,
                entry.0,
                vm,
            );
        let before = prev->Ok_0;
        assert(after[probes.len() + before.len() + k] == added[k]);
    } else {
        lemma_inject_reaches_every_team(probes, ns.drop_last(), boxes, teams, b, s, t);
        let before = prev->Ok_0;
        let vm = lookup_vm(boxes, ns[b].0@)->Some_0;
        let inner = probes + before;
        let k = choose|k: int|
            0 <= k < inner.len() && #[trigger] inner[k] == record_of(
                ns.drop_last()[b].1@[s],
                teams[t].0,
                teams[t].1,
                ns.drop_last()[b].0,
                vm,
            );
        assert(after[k] == inner[k]);
    }
}

proof fn lemma_records_err_persists(
    ns: Seq<(String, Vec<ServiceConfig>)>,
    boxes: Seq<(String, Vm)>,
    teams: Seq<(String, Team)>,
    n: int,
)
    requires
        0 < n <= ns.len(),
        inject_records_of(ns.take(n - 1), boxes, teams).is_ok(),
        lookup_vm(boxes, ns[n - 1].0@).is_none(),
    ensures
        inject_records_of(ns, boxes, teams) == Err::<Seq<SharedService>, Seq<char>>(ns[n - 1].0@),
    decreases ns.len() - n,
{
    assert(ns.take(n).drop_last() =~= ns.take(n - 1));
    if n == ns.len() {
        assert(ns.take(n) =~= ns);
    } else {
        lemma_err_extends(ns, boxes, teams, n, ns[n - 1].0@);
    }
}

proof fn lemma_err_extends(
    ns: Seq<(String, Vec<ServiceConfig>)>,
    boxes: Seq<(String, Vm)>,
    teams: Seq<(String, Team)>,
    n: int,
    id: Seq<char>,
)
    requires
        0 <= n <= ns.len(),
        inject_records_of(ns.take(n), boxes, teams) == Err::<Seq<SharedService>, Seq<char>>(id),
    ensures
        inject_records_of(ns, boxes, teams) == Err::<Seq<SharedService>, Seq<char>>(id),
    decreases ns.len() - n,
{
    if n == ns.len() {
        assert(ns.take(n) =~= ns);
    } else {
        assert(ns.take(n + 1).drop_last() =~= ns.take(n));
        lemma_err_extends(ns, boxes, teams, n + 1, id);
    }
}

} // verus!
