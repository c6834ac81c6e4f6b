use crate::config::{Cfg, Inject, InjectMeta};
use core_extensions::ValSliceExt;
use vstd::prelude::*;

verus! {

/// What the score grid shows in each cell.
#[derive(Debug, Clone, Copy, PartialEq, Eq, Structural)]
pub enum TplMode {
    Scores,
    Uptime,
    SLAs,
}

/// The counters of one service of one team, as the store reports them.
#[derive(Debug, Clone)]
pub struct TeamInfo {
    pub team_id: String,
    pub vm_id: String,
    pub svc_id: String,
    pub check_count: i32,
    pub uptime_score: i32,
    pub sla_count: i32,
    pub latest_uptime_status: bool,
}

/// A distinct (machine, service) column of the score grid.
#[derive(Debug, Clone)]
pub struct SvcInfo {
    pub svc_id: String,
    pub vm_id: String,
}

/// `n / d` rounded to the nearest integer, halves away from zero; `d > 0`.
pub open spec fn round_div(n: int, d: int) -> int {
    if n >= 0 {
        (2 * n + d) / (2 * d)
    } else {
        -((2 * -n + d) / (2 * d))
    }
}

/// The uptime percentage of `uptime` points over `checks` checks, rounded
/// to the nearest integer; none for no checks.
pub open spec fn uptime_percent(uptime: int, checks: int) -> Option<int> {
    if checks == 0 {
        None
    } else if checks > 0 {
        Some(round_div(100 * uptime, checks))
    } else {
        Some(round_div(-100 * uptime, -checks))
    }
}

/// Whether a cell is styled positive: its percentage is over fifty; with
/// no checks, whether any uptime was scored.
pub open spec fn spec_is_positive(uptime: int, checks: int) -> bool {
    match uptime_percent(uptime, checks) {
        Some(p) => p > 50,
        None => uptime > 0,
    }
}

fn rounded_div(n: i64, d: i64) -> (r: i64)
    requires
        d > 0,
        -0x1_0000_0000_0000 < n < 0x1_0000_0000_0000,
        d < 0x1_0000_0000_0000,
    ensures
        r == round_div(n as int, d as int),
{
    if n >= 0 {
        (2 * n + d) / (2 * d)
    } else {
        -((2 * -n + d) / (2 * d))
    }
}

impl TeamInfo {
    /// The rounded uptime percentage; none when the service has no checks.
    pub fn get_percentage(&self) -> (r: Option<i64>)
        ensures
            match uptime_percent(self.uptime_score as int, self.check_count as int) {
                Some(p) => r == Some(p as i64),
                None => r.is_none(),
            },
    {
        let u: i64 = self.uptime_score as i64;
        let c: i64 = self.check_count as i64;
        if c == 0 {
            None
        } else if c > 0 {
            Some(rounded_div(100 * u, c))
        } else {
            Some(rounded_div(-(100 * u), -c))
        }
    }

    /// Whether the cell is styled positive.
    pub fn is_positive(&self) -> (r: bool)
        ensures
            r == spec_is_positive(self.uptime_score as int, self.check_count as int),
    {
        match self.get_percentage() {
            Some(p) => p > 50,
            None => self.uptime_score > 0,
        }
    }
}

/// Whether `groups` are the maximal runs of rows of one team, in order,
/// each with the id of its team.
pub open spec fn is_team_grouping(rows: Seq<TeamInfo>, groups: Seq<(String, Vec<TeamInfo>)>) -> bool {
    &&& groups.map_values(|g: (String, Vec<TeamInfo>)| g.1@).flatten() == rows
    &&& forall|i: int| 0 <= i < groups.len() ==> (#[trigger] groups[i]).1@.len() > 0
    &&& forall|i: int, j: int|
        0 <= i < groups.len() && 0 <= j < groups[i].1@.len() ==> (#[trigger] groups[i].1@[j]).team_id@
            == groups[i].0@
    &&& forall|i: int| 0 < i < groups.len() ==> groups[i - 1].0@ != (#[trigger] groups[i]).0@
}

/// Relies on core_extensions' `ValSliceExt::split_while` keyed by team id:
/// it yields, in order, the maximal runs of rows with equal team ids, each
/// with the id its rows share.
#[verifier::external_body]
fn runs_by_team(rows: &Vec<TeamInfo>) -> (r: Vec<(String, Vec<TeamInfo>)>)
    ensures
        is_team_grouping(rows@, r@),
{
    rows.split_while(|x| &x.team_id).map(|g| (g.key.to_owned(), g.slice.to_vec())).collect()
}

/// The text of a UTC time given in seconds since the Unix epoch, as in
/// `2015-05-15 00:00:00 UTC`; none outside the representable range.
pub uninterp spec fn utc_text_of(secs: int) -> Option<Seq<char>>;

/// Relies on chrono's `DateTime::from_timestamp` and the `Display` of
/// `DateTime<Utc>`: none out of range, otherwise a function of the number alone.
#[verifier::external_body]
fn utc_text(secs: i64) -> (r: Option<String>)
    ensures
        r.is_some() == utc_text_of(secs as int).is_some(),
        r.is_some() ==> r->Some_0@ == utc_text_of(secs as int)->Some_0,
{
    match chrono::DateTime::from_timestamp(secs, 0) {
        Some(d) => Some(d.to_string()),
        None => None,
    }
}

/// Relies on chrono's `Utc::now` and `DateTime::timestamp`: the current time
/// in seconds since the Unix epoch, of which nothing else is known.
#[verifier::external_body]
fn utc_now() -> (r: i64) {
    chrono::Utc::now().timestamp()
}

/// The text shown for an activation time: its UTC text, or nothing where
/// there is none.
pub open spec fn time_text(t: int) -> Seq<char> {
    if i64::MIN <= t <= i64::MAX && utc_text_of(t).is_some() {
        utc_text_of(t)->Some_0
    } else {
        Seq::empty()
    }
}

/// An inject that has begun, as the scoreboard lists it.
#[derive(Debug)]
pub struct InjectNotice {
    pub meta: InjectMeta,
    pub offset: usize,
    pub duration: usize,
    /// When its services join the probe set.
    pub activates_at: String,
}

/// The injects that have begun at `now`: their offset has elapsed since the round start.
pub open spec fn started_injects(injects: Seq<Inject>, start: int, now: int) -> Seq<Inject>
    decreases injects.len(),
{
    if injects.len() == 0 {
        Seq::empty()
    } else {
        let prev = started_injects(injects.drop_last(), start, now);
        let i = injects.last();
        if start + i.offset * 60 < now {
            prev.push(i)
        } else {
            prev
        }
    }
}

/// Whether `n` lists inject `i` of a round that started at `start`.
pub open spec fn notice_of(n: InjectNotice, i: Inject, start: int) -> bool {
    &&& n.meta == i.meta
    &&& n.offset == i.offset
    &&& n.duration == i.duration
    &&& n.activates_at@ == time_text(
        crate::injects::activation_time(start, i.offset as int, i.duration as int),
    )
}

/// Whether `notices` list, in order, the injects that have begun at `now`.
pub open spec fn notices_at(notices: Seq<InjectNotice>, injects: Seq<Inject>, start: int, now: int) -> bool {
    let begun = started_injects(injects, start, now);
    &&& notices.len() == begun.len()
    &&& forall|k: int| 0 <= k < begun.len() ==> notice_of(#[trigger] notices[k], begun[k], start)
}

/// The data of the score grid.
#[derive(Debug)]
pub struct Scores {
    pub round: String,
    /// Rows grouped by team.
    pub info: Vec<(String, Vec<TeamInfo>)>,
    pub services: Vec<SvcInfo>,
    pub injects: Vec<InjectNotice>,
    pub mode: TplMode,
}

fn notice(i: &Inject, start: i64) -> (r: InjectNotice)
    ensures
        notice_of(r, *i, start as int),
{
    let at = i.activation(start);
    let text = if i64::MIN as i128 <= at && at <= i64::MAX as i128 {
        match utc_text(at as i64) {
            Some(t) => t,
            None => String::new(),
        }
    } else {
        String::new()
    };
    InjectNotice { meta: i.meta.clone(), offset: i.offset, duration: i.duration, activates_at: text }
}

/// The score grid's data at time `now`: rows grouped by team, the given
/// columns, and the injects that have begun.
pub fn info_to_scores_at(
    cfg: &Cfg,
    teams: Vec<TeamInfo>,
    services: Vec<SvcInfo>,
    mode: TplMode,
    now: i64,
) -> (r: Scores)
    ensures
        r.round == cfg.round,
        is_team_grouping(teams@, r.info@),
        r.services == services,
        r.mode == mode,
        notices_at(r.injects@, cfg.injects@, cfg.start as int, now as int),
{
    let mut notices: Vec<InjectNotice> = Vec::new();
    let mut k: usize = 0;
    while k < cfg.injects.len()
        invariant
            0 <= k <= cfg.injects@.len(),
            notices_at(notices@, cfg.injects@.take(k as int), cfg.start as int, now as int),
        decreases cfg.injects@.len() - k,
    {
        assert(cfg.injects@.take(k + 1).drop_last() =~= cfg.injects@.take(k as int));
        let i = &cfg.injects[k];
        if i.has_started(cfg.start, now) {
            let n = notice(i, cfg.start);
            notices.push(n);
        }
        k += 1;
    }
    assert(cfg.injects@.take(cfg.injects@.len() as int) =~= cfg.injects@);
    let info = runs_by_team(&teams);
    Scores { round: cfg.round.clone(), info, services, injects: notices, mode }
}

/// The score grid's data now.
pub fn info_to_scores(cfg: &Cfg, teams: Vec<TeamInfo>, services: Vec<SvcInfo>, mode: TplMode) -> (r:
    Scores)
    ensures
        r.round == cfg.round,
        is_team_grouping(teams@, r.info@),
        r.services == services,
        r.mode == mode,
        exists|now: int| notices_at(r.injects@, cfg.injects@, cfg.start as int, now),
{
    let now = utc_now();
    info_to_scores_at(cfg, teams, services, mode, now)
}

/// The listing of the patch-file directory.
#[derive(Debug, Clone)]
pub struct PatchServer {
    pub round: String,
    pub files: Vec<String>,
}

/// A team's place on the leaderboard.
#[derive(Debug)]
pub struct LeaderboardItem {
    pub team_id: String,
    /// Uptime points less SLA violations, over all of the team's services.
    pub sum: i64,
}

impl Clone for LeaderboardItem {
    fn clone(&self) -> (r: Self)
        ensures
            r == *self,
    {
        LeaderboardItem { team_id: self.team_id.clone(), sum: self.sum }
    }
}

/// The leaderboard page.
#[derive(Debug, Clone)]
pub struct Leaderboard {
    pub round: String,
    pub teams: Vec<LeaderboardItem>,
}

/// What one service row adds to its team's score.
pub open spec fn row_points(r: TeamInfo) -> int {
    r.uptime_score - r.sla_count
}

/// The score of team `id` over `rows`.
pub open spec fn team_total(rows: Seq<TeamInfo>, id: Seq<char>) -> int
    decreases rows.len(),
{
    if rows.len() == 0 {
        0
    } else {
        team_total(rows.drop_last(), id) + if rows.last().team_id@ == id {
            row_points(rows.last())
        } else {
            0
        }
    }
}

/// Whether `items` rank the teams of `rows`: one item per team that has a
/// row, with that team's score, highest score first.
pub open spec fn is_ranking(rows: Seq<TeamInfo>, items: Seq<LeaderboardItem>) -> bool {
    &&& forall|k: int|
        0 <= k < items.len() ==> (#[trigger] items[k]).sum == team_total(rows, items[k].team_id@)
    &&& forall|k: int|
        0 <= k < items.len() ==> seen_in(rows, rows.len() as int, (#[trigger] items[k]).team_id@)
    &&& forall|j: int| 0 <= j < rows.len() ==> listed_in(items, (#[trigger] rows[j]).team_id@)
    &&& distinct_teams(items)
    &&& forall|a: int, b: int|
        0 <= a < b < items.len() ==> (#[trigger] items[a]).sum >= (#[trigger] items[b]).sum
}

proof fn lemma_total_step(rows: Seq<TeamInfo>, i: int, id: Seq<char>)
    requires
        0 <= i < rows.len(),
    ensures
        team_total(rows.take(i + 1), id) == team_total(rows.take(i), id) + if rows[i].team_id@
            == id {
            row_points(rows[i])
        } else {
            0
        },
{
    assert(rows.take(i + 1).drop_last() =~= rows.take(i));
}

proof fn lemma_total_bound(rows: Seq<TeamInfo>, id: Seq<char>)
    ensures
        -(rows.len() * 0xFFFF_FFFF) <= team_total(rows, id) <= rows.len() * 0xFFFF_FFFF,
    decreases rows.len(),
{
    if rows.len() > 0 {
        lemma_total_bound(rows.drop_last(), id);
    }
}

proof fn lemma_total_absent(rows: Seq<TeamInfo>, id: Seq<char>)
    requires
        forall|j: int| 0 <= j < rows.len() ==> (#[trigger] rows[j]).team_id@ != id,
    ensures
        team_total(rows, id) == 0,
    decreases rows.len(),
{
    if rows.len() > 0 {
        lemma_total_absent(rows.drop_last(), id);
    }
}

fn find_team(items: &Vec<LeaderboardItem>, id: &String) -> (r: Option<usize>)
    ensures
        match r {
            Some(k) => k < items@.len() && items@[k as int].team_id@ == id@,
            None => !listed_in(items@, id@),
        },
{
    let mut k: usize = 0;
    while k < items.len()
        invariant
            0 <= k <= items@.len(),
            forall|q: int| 0 <= q < k ==> (#[trigger] items@[q]).team_id@ != id@,
        decreases items@.len() - k,
    {
        if items[k].team_id == *id {
            return Some(k);
        }
        k += 1;
    }
    None
}

/// Whether one of the first `n` rows belongs to team `id`.
pub open spec fn seen_in(rows: Seq<TeamInfo>, n: int, id: Seq<char>) -> bool {
    exists|j: int| 0 <= j < n && (#[trigger] rows[j]).team_id@ == id
}

/// Whether some item is for team `id`.
pub open spec fn listed_in(items: Seq<LeaderboardItem>, id: Seq<char>) -> bool {
    exists|k: int| 0 <= k < items.len() && (#[trigger] items[k]).team_id@ == id
}

/// Whether no two items are for the same team.
pub open spec fn distinct_teams(items: Seq<LeaderboardItem>) -> bool {
    forall|a: int, b: int|
        0 <= a < b < items.len() ==> (#[trigger] items[a]).team_id@ != (#[trigger] items[b]).team_id@
}

/// The items after the first `n` rows: each team seen so far once, with
/// its score over those rows.
#[verifier::opaque]
pub open spec fn sums_after(rows: Seq<TeamInfo>, items: Seq<LeaderboardItem>, n: int) -> bool {
    &&& forall|k: int|
        0 <= k < items.len() ==> (#[trigger] items[k]).sum == team_total(
            rows.take(n),
            items[k].team_id@,
        )
    &&& forall|k: int| 0 <= k < items.len() ==> seen_in(rows, n, (#[trigger] items[k]).team_id@)
    &&& forall|j: int| 0 <= j < n ==> listed_in(items, (#[trigger] rows[j]).team_id@)
    &&& distinct_teams(items)
}

proof fn lemma_sums_add(
    rows: Seq<TeamInfo>,
    old_items: Seq<LeaderboardItem>,
    items: Seq<LeaderboardItem>,
    n: int,
    k: int,
)
    requires
        0 <= n < rows.len(),
        sums_after(rows, old_items, n),
        0 <= k < old_items.len(),
        old_items[k].team_id@ == rows[n].team_id@,
        items.len() == old_items.len(),
        items[k].team_id == old_items[k].team_id,
        items[k].sum == old_items[k].sum + row_points(rows[n]),
        forall|q: int| 0 <= q < items.len() && q != k ==> items[q] == old_items[q],
    ensures
        sums_after(rows, items, n + 1),
{
    reveal(sums_after);
    assert forall|q: int| 0 <= q < items.len() implies (#[trigger] items[q]).sum == team_total(
        rows.take(n + 1),
        items[q].team_id@,
    ) by {
        lemma_total_step(rows, n, items[q].team_id@);
        if q != k {
            assert(old_items[q].team_id@ != old_items[k].team_id@);
        }
    }
    assert forall|q: int| 0 <= q < items.len() implies seen_in(
        rows,
        n + 1,
        (#[trigger] items[q]).team_id@,
    ) by {
        assert(old_items[q].team_id@ == items[q].team_id@);
        assert(seen_in(rows, n, old_items[q].team_id@));
        let j = choose|j: int| 0 <= j < n && (#[trigger] rows[j]).team_id@ == old_items[q].team_id@;
        assert(rows[j].team_id@ == items[q].team_id@);
    }
    assert forall|j: int| 0 <= j < n + 1 implies listed_in(items, (#[trigger] rows[j]).team_id@) by {
        if j < n {
            assert(listed_in(old_items, rows[j].team_id@));
            let q = choose|q: int|
                0 <= q < old_items.len() && (#[trigger] old_items[q]).team_id@ == rows[j].team_id@;
            assert(items[q].team_id@ == old_items[q].team_id@);
        } else {
            assert(items[k].team_id@ == rows[j].team_id@);
        }
    }
    assert forall|a: int, b: int| 0 <= a < b < items.len() implies (
    #[trigger] items[a]).team_id@ != (#[trigger] items[b]).team_id@ by {
        assert(items[a].team_id@ == old_items[a].team_id@);
        assert(items[b].team_id@ == old_items[b].team_id@);
    }
}

proof fn lemma_sums_new(
    rows: Seq<TeamInfo>,
    old_items: Seq<LeaderboardItem>,
    item: LeaderboardItem,
    n: int,
)
    requires
        0 <= n < rows.len(),
        sums_after(rows, old_items, n),
        !listed_in(old_items, rows[n].team_id@),
        item.team_id@ == rows[n].team_id@,
        item.sum == row_points(rows[n]),
    ensures
        sums_after(rows, old_items.push(item), n + 1),
{
    reveal(sums_after);
    let items = old_items.push(item);
    let id = rows[n].team_id@;
    assert forall|j: int| 0 <= j < rows.take(n).len() implies (
    #[trigger] rows.take(n)[j]).team_id@ != id by {
        if rows[j].team_id@ == id {
            assert(listed_in(old_items, rows[j].team_id@));
        }
    }
    lemma_total_absent(rows.take(n), id);
    assert forall|q: int| 0 <= q < items.len() implies (#[trigger] items[q]).sum == team_total(
        rows.take(n + 1),
        items[q].team_id@,
    ) by {
        lemma_total_step(rows, n, items[q].team_id@);
        if q < old_items.len() {
            assert(items[q] == old_items[q]);
        }
    }
    assert forall|q: int| 0 <= q < items.len() implies seen_in(
        rows,
        n + 1,
        (#[trigger] items[q]).team_id@,
    ) by {
        if q < old_items.len() {
            assert(items[q] == old_items[q]);
            assert(seen_in(rows, n, old_items[q].team_id@));
            let j = choose|j: int|
                0 <= j < n && (#[trigger] rows[j]).team_id@ == old_items[q].team_id@;
            assert(rows[j].team_id@ == items[q].team_id@);
        } else {
            assert(rows[n].team_id@ == items[q].team_id@);
        }
    }
    assert forall|j: int| 0 <= j < n + 1 implies listed_in(items, (#[trigger] rows[j]).team_id@) by {
        if j < n {
            assert(listed_in(old_items, rows[j].team_id@));
            let q = choose|q: int|
                0 <= q < old_items.len() && (#[trigger] old_items[q]).team_id@ == rows[j].team_id@;
            assert(items[q] == old_items[q]);
        } else {
            assert(items[old_items.len() as int].team_id@ == rows[j].team_id@);
        }
    }
    assert forall|a: int, b: int| 0 <= a < b < items.len() implies (
    #[trigger] items[a]).team_id@ != (#[trigger] items[b]).team_id@ by {
        assert(items[a] == old_items[a]);
        if b < old_items.len() {
            assert(items[b] == old_items[b]);
        } else {
            assert(old_items[a].team_id@ != id);
        }
    }
}

/// Each team's score over `rows`, one item per team in order of first appearance.
fn team_sums(rows: &Vec<TeamInfo>) -> (r: Vec<LeaderboardItem>)
    requires
        rows@.len() < 0x8000_0000,
    ensures
        sums_after(rows@, r@, rows@.len() as int),
{
    let mut items: Vec<LeaderboardItem> = Vec::new();
    let mut i: usize = 0;
    proof {
        reveal(sums_after);
    }
    while i < rows.len()
        invariant
            0 <= i <= rows@.len(),
            rows@.len() < 0x8000_0000,
            sums_after(rows@, items@, i as int),
        decreases rows@.len() - i,
    {
        let row = &rows[i];
        let points: i64 = row.uptime_score as i64 - row.sla_count as i64;
        let ghost old_items = items@;
        match find_team(&items, &row.team_id) {
            Some(k) => {
                proof {
                    reveal(sums_after);
                    lemma_total_bound(rows@.take(i as int), row.team_id@);
                    assert(i * 0xFFFF_FFFF < 0x7FFF_FFFF_0000_0000) by (nonlinear_arith)
                        requires
                            i < 0x8000_0000,
                    ;
                    assert(items@[k as int].sum == team_total(rows@.take(i as int), row.team_id@));
                }
                let sum = items[k].sum + points;
                let item = LeaderboardItem { team_id: items[k].team_id.clone(), sum };
                items.set(k, item);
                proof {
                    lemma_sums_add(rows@, old_items, items@, i as int, k as int);
                }
            },
            None => {
                let item = LeaderboardItem { team_id: row.team_id.clone(), sum: points };
                items.push(item);
                proof {
                    lemma_sums_new(rows@, old_items, item, i as int);
                }
            },
        }
        i += 1;
    }
    items
}

/// Whether the items are ordered highest score first.
pub open spec fn sorted_desc(items: Seq<LeaderboardItem>) -> bool {
    forall|a: int, b: int| 0 <= a < b < items.len() ==> (#[trigger] items[a]).sum >= (#[trigger] items[b]).sum
}

/// Whether `x` is one of the first `n` items.
pub open spec fn among(items: Seq<LeaderboardItem>, n: int, x: LeaderboardItem) -> bool {
    exists|k: int| 0 <= k < n && items[k] == x
}

/// Whether `out` holds, highest score first, the first `n` of `items`.
#[verifier::opaque]
pub open spec fn sorted_from(items: Seq<LeaderboardItem>, out: Seq<LeaderboardItem>, n: int) -> bool {
    &&& out.len() == n
    &&& forall|p: int| 0 <= p < out.len() ==> among(items, n, #[trigger] out[p])
    &&& forall|k: int| 0 <= k < n ==> out.contains(#[trigger] items[k])
    &&& distinct_teams(out)
    &&& sorted_desc(out)
}

proof fn lemma_sorted_insert(
    items: Seq<LeaderboardItem>,
    out: Seq<LeaderboardItem>,
    n: int,
    pos: int,
)
    requires
        0 <= n < items.len(),
        sorted_from(items, out, n),
        distinct_teams(items),
        0 <= pos <= out.len(),
        forall|p: int| 0 <= p < pos ==> (#[trigger] out[p]).sum >= items[n].sum,
        forall|p: int| pos <= p < out.len() ==> (#[trigger] out[p]).sum < items[n].sum,
    ensures
        sorted_from(items, out.insert(pos, items[n]), n + 1),
{
    reveal(sorted_from);
    let x = items[n];
    let r = out.insert(pos, x);
    out.insert_ensures(pos, x);
    assert(r.len() == n + 1);
    assert forall|p: int| 0 <= p < r.len() implies among(items, n + 1, #[trigger] r[p]) by {
        if p < pos {
            assert(among(items, n, out[p]));
        } else if p == pos {
            assert(items[n] == r[p]);
        } else {
            assert(r[p] == out[p - 1]);
            assert(among(items, n, out[p - 1]));
        }
    }
    assert forall|k: int| 0 <= k < n + 1 implies r.contains(#[trigger] items[k]) by {
        if k < n {
            assert(out.contains(items[k]));
            let p = choose|p: int| 0 <= p < out.len() && out[p] == items[k];
            if p < pos {
                assert(r[p] == out[p]);
            } else {
                assert(r[p + 1] == out[p]);
            }
        } else {
            assert(r[pos] == items[k]);
        }
    }
    assert forall|p: int| 0 <= p < out.len() implies (#[trigger] out[p]).team_id@ != x.team_id@ by {
        assert(among(items, n, out[p]));
        let k = choose|k: int| 0 <= k < n && items[k] == out[p];
        assert(items[k].team_id@ != items[n].team_id@);
    }
    assert forall|a: int, b: int| 0 <= a < b < r.len() implies (#[trigger] r[a]).team_id@ != (
    #[trigger] r[b]).team_id@ && r[a].sum >= r[b].sum by {
        if a < pos {
            assert(r[a] == out[a]);
        } else if a > pos {
            assert(r[a] == out[a - 1]);
        }
        if b < pos {
            assert(r[b] == out[b]);
        } else if b > pos {
            assert(r[b] == out[b - 1]);
        }
    }
}

proof fn lemma_ranking(rows: Seq<TeamInfo>, items: Seq<LeaderboardItem>, out: Seq<LeaderboardItem>)
    requires
        sums_after(rows, items, rows.len() as int),
        sorted_from(items, out, items.len() as int),
    ensures
        is_ranking(rows, out),
{
    reveal(sums_after);
    reveal(sorted_from);
    assert(rows.take(rows.len() as int) =~= rows);
    assert forall|p: int| 0 <= p < out.len() implies (#[trigger] out[p]).sum == team_total(
        rows,
        out[p].team_id@,
    ) && seen_in(rows, rows.len() as int, out[p].team_id@) by {
        assert(among(items, items.len() as int, out[p]));
        let k = choose|k: int| 0 <= k < items.len() && items[k] == out[p];
        assert(items[k].sum == team_total(rows.take(rows.len() as int), items[k].team_id@));
        assert(seen_in(rows, rows.len() as int, items[k].team_id@));
    }
    assert forall|j: int| 0 <= j < rows.len() implies listed_in(out, (#[trigger] rows[j]).team_id@) by {
        assert(listed_in(items, rows[j].team_id@));
        let k = choose|k: int| 0 <= k < items.len() && (#[trigger] items[k]).team_id@ == rows[j].team_id@;
        assert(out.contains(items[k]));
        let p = choose|p: int| 0 <= p < out.len() && out[p] == items[k];
        assert(out[p].team_id@ == rows[j].team_id@);
    }
}

/// The leaderboard over the store's service rows: one item per team, its
/// uptime points less its SLA violations, highest first.
pub fn rank_teams(rows: &Vec<TeamInfo>) -> (r: Vec<LeaderboardItem>)
    requires
        rows@.len() < 0x8000_0000,
    ensures
        is_ranking(rows@, r@),
{
    let items = team_sums(rows);
    proof {
        reveal(sums_after);
        reveal(sorted_from);
    }
    assert(sorted_from(items@, Seq::empty(), 0));
    let mut out: Vec<LeaderboardItem> = Vec::new();
    let mut i: usize = 0;
    while i < items.len()
        invariant
            0 <= i <= items@.len(),
            sorted_from(items@, out@, i as int),
            out@.len() == i,
            sorted_desc(out@),
            distinct_teams(items@),
        decreases items@.len() - i,
    {
        let x = items[i].clone();
        let mut pos: usize = 0;
        while pos < out.len() && out[pos].sum >= x.sum
            invariant
                0 <= pos <= out@.len(),
                forall|p: int| 0 <= p < pos ==> (#[trigger] out@[p]).sum >= x.sum,
            decreases out@.len() - pos,
        {
            pos += 1;
        }
        proof {
            assert forall|p: int| pos <= p < out@.len() implies (#[trigger] out@[p]).sum < x.sum by {
                assert(out@[pos as int].sum < x.sum);
                if p > pos {
                    assert(out@[pos as int].sum >= out@[p].sum);
                }
            }
            lemma_sorted_insert(items@, out@, i as int, pos as int);
        }
        out.insert(pos, x);
        proof {
            reveal(sorted_from);
        }
        i += 1;
    }
    proof {
        lemma_ranking(rows@, items@, out@);
    }
    out
}

} // verus!
