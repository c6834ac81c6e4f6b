use vstd::prelude::*;

verus! {

/// Consecutive downtimes from which each further downtime records an SLA violation.
pub const SLA_THRESHOLD: i32 = 5;

/// The counters that the store keeps for one service, as mathematical integers.
pub struct Tally {
    pub check_count: int,
    pub uptime_score: int,
    pub recurring_down: int,
    pub latest_uptime_status: bool,
    pub sla_count: int,
}

/// The counters of a service that has not been probed yet.
pub open spec fn fresh_tally() -> Tally {
    Tally {
        check_count: 0,
        uptime_score: 0,
        recurring_down: 0,
        latest_uptime_status: true,
        sla_count: 0,
    }
}

/// The counters' invariant: no counter is negative and uptimes never
/// outnumber checks.
pub open spec fn tally_wf(t: Tally) -> bool {
    0 <= t.uptime_score <= t.check_count && t.recurring_down >= 0 && t.sla_count >= 0
}

/// Whether a downtime that brings the streak to `recurring_down` records an SLA violation.
pub open spec fn spec_sla_due(recurring_down: int) -> bool {
    recurring_down >= SLA_THRESHOLD
}

/// The counters after an uptime.
pub open spec fn after_uptime(t: Tally) -> Tally {
    Tally {
        check_count: t.check_count + 1,
        uptime_score: t.uptime_score + 1,
        recurring_down: 0,
        latest_uptime_status: true,
        sla_count: t.sla_count,
    }
}

/// The counters after a downtime, with the SLA violation it may record.
pub open spec fn after_downtime(t: Tally) -> Tally {
    Tally {
        check_count: t.check_count + 1,
        uptime_score: t.uptime_score,
        recurring_down: t.recurring_down + 1,
        latest_uptime_status: false,
        sla_count: if spec_sla_due(t.recurring_down + 1) {
            t.sla_count + 1
        } else {
            t.sla_count
        },
    }
}

/// The counters after one message: `up` for an uptime, otherwise an error.
pub open spec fn after_message(t: Tally, up: bool) -> Tally {
    if up {
        after_uptime(t)
    } else {
        after_downtime(t)
    }
}

/// The counters after the messages `events` in order (`true` for an uptime).
pub open spec fn replay(t: Tally, events: Seq<bool>) -> Tally
    decreases events.len(),
{
    if events.len() == 0 {
        t
    } else {
        after_message(replay(t, events.drop_last()), events.last())
    }
}

/// A persistence step that would take a counter out of its column's range.
#[derive(Debug, Clone, Copy, PartialEq, Eq, Structural)]
pub enum StoreError {
    OutOfRange,
}

/// One row of the `services` table: the counters of one service.
#[derive(Debug, Clone, Copy, PartialEq, Eq, Structural)]
pub struct ServiceCounters {
    pub check_count: i32,
    pub uptime_score: i32,
    pub recurring_down: i32,
    pub latest_uptime_status: bool,
    pub sla_count: i32,
}

impl View for ServiceCounters {
    type V = Tally;

    open spec fn view(&self) -> Tally {
        Tally {
            check_count: self.check_count as int,
            uptime_score: self.uptime_score as int,
            recurring_down: self.recurring_down as int,
            latest_uptime_status: self.latest_uptime_status,
            sla_count: self.sla_count as int,
        }
    }
}

/// Whether a downtime that brings the streak to `recurring_down` records
/// an SLA violation.
pub fn sla_due(recurring_down: i32) -> (r: bool)
    ensures
        r == spec_sla_due(recurring_down as int),
{
    recurring_down >= SLA_THRESHOLD
}

impl ServiceCounters {
    /// The row that a new service starts with.
    pub fn new() -> (r: ServiceCounters)
        ensures
            r@ == fresh_tally(),
    {
        ServiceCounters {
            check_count: 0,
            uptime_score: 0,
            recurring_down: 0,
            latest_uptime_status: true,
            sla_count: 0,
        }
    }

    /// Records an uptime: one more check and one more uptime point, the
    /// downtime streak reset. Leaves the row as it was where a counter
    /// would leave its range.
    pub fn persist_uptime(&mut self) -> (r: Result<(), StoreError>)
        ensures
            r.is_ok() <==> (old(self).check_count < i32::MAX && old(self).uptime_score
                < i32::MAX),
            r.is_ok() ==> final(self)@ == after_uptime(old(self)@),
            r.is_err() ==> *final(self) == *old(self),
    {
        if self.check_count == i32::MAX || self.uptime_score == i32::MAX {
            return Err(StoreError::OutOfRange);
        }
        self.check_count = self.check_count + 1;
        self.uptime_score = self.uptime_score + 1;
        self.recurring_down = 0;
        self.latest_uptime_status = true;
        Ok(())
    }

    /// Records a downtime, without its SLA violation: one more check, the
    /// streak one longer. Returns the new streak length.
    pub fn persist_downtime(&mut self) -> (r: Result<i32, StoreError>)
        ensures
            r.is_ok() <==> (old(self).check_count < i32::MAX && old(self).recurring_down
                < i32::MAX),
            r.is_ok() ==> {
                &&& r == Ok::<i32, StoreError>(final(self).recurring_down)
                &&& final(self).check_count == old(self).check_count + 1
                &&& final(self).uptime_score == old(self).uptime_score
                &&& final(self).recurring_down == old(self).recurring_down + 1
                &&& !final(self).latest_uptime_status
                &&& final(self).sla_count == old(self).sla_count
            },
            r.is_err() ==> *final(self) == *old(self),
    {
        if self.check_count == i32::MAX || self.recurring_down == i32::MAX {
            return Err(StoreError::OutOfRange);
        }
        self.check_count = self.check_count + 1;
        self.recurring_down = self.recurring_down + 1;
        self.latest_uptime_status = false;
        Ok(self.recurring_down)
    }

    /// Records one SLA violation.
    pub fn persist_sla(&mut self) -> (r: Result<(), StoreError>)
        ensures
            r.is_ok() <==> old(self).sla_count < i32::MAX,
            r.is_ok() ==> *final(self) == (ServiceCounters {
                sla_count: (old(self).sla_count + 1) as i32,
                ..*old(self)
            }),
            r.is_err() ==> *final(self) == *old(self),
    {
        if self.sla_count == i32::MAX {
            return Err(StoreError::OutOfRange);
        }
        self.sla_count = self.sla_count + 1;
        Ok(())
    }

    /// Applies one probe message as the persister does: an uptime, or a
    /// downtime followed by an SLA violation once the streak reaches the
    /// threshold. Where a counter would leave its range the step that
    /// would do so is not applied and an error is returned.
    pub fn record(&mut self, up: bool) -> (r: Result<(), StoreError>)
        ensures
            r.is_ok() ==> final(self)@ == after_message(old(self)@, up),
            r.is_ok() <==> (old(self).check_count < i32::MAX && if up {
                old(self).uptime_score < i32::MAX
            } else {
                old(self).recurring_down < i32::MAX && (spec_sla_due(
                    old(self).recurring_down + 1,
                ) ==> old(self).sla_count < i32::MAX)
            }),
            r.is_err() && (up || old(self).check_count == i32::MAX || old(self).recurring_down
                == i32::MAX) ==> *final(self) == *old(self),
            r.is_err() && !up && old(self).check_count < i32::MAX && old(self).recurring_down
                < i32::MAX ==> final(self)@ == (Tally {
                sla_count: old(self)@.sla_count,
                ..after_downtime(old(self)@)
            }),
    {
        if up {
            self.persist_uptime()
        } else {
            match self.persist_downtime() {
                Err(e) => Err(e),
                Ok(streak) => {
                    if sla_due(streak) {
                        self.persist_sla()
                    } else {
                        Ok(())
                    }
                },
            }
        }
    }
}

/// After an uptime the service reads as up and its downtime streak is zero.
pub proof fn lemma_uptime_resets_streak(t: Tally)
    ensures
        after_message(t, true).latest_uptime_status,
        after_message(t, true).recurring_down == 0,
{
}

/// After an error the service reads as down and its downtime streak is one longer.
pub proof fn lemma_error_extends_streak(t: Tally)
    ensures
        !after_message(t, false).latest_uptime_status,
        after_message(t, false).recurring_down == t.recurring_down + 1,
{
}

/// Every message counts as exactly one check: after `events` the check
/// count has grown by their number.
pub proof fn lemma_check_count_counts_messages(t: Tally, events: Seq<bool>)
    ensures
        replay(t, events).check_count == t.check_count + events.len(),
    decreases events.len(),
{
    if events.len() > 0 {
        lemma_check_count_counts_messages(t, events.drop_last());
    }
}

/// From a fresh service, the check count equals the number of messages.
pub proof fn lemma_fresh_check_count(events: Seq<bool>)
    ensures
        replay(fresh_tally(), events).check_count == events.len(),
{
    lemma_check_count_counts_messages(fresh_tally(), events);
}

/// The counters' invariant holds after any messages; in particular the
/// uptime score never exceeds the check count.
pub proof fn lemma_uptime_within_checks(t: Tally, events: Seq<bool>)
    requires
        tally_wf(t),
    ensures
        tally_wf(replay(t, events)),
        replay(t, events).uptime_score <= replay(t, events).check_count,
    decreases events.len(),
{
    if events.len() > 0 {
        lemma_uptime_within_checks(t, events.drop_last());
    }
}

/// `k` errors in a row.
pub open spec fn error_streak(k: nat) -> Seq<bool> {
    Seq::new(k, |i: int| false)
}

/// The SLA violations that `k` errors in a row record, starting from a
/// streak of `d`.
pub open spec fn streak_slas(d: int, k: int) -> int {
    let reach = d + k - (SLA_THRESHOLD - 1);
    let before = d - (SLA_THRESHOLD - 1);
    (if reach > 0 {
        reach
    } else {
        0
    }) - (if before > 0 {
        before
    } else {
        0
    })
}

proof fn lemma_streak_from(t: Tally, k: nat)
    requires
        t.recurring_down >= 0,
    ensures
        replay(t, error_streak(k)).sla_count == t.sla_count + streak_slas(t.recurring_down, k as int),
        replay(t, error_streak(k)).recurring_down == t.recurring_down + k,
    decreases k,
{
    if k > 0 {
        let k1 = (k - 1) as nat;
        assert(error_streak(k).drop_last() =~= error_streak(k1));
        lemma_streak_from(t, k1);
    }
}

/// A streak of `k` consecutive errors, starting where the streak count is
/// zero (after an uptime, or on a fresh service), records `max(0, k - 4)`
/// SLA violations.
pub proof fn lemma_streak_sla_count(t: Tally, k: nat)
    requires
        t.recurring_down == 0,
    ensures
        replay(t, error_streak(k)).sla_count == t.sla_count + if k >= SLA_THRESHOLD {
            k - (SLA_THRESHOLD - 1)
        } else {
            0
        },
{
    lemma_streak_from(t, k);
}

} // verus!
