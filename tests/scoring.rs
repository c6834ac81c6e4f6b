use libscylla::scoring::{sla_due, ServiceCounters, StoreError, SLA_THRESHOLD};

fn after(events: &[bool]) -> ServiceCounters {
    let mut c = ServiceCounters::new();
    for &up in events {
        c.record(up).unwrap();
    }
    c
}

#[test]
fn fresh_row_matches_schema_defaults() {
    let c = ServiceCounters::new();
    assert_eq!(c.check_count, 0);
    assert_eq!(c.uptime_score, 0);
    assert_eq!(c.recurring_down, 0);
    assert!(c.latest_uptime_status);
    assert_eq!(c.sla_count, 0);
}

#[test]
fn tcp_uptime_tick() {
    let c = after(&[true]);
    assert_eq!(c.check_count, 1);
    assert_eq!(c.uptime_score, 1);
    assert!(c.latest_uptime_status);
    assert_eq!(c.recurring_down, 0);
}

#[test]
fn tcp_downtime_streak_records_slas() {
    let c = after(&[false; 6]);
    assert_eq!(c.check_count, 6);
    assert_eq!(c.uptime_score, 0);
    assert_eq!(c.recurring_down, 6);
    assert_eq!(c.sla_count, 2);
    assert!(!c.latest_uptime_status);
}

#[test]
fn recovery_resets_streak() {
    let mut c = after(&[false; 5]);
    assert_eq!(c.sla_count, 1);
    c.record(true).unwrap();
    assert_eq!(c.recurring_down, 0);
    assert!(c.latest_uptime_status);
    assert_eq!(c.sla_count, 1);
}

#[test]
fn uptime_after_any_history_resets() {
    for prefix in [vec![], vec![false], vec![false, false, true], vec![false; 9]] {
        let mut c = after(&prefix);
        c.record(true).unwrap();
        assert!(c.latest_uptime_status);
        assert_eq!(c.recurring_down, 0);
    }
}

#[test]
fn error_extends_streak_by_one() {
    for prefix in [vec![], vec![true], vec![false, false], vec![false; 7]] {
        let mut c = after(&prefix);
        let before = c.recurring_down;
        c.record(false).unwrap();
        assert!(!c.latest_uptime_status);
        assert_eq!(c.recurring_down, before + 1);
    }
}

#[test]
fn check_count_counts_messages_and_bounds_uptime() {
    let events = [true, false, false, true, true, false, false, false, false, false, false, true];
    for n in 0..=events.len() {
        let c = after(&events[..n]);
        assert_eq!(c.check_count as usize, n);
        assert!(c.uptime_score <= c.check_count);
    }
}

#[test]
fn streak_sla_count_is_k_minus_four() {
    for k in 0..12usize {
        let mut events = vec![true];
        events.extend(std::iter::repeat(false).take(k));
        let c = after(&events);
        let expected = if k >= 5 { k - 4 } else { 0 };
        assert_eq!(c.sla_count as usize, expected);
    }
}

#[test]
fn sla_threshold_is_five() {
    assert_eq!(SLA_THRESHOLD, 5);
    assert!(!sla_due(4));
    assert!(sla_due(5));
    assert!(sla_due(6));
}

#[test]
fn persist_downtime_returns_new_streak() {
    let mut c = ServiceCounters::new();
    assert_eq!(c.persist_downtime(), Ok(1));
    assert_eq!(c.persist_downtime(), Ok(2));
    assert_eq!(c.sla_count, 0);
    c.persist_sla().unwrap();
    assert_eq!(c.sla_count, 1);
}

#[test]
fn counter_at_column_limit_is_refused() {
    let mut c = ServiceCounters::new();
    c.check_count = i32::MAX;
    let before = c;
    assert_eq!(c.record(true), Err(StoreError::OutOfRange));
    assert_eq!(c, before);
    assert_eq!(c.record(false), Err(StoreError::OutOfRange));
    assert_eq!(c, before);
}

#[test]
fn sla_at_column_limit_keeps_downtime() {
    let mut c = after(&[false; 4]);
    c.sla_count = i32::MAX;
    assert_eq!(c.record(false), Err(StoreError::OutOfRange));
    assert_eq!(c.check_count, 5);
    assert_eq!(c.recurring_down, 5);
    assert_eq!(c.sla_count, i32::MAX);
}
