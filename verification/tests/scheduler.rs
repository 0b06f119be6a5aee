use hugr::scheduler::{CronExpr, Schedule, ScheduleError, TriggerTarget};

fn s(t: &str) -> String {
    t.to_string()
}

#[test]
fn every_cadences_parse_to_seconds() {
    let c = CronExpr::parse("@every 10s").unwrap();
    assert_eq!(c.interval(), 10);
    assert_eq!(c.source(), "@every 10s");
    assert_eq!(CronExpr::parse("@every 5m").unwrap().interval(), 300);
    assert_eq!(CronExpr::parse("@every 1h").unwrap().interval(), 3600);
    assert_eq!(CronExpr::parse("@every 45").unwrap().interval(), 45);
}

#[test]
fn zero_durations_count_as_one_unit() {
    assert_eq!(CronExpr::parse("@every 0s").unwrap().interval(), 1);
    assert_eq!(CronExpr::parse("@every 0m").unwrap().interval(), 60);
    assert_eq!(CronExpr::parse("*/0 * * * *").unwrap().interval(), 60);
}

#[test]
fn cron_fields_parse_to_minutes() {
    assert_eq!(CronExpr::parse("* * * * *").unwrap().interval(), 60);
    let c = CronExpr::parse("  */5 * * * *  ").unwrap();
    assert_eq!(c.interval(), 300);
    assert_eq!(c.source(), "*/5 * * * *");
}

#[test]
fn malformed_cadences_are_refused() {
    assert_eq!(CronExpr::parse("@every 5x"), Err(ScheduleError::InvalidDuration(s("5x"))));
    assert_eq!(CronExpr::parse("@every "), Err(ScheduleError::InvalidCron(s("@every"))));
    assert_eq!(CronExpr::parse("@every m"), Err(ScheduleError::InvalidDuration(s("m"))));
    assert_eq!(CronExpr::parse("*/x * * * *"), Err(ScheduleError::InvalidCron(s("*/x * * * *"))));
    assert_eq!(CronExpr::parse("1 * * * *"), Err(ScheduleError::InvalidCron(s("1 * * * *"))));
    assert_eq!(CronExpr::parse("* * * *"), Err(ScheduleError::InvalidCron(s("* * * *"))));
    assert_eq!(CronExpr::parse("* * * * 1"), Err(ScheduleError::InvalidCron(s("* * * * 1"))));
}

#[test]
fn overflowing_intervals_are_detected() {
    assert!(CronExpr::interval_overflows("@every 18446744073709551615h"));
    assert!(CronExpr::interval_overflows("*/18446744073709551615 * * * *"));
    assert!(!CronExpr::interval_overflows("@every 10s"));
}

#[test]
fn trigger_targets_map_to_trace_paths() {
    let named = TriggerTarget::NamedPersistent { dir: s("/traces"), name: s("daily") };
    assert_eq!(named.trace_path(), "/traces/daily.trace.json");
    assert!(named.resumes(true));
    assert!(!named.resumes(false));
    let fresh = TriggerTarget::FreshSession { trace: s("/t/new.json") };
    assert_eq!(fresh.trace_path(), "/t/new.json");
    assert!(!fresh.resumes(true));
    let existing = TriggerTarget::ResumeExisting { trace: s("/t/old.json") };
    assert_eq!(existing.trace_path(), "/t/old.json");
    assert!(existing.resumes(false));
}

#[test]
fn schedules_keep_their_parts() {
    let cron = CronExpr::parse("@every 1h").unwrap();
    let target = TriggerTarget::FreshSession { trace: s("/t/a.json") };
    let sched = Schedule::new(cron, target, s("summarize the inbox"));
    assert_eq!(sched.cron.interval(), 3600);
    assert_eq!(sched.prompt, "summarize the inbox");
    assert_eq!(sched.target, TriggerTarget::FreshSession { trace: s("/t/a.json") });
}

#[test]
fn a_parsed_source_parses_back_to_itself() {
    for input in ["  @every 10s ", "*/5  *  * * *", "@every  3h"] {
        let c = CronExpr::parse(input).unwrap();
        let again = CronExpr::parse(c.source()).unwrap();
        assert_eq!(again.source(), c.source());
        assert_eq!(again.interval(), c.interval());
        assert!(c.interval() >= 1);
    }
}
