use angrepa::execution::{exploit_env, execution_record, extract_flags, flag_rows, RunOutcome};
use angrepa::handler::{chunk, HandedOff, CHUNK_SIZE};
use angrepa::natural::sort_by_natural_key;
use angrepa::targets::{earliest_valid_time, eligible_targets, get_exploitable_targets_updating};
use angrepa::types::{Execution, Exploit, Flag, Target};
use angrepa::views::ExploitData;

fn target(id: i32, service: &str, team: &str, created_at: i64) -> Target {
    Target {
        id,
        flag_id: String::new(),
        service: service.to_string(),
        team: team.to_string(),
        created_at,
        target_tick: 1,
    }
}

fn exploit(id: i32, service: &str, blacklist: Vec<&str>, enabled: bool) -> Exploit {
    Exploit {
        id,
        name: format!("exploit{id}"),
        service: service.to_string(),
        blacklist: blacklist.into_iter().map(String::from).collect(),
        enabled,
        docker_image: "img".to_string(),
        docker_containers: vec!["c1".to_string()],
        pool_size: 1,
    }
}

fn execution(exploit_id: i32, target_id: i32, finished_at: i64) -> Execution {
    Execution {
        id: 1,
        exploit_id,
        output: String::new(),
        exit_code: 0,
        started_at: finished_at - 1,
        finished_at,
        target_id,
    }
}

fn flag(id: i32, text: &str) -> Flag {
    Flag {
        id,
        text: text.to_string(),
        status: String::new(),
        submitted: false,
        timestamp: 0,
        execution_id: 1,
        exploit_id: 1,
    }
}

#[test]
fn oldest_valid_time() {
    // half a round short of 5 rounds of 60 s: 270 s
    assert_eq!(earliest_valid_time(1_000_000, 5, 60), 1_000_000 - 270_000);
    assert_eq!(earliest_valid_time(0, 1, 1), -500);
}

#[test]
fn eligibility_filters_and_orders() {
    let e = exploit(1, "svc1", vec!["10.0.3.1"], true);
    let targets = vec![
        target(1, "svc1", "10.0.10.1", 100),
        target(2, "svc1", "10.0.9.1", 100),
        target(3, "svc2", "10.0.1.1", 100),
        target(4, "svc1", "10.0.3.1", 100),
        target(5, "svc1", "10.0.1.1", 50),
        target(6, "svc1", "10.0.2.1", 10),
        target(7, "svc1", "10.0.4.1", 90),
    ];
    // target 7 was attacked inside the window, target 5 by another exploit
    let execs = vec![execution(1, 7, 60), execution(2, 5, 60)];
    let got: Vec<i32> = eligible_targets(&e, &targets, &execs, 20)
        .iter()
        .map(|t| t.id)
        .collect();
    assert_eq!(got, vec![5, 2, 1]);
    // an execution before the window does not count
    let execs = vec![execution(1, 7, 19)];
    let got: Vec<i32> = eligible_targets(&e, &targets, &execs, 20)
        .iter()
        .map(|t| t.id)
        .collect();
    assert_eq!(got, vec![5, 7, 2, 1]);
}

#[test]
fn requery_after_execution_is_strict_subset() {
    let e = exploit(1, "svc1", vec![], true);
    let targets = vec![target(1, "svc1", "10.0.1.1", 100), target(2, "svc1", "10.0.2.1", 100)];
    let mut execs = vec![];
    let before: Vec<i32> = eligible_targets(&e, &targets, &execs, 0).iter().map(|t| t.id).collect();
    assert_eq!(before, vec![1, 2]);
    execs.push(execution(1, 1, 150));
    let after: Vec<i32> = eligible_targets(&e, &targets, &execs, 0).iter().map(|t| t.id).collect();
    assert_eq!(after, vec![2]);
}

#[test]
fn only_enabled_exploits_are_swept() {
    let exploits = vec![
        exploit(1, "svc1", vec![], false),
        exploit(2, "svc1", vec![], true),
        exploit(3, "svc2", vec![], true),
    ];
    let targets = vec![target(1, "svc1", "10.0.1.1", 100)];
    let swept = get_exploitable_targets_updating(&exploits, &targets, &vec![], 0);
    assert_eq!(swept.len(), 2);
    assert_eq!(swept[0].exploit, 1);
    assert_eq!(swept[0].targets.len(), 1);
    assert_eq!(swept[1].exploit, 2);
    assert_eq!(swept[1].targets.len(), 0);
}

#[test]
fn natural_order_of_teams() {
    let sorted: Vec<String> = sort_by_natural_key(vec![
        target(1, "s", "10.0.10.1", 0),
        target(2, "s", "10.0.9.1", 0),
        target(3, "s", "10.0.1.1", 0),
    ])
    .into_iter()
    .map(|t| t.team)
    .collect();
    assert_eq!(sorted, vec!["10.0.1.1", "10.0.9.1", "10.0.10.1"]);
}

#[test]
fn names_outside_natural_domain_do_not_panic() {
    let long = "1".repeat(25);
    let sorted = sort_by_natural_key(vec![
        target(1, "s", &long, 0),
        target(2, "s", "10.0.1.1", 0),
        target(3, "s", "ünïcode", 0),
    ]);
    assert_eq!(sorted.len(), 3);
}

#[test]
fn successful_attack_records_one_flag() {
    let raw = "pwned\0 ABC_deadbeef01\nagain ABC_deadbeef01\n";
    let rec = execution_record(1, 7, raw, RunOutcome::Exited(0), 1000, 2000);
    assert_eq!(rec.output, "pwned ABC_deadbeef01\nagain ABC_deadbeef01\n");
    assert_eq!(rec.exit_code, 0);
    assert_eq!(rec.finished_at, 2000);
    let flags = extract_flags("ABC_[0-9a-f]{10}", &rec.output);
    assert_eq!(flags, vec!["ABC_deadbeef01".to_string()]);
    let rows = flag_rows(flags, 11, 1, 2000);
    assert_eq!(rows.len(), 1);
    assert_eq!(rows[0].text, "ABC_deadbeef01");
    assert_eq!(rows[0].status, "");
    assert!(!rows[0].submitted);
    assert_eq!(rows[0].execution_id, 11);
}

#[test]
fn soft_timeout_records_marker() {
    let rec = execution_record(2, 7, "still running", RunOutcome::TimedOut, 1000, 31000);
    assert!(rec.output.starts_with("still running"));
    assert!(rec.output.contains("listener killed due to timeout"));
    assert_eq!(rec.exit_code, 0);
    assert_eq!(rec.finished_at - rec.started_at, 30000);
    assert!(extract_flags("ABC_[0-9a-f]{10}", &rec.output).is_empty());
}

#[test]
fn execution_keeps_exit_code_and_clock_order() {
    let rec = execution_record(2, 7, "x", RunOutcome::Exited(3), 1000, 900);
    assert_eq!(rec.exit_code, 3);
    assert_eq!(rec.finished_at, 1000);
}

#[test]
fn invalid_pattern_extracts_nothing() {
    assert!(extract_flags("ABC_[", "ABC_deadbeef01").is_empty());
}

#[test]
fn distinct_flags_in_order() {
    let flags = extract_flags("F[0-9]", "F1 F2 F1 F3 F2");
    assert_eq!(flags, vec!["F1", "F2", "F3"]);
}

#[test]
fn exploit_environment() {
    assert_eq!(exploit_env("10.0.1.1", "\"u\""), vec!["IP=10.0.1.1", "FLAG_ID=\"u\""]);
    assert_eq!(exploit_env("10.0.1.1", ""), vec!["IP=10.0.1.1", "FLAG_ID="]);
}

#[test]
fn submission_cycle() {
    let mut handed = HandedOff::new();
    let unsubmitted = vec![flag(9, "ABC_deadbeef01")];
    let plan = handed.plan_submission(&unsubmitted);
    assert_eq!(plan.mark_submitted, vec![9]);
    assert_eq!(plan.chunks, vec![vec!["ABC_deadbeef01".to_string()]]);
    // an overlapping firing that still sees the row unsubmitted hands it off no more
    let again = handed.plan_submission(&unsubmitted);
    assert!(again.mark_submitted.is_empty());
    assert!(again.chunks.is_empty());
}

#[test]
fn batches_of_at_most_chunk_size() {
    let texts: Vec<String> = (0..320).map(|i| format!("F{i}")).collect();
    let chunks = chunk(texts.clone(), CHUNK_SIZE);
    assert_eq!(chunks.len(), 3);
    assert_eq!(chunks[0].len(), 150);
    assert_eq!(chunks[1].len(), 150);
    assert_eq!(chunks[2].len(), 20);
    assert_eq!(chunks.concat(), texts);
    assert!(chunk(vec![], CHUNK_SIZE).is_empty());
    let mut handed = HandedOff::new();
    let flags: Vec<Flag> = (0..151).map(|i| flag(i, &format!("F{i}"))).collect();
    let plan = handed.plan_submission(&flags);
    assert_eq!(plan.mark_submitted.len(), 151);
    assert_eq!(plan.chunks.len(), 2);
    assert_eq!(plan.chunks[1], vec!["F150".to_string()]);
}

#[test]
fn exploit_blacklist_as_line() {
    let data = ExploitData::from_model(exploit(4, "svc1", vec!["10.0.1.1", "10.0.2.1"], true));
    assert_eq!(data.blacklist, "10.0.1.1, 10.0.2.1");
    assert_eq!(data.id, 4);
    let data = ExploitData::from_model(exploit(5, "svc1", vec![], false));
    assert_eq!(data.blacklist, "");
}
