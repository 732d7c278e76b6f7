use angrepa::config::{Common, Database};

fn game_start() -> i64 {
    chrono::NaiveDate::from_ymd_opt(2020, 1, 1)
        .unwrap()
        .and_hms_opt(5, 0, 0)
        .unwrap()
        .and_utc()
        .timestamp()
}

fn common(services: Vec<&str>, without: Vec<&str>, rename: Option<Vec<(&str, &str)>>) -> Common {
    Common {
        tick: 60,
        format: "".to_string(),
        start: game_start(),
        services: services.into_iter().map(String::from).collect(),
        services_without_flagid: without.into_iter().map(String::from).collect(),
        flag_validity: 10,
        rename: rename.map(|m| {
            m.into_iter()
                .map(|(a, b)| (a.to_string(), b.to_string()))
                .collect()
        }),
        nop: None,
        own: None,
    }
}

#[test]
fn config_tick_rounding() {
    // the game starts at 2020-01-01 05:00
    let common = common(vec![], vec![], None);

    // exactly at start
    assert_eq!(common.current_tick(common.start), 0);
    // right before start
    assert_eq!(common.current_tick(common.start - 1), -1);
    // right after start
    assert_eq!(common.current_tick(common.start + 1), 0);
    // exactly one hour after start
    assert_eq!(common.current_tick(common.start + 3600), 60);
    // 59 minutes, 59 seconds after start
    assert_eq!(common.current_tick(common.start + 59 * 60 + 59), 59);
    // one hour before start
    assert_eq!(common.current_tick(common.start - 3600), -60);
}

#[test]
fn clean_round_tick() {
    let common = common(vec!["svc1"], vec![], None);
    assert_eq!(common.current_tick(common.start + 65), 1);
}

#[test]
fn tick_boundaries() {
    let common = common(vec![], vec![], None);
    for n in 0..100i64 {
        assert_eq!(common.current_tick(common.start + n * 60), n);
        assert_eq!(common.current_tick(common.start + n * 60 - 1), n - 1);
    }
}

#[test]
fn next_firing_skips_backlog() {
    let clock = common(vec![], vec![], None).clock();
    let start = clock.start;
    // at start with an offset of 6s, the next firing is 6s in
    assert_eq!(clock.next_firing(6, start), Some(start + 6));
    // exactly on a firing, the next one is a round later
    assert_eq!(clock.next_firing(6, start + 6), Some(start + 66));
    // far behind: the next boundary, not the missed ones
    assert_eq!(clock.next_firing(6, start + 1000), Some(start + 1026));
    // before the start
    assert_eq!(clock.next_firing(0, start - 61), Some(start - 60));
}

#[test]
fn seconds_until_start_counts_down() {
    let clock = common(vec![], vec![], None).clock();
    assert_eq!(clock.seconds_until_start(clock.start - 90), 90);
    assert_eq!(clock.seconds_until_start(clock.start), 0);
    assert_eq!(clock.seconds_until_start(clock.start + 5), 0);
}

#[test]
fn common_timer_and_start() {
    let common = common(vec![], vec![], None);
    assert_eq!(common.get_tick_interval(1, common.start + 30), Some(common.start + 61));
    assert_eq!(common.sleep_until_start(common.start - 10), 10);
    assert_eq!(common.sleep_until_start(common.start + 10), 0);
}

#[test]
fn services_are_renamed() {
    let common = common(
        vec!["a", "b"],
        vec!["c"],
        Some(vec![("a", "alpha"), ("x", "y")]),
    );
    let mut flagid = common.flagid_services_with_renames();
    flagid.sort();
    assert_eq!(flagid, vec!["alpha".to_string(), "b".to_string()]);
    let mut all = common.services_with_renames();
    all.sort();
    assert_eq!(
        all,
        vec!["alpha".to_string(), "b".to_string(), "c".to_string()]
    );
}

#[test]
fn database_url() {
    let db = Database {
        username: "user".to_string(),
        password: "pw".to_string(),
        host: "localhost:5432".to_string(),
        db: "angrepa".to_string(),
    };
    assert_eq!(db.url(), "postgres://user:pw@localhost:5432/angrepa");
}
