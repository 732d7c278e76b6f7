use angrepa::config::Common;
use angrepa::fetcher::{
    compare_services, default_team_name, plan_round, RoundPlan, Service, ServiceMap, TeamService,
};
use angrepa::seen::SeenFlagIds;

const START: i64 = 1_577_854_800; // 2020-01-01T05:00:00Z

fn common(services: Vec<&str>, without: Vec<&str>) -> Common {
    Common {
        tick: 60,
        format: "ABC_[0-9a-f]{10}".to_string(),
        start: START,
        services: services.into_iter().map(String::from).collect(),
        services_without_flagid: without.into_iter().map(String::from).collect(),
        flag_validity: 5,
        rename: None,
        nop: None,
        own: None,
    }
}

fn one_team(service: &str, team: &str, tick: i32, ids: Vec<serde_json::Value>) -> ServiceMap {
    ServiceMap(vec![(
        service.to_string(),
        Service {
            teams: vec![(
                team.to_string(),
                TeamService {
                    ticks: vec![(tick, ids)],
                },
            )],
        },
    )])
}

fn strings(v: &[&str]) -> Vec<String> {
    v.iter().map(|s| s.to_string()).collect()
}

#[test]
fn clean_round_then_dedup() {
    let common = common(vec!["svc1"], vec![]);
    let now = START + 65;
    let tick = common.current_tick(now);
    assert_eq!(tick, 1);
    let mut seen = SeenFlagIds::new();
    let map = one_team("svc1", "10.0.1.1", 1, vec![serde_json::Value::String("u".into())]);
    match plan_round(&mut seen, &common, map, &vec![], tick as i32, now * 1000) {
        RoundPlan::Insert { targets, tried, skipped } => {
            assert_eq!(targets.len(), 1);
            assert_eq!(targets[0].target_tick, 1);
            assert_eq!(targets[0].flag_id, "\"u\"");
            assert_eq!(targets[0].service, "svc1");
            assert_eq!(targets[0].team, "10.0.1.1");
            assert_eq!(targets[0].created_at, now * 1000);
            assert_eq!(tried, 1);
            assert_eq!(skipped, 0);
        }
        RoundPlan::Skip(_) => panic!("round skipped"),
    }
    // the next round publishes the same flag id again
    let map = one_team("svc1", "10.0.1.1", 1, vec![serde_json::Value::String("u".into())]);
    match plan_round(&mut seen, &common, map, &vec![], 2, (now + 60) * 1000) {
        RoundPlan::Insert { targets, tried, skipped } => {
            assert_eq!(targets.len(), 0);
            assert_eq!(tried, 1);
            assert_eq!(skipped, 1);
        }
        RoundPlan::Skip(_) => panic!("round skipped"),
    }
}

#[test]
fn service_set_disagreement_skips_round() {
    let common = common(vec!["a", "c"], vec![]);
    let mut seen = SeenFlagIds::new();
    let map = ServiceMap(vec![
        ("a".to_string(), Service { teams: vec![] }),
        ("b".to_string(), Service { teams: vec![] }),
    ]);
    match plan_round(&mut seen, &common, map, &strings(&["10.0.1.1"]), 1, 0) {
        RoundPlan::Skip(m) => {
            assert_eq!(m.missing, strings(&["c"]));
            assert_eq!(m.extra, strings(&["b"]));
        }
        RoundPlan::Insert { .. } => panic!("round not skipped"),
    }
    assert_eq!(seen.keys.len(), 0);
}

#[test]
fn compare_services_agrees_on_equal_sets() {
    assert!(compare_services(&strings(&["a", "b", "a"]), &strings(&["b", "a"])).is_none());
    let m = compare_services(&strings(&["a"]), &strings(&[])).unwrap();
    assert_eq!(m.missing.len(), 0);
    assert_eq!(m.extra, strings(&["a"]));
}

#[test]
fn services_without_flag_ids_every_round() {
    let common = common(vec![], vec!["web", "db"]);
    let mut seen = SeenFlagIds::new();
    let ips = strings(&["10.0.1.1", "10.0.2.1"]);
    for round in 0..2 {
        match plan_round(&mut seen, &common, ServiceMap(vec![]), &ips, round, 5) {
            RoundPlan::Insert { targets, .. } => {
                let got: Vec<(String, String, String, i32)> = targets
                    .into_iter()
                    .map(|t| (t.service, t.team, t.flag_id, t.target_tick))
                    .collect();
                assert_eq!(
                    got,
                    vec![
                        ("web".into(), "10.0.1.1".into(), "".into(), round),
                        ("web".into(), "10.0.2.1".into(), "".into(), round),
                        ("db".into(), "10.0.1.1".into(), "".into(), round),
                        ("db".into(), "10.0.2.1".into(), "".into(), round),
                    ]
                );
            }
            RoundPlan::Skip(_) => panic!("round skipped"),
        }
    }
}

#[test]
fn renamed_services_and_natural_team_order() {
    let mut common = common(vec!["svc"], vec![]);
    common.rename = Some(vec![("upstream".to_string(), "svc".to_string())]);
    let mut seen = SeenFlagIds::new();
    let team = |ids: Vec<&str>| TeamService {
        ticks: vec![(
            3,
            ids.into_iter()
                .map(|s| serde_json::Value::String(s.to_string()))
                .collect(),
        )],
    };
    let map = ServiceMap(vec![(
        "upstream".to_string(),
        Service {
            teams: vec![
                ("10.0.10.1".to_string(), team(vec!["x"])),
                ("10.0.9.1".to_string(), team(vec!["y", "y"])),
            ],
        },
    )]);
    match plan_round(&mut seen, &common, map, &vec![], 3, 0) {
        RoundPlan::Insert { targets, tried, skipped } => {
            let got: Vec<(String, String, String)> = targets
                .into_iter()
                .map(|t| (t.service, t.team, t.flag_id))
                .collect();
            assert_eq!(
                got,
                vec![
                    ("svc".into(), "10.0.9.1".into(), "\"y\"".into()),
                    ("svc".into(), "10.0.10.1".into(), "\"x\"".into()),
                ]
            );
            assert_eq!(tried, 3);
            assert_eq!(skipped, 1);
        }
        RoundPlan::Skip(_) => panic!("round skipped"),
    }
}

#[test]
fn default_team_names() {
    let nop = Some("10.0.0.1".to_string());
    let own = Some("10.0.0.2".to_string());
    assert_eq!(default_team_name(&"10.0.0.1".to_string(), &nop, &own), Some("nop".to_string()));
    assert_eq!(default_team_name(&"10.0.0.2".to_string(), &nop, &own), Some("own".to_string()));
    assert_eq!(default_team_name(&"10.0.0.3".to_string(), &nop, &own), None);
}
