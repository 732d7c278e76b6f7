use angrepa::address::{decimal_string, team_address, FaustFetcher, StatiskFetcher};

#[test]
fn team_numbers_become_addresses() {
    assert_eq!(team_address("1.20.{x}.1", 2), "1.20.2.1");
    assert_eq!(team_address("10.{x}.{x}.1", 17), "10.17.17.1");
    assert_eq!(team_address("{x", 3), "{x");
    assert_eq!(team_address("fixed", 3), "fixed");
    let f = FaustFetcher::new(
        "http://localhost:8888/teams".to_string(),
        "http://localhost:8888/scoreboard".to_string(),
        "1.20.{x}.1".to_string(),
    );
    assert_eq!(f.address(127), "1.20.127.1");
}

#[test]
fn decimal_text() {
    assert_eq!(decimal_string(0), "0");
    assert_eq!(decimal_string(-45), "-45");
    assert_eq!(decimal_string(i64::MAX), i64::MAX.to_string());
    assert_eq!(decimal_string(i64::MIN), i64::MIN.to_string());
}

#[test]
fn fixed_team_list() {
    let f = StatiskFetcher { ids: vec![1, 255] };
    assert_eq!(f.ips(), vec!["10.10.1.2", "10.10.255.2"]);
}

#[test]
fn list_style_flag_ids_go_on_current_round() {
    let ids = vec![
        serde_json::Value::String("user73".to_string()),
        serde_json::Value::String("user5".to_string()),
    ];
    let ts = FaustFetcher::team_service(271, ids.clone());
    assert_eq!(ts.ticks.len(), 1);
    assert_eq!(ts.ticks[0].0, 271);
    assert_eq!(ts.ticks[0].1, ids);
}

use angrepa::adapters::{ConfigError, ConfigValue, Fetchers, Submitters};

fn fields(v: Vec<(&str, Option<&str>)>) -> Vec<(String, ConfigValue)> {
    v.into_iter()
        .map(|(k, val)| {
            (
                k.to_string(),
                match val {
                    Some(s) => ConfigValue::Str(s.to_string()),
                    None => ConfigValue::Other,
                },
            )
        })
        .collect()
}

#[test]
fn fetcher_from_conf() {
    assert!(matches!(Fetchers::from_conf("dummy", &vec![]), Ok(Fetchers::Dummy(_))));
    let f = fields(vec![
        ("teams", Some("http://gs/teams")),
        ("scoreboard", Some("http://gs/scoreboard")),
        ("format", Some("10.0.{x}.1")),
    ]);
    match Fetchers::from_conf("faust", &f) {
        Ok(Fetchers::Faust(ff)) => {
            assert_eq!(ff.teams, "http://gs/teams");
            assert_eq!(ff.scoreboard, "http://gs/scoreboard");
            assert_eq!(ff.format, "10.0.{x}.1");
        }
        _ => panic!("expected the list-style fetcher"),
    }
    let f = fields(vec![("teams", Some("t")), ("scoreboard", None)]);
    assert_eq!(
        Fetchers::from_conf("faust", &f).err(),
        Some(ConfigError::NotAString("scoreboard".to_string()))
    );
    let f = fields(vec![("endpoint", Some("http://gs/"))]);
    assert_eq!(
        Fetchers::from_conf("enowars", &f).err(),
        Some(ConfigError::Missing("ips".to_string()))
    );
    let f = fields(vec![("endpoint", Some("e")), ("ips", Some("i"))]);
    match Fetchers::from_conf("enowars", &f) {
        Ok(Fetchers::Enowars(e)) => {
            assert_eq!(e.endpoint, "e");
            assert_eq!(e.ips_endpoint, "i");
        }
        _ => panic!("expected the tick-keyed fetcher"),
    }
    assert_eq!(
        Fetchers::from_conf("ecsc", &vec![]).err(),
        Some(ConfigError::UnknownFetcher("ecsc".to_string()))
    );
}

#[test]
fn submitter_from_conf() {
    assert!(matches!(Submitters::from_conf("dummy", &vec![]), Ok(Submitters::Dummy(_))));
    match Submitters::from_conf("faust", &fields(vec![("host", Some("10.0.0.1:31337"))])) {
        Ok(Submitters::Faust(f)) => assert_eq!(f.host, "10.0.0.1:31337"),
        _ => panic!("expected the line submitter"),
    }
    assert_eq!(
        Submitters::from_conf("faust", &vec![]).err(),
        Some(ConfigError::Missing("host".to_string()))
    );
    match Submitters::from_conf("dctf", &fields(vec![("url", Some("u")), ("cookie", Some("c"))])) {
        Ok(Submitters::Dctf(d)) => {
            assert_eq!(d.url, "u");
            assert_eq!(d.cookie, "c");
        }
        _ => panic!("expected the dctf submitter"),
    }
    assert_eq!(
        Submitters::from_conf("dctf", &fields(vec![("url", Some("u"))])).err(),
        Some(ConfigError::Missing("cookie".to_string()))
    );
    assert_eq!(
        Submitters::from_conf("x", &vec![]).err(),
        Some(ConfigError::UnknownSubmitter("x".to_string()))
    );
}
