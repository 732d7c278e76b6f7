use angrepa::faust::{parse_submit_answer, FaustSubmitter};
use angrepa::submitter::{dctf_status_of, status_for_roll, DummySubmitter, FlagStatus, SubmitError};
use std::str::FromStr;

#[test]
fn submitter_flag_ser_deser() {
    for status in FlagStatus::all() {
        let status_str = status.to_string();
        let status2 = FlagStatus::from_str(&status_str).unwrap();
        assert_eq!(status, status2);
    }
}

#[test]
fn status_codes() {
    assert_eq!(FlagStatus::Accepted.to_string(), "OK");
    assert_eq!(FlagStatus::Duplicate.to_string(), "DUP");
    assert_eq!(FlagStatus::Own.to_string(), "OWN");
    assert_eq!(FlagStatus::Old.to_string(), "OLD");
    assert_eq!(FlagStatus::Invalid.to_string(), "INV");
    assert_eq!(FlagStatus::Error.to_string(), "ERR");
    assert_eq!(FlagStatus::from_code("NOPE"), None);
    assert_eq!(FlagStatus::from_code_or_error("NOPE"), FlagStatus::Error);
    assert!(FlagStatus::from_str("ok").is_err());
}

#[test]
fn dctf_messages() {
    assert_eq!(dctf_status_of("Flag is too old."), FlagStatus::Old);
    assert_eq!(dctf_status_of("You cannot submit your own flag."), FlagStatus::Own);
    assert_eq!(dctf_status_of("Invalid flag format."), FlagStatus::Invalid);
    assert_eq!(dctf_status_of("Flag already submitted."), FlagStatus::Duplicate);
    assert_eq!(dctf_status_of("Flag submitted."), FlagStatus::Accepted);
    assert_eq!(dctf_status_of("Game over"), FlagStatus::Error);
}

#[test]
fn dummy_rolls() {
    assert_eq!(status_for_roll(0), FlagStatus::Accepted);
    assert_eq!(status_for_roll(49), FlagStatus::Accepted);
    assert_eq!(status_for_roll(50), FlagStatus::Duplicate);
    assert_eq!(status_for_roll(65), FlagStatus::Own);
    assert_eq!(status_for_roll(79), FlagStatus::Old);
    assert_eq!(status_for_roll(80), FlagStatus::Invalid);
    assert_eq!(status_for_roll(99), FlagStatus::Error);
    let flags = vec!["a".to_string(), "b".to_string()];
    let out = DummySubmitter {}.submit(flags);
    assert_eq!(out.len(), 2);
    assert_eq!(out[0].0, "a");
    assert_eq!(out[1].0, "b");
}

#[test]
fn line_answer_parses() {
    let answer = "  FLAG_A OK accepted\nFLAG_B DUP\nFLAG_C WHAT is this\n\n";
    let verdicts = parse_submit_answer(answer, 3).unwrap();
    assert_eq!(
        verdicts,
        vec![
            ("FLAG_A".to_string(), FlagStatus::Accepted),
            ("FLAG_B".to_string(), FlagStatus::Duplicate),
            ("FLAG_C".to_string(), FlagStatus::Error),
        ]
    );
}

#[test]
fn line_answer_format_errors() {
    assert_eq!(
        parse_submit_answer("A OK\nB OK", 3),
        Err(SubmitError::FormatError)
    );
    assert_eq!(
        parse_submit_answer("A OK\nBROKEN", 2),
        Err(SubmitError::FormatError)
    );
    assert_eq!(parse_submit_answer("", 1), Err(SubmitError::FormatError));
}

#[test]
fn line_submitter_payload() {
    let sub = FaustSubmitter::new("127.0.0.1:1337".to_string(), "\n\n".to_string());
    let flags = vec!["A".to_string(), "B".to_string()];
    assert_eq!(sub.payload(&flags), "A\nB\n");
    assert_eq!(sub.verdicts(&vec![], "garbage"), Ok(vec![]));
    assert_eq!(
        sub.verdicts(&flags, "A OK\nB OLD\n"),
        Ok(vec![
            ("A".to_string(), FlagStatus::Accepted),
            ("B".to_string(), FlagStatus::Old)
        ])
    );
}
