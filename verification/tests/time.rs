use atp_rs::errors::AtpError;
use atp_rs::time::{parse_observation_time, resolve_observation_time};

#[test]
fn observation_time_with_offset() {
    assert_eq!(parse_observation_time("2018-01-01T04:00:00Z").unwrap(), (1514779200, 0));
    assert_eq!(parse_observation_time("2018-01-01T06:00:00+02:00").unwrap(), (1514779200, 0));
    assert_eq!(parse_observation_time("2018-01-01T04:00:00.25Z").unwrap(), (1514779200, 250_000_000));
}

#[test]
fn observation_time_without_offset_is_utc() {
    assert_eq!(parse_observation_time("2018-01-01T04:00:00").unwrap(), (1514779200, 0));
    assert_eq!(parse_observation_time("1970-01-01T00:01:00").unwrap(), (60, 0));
}

#[test]
fn observation_time_error() {
    match parse_observation_time("not a time") {
        Err(AtpError::Time(m)) => {
            assert!(m.starts_with("Failed to parse time 'not a time': "));
            assert!(m.len() > "Failed to parse time 'not a time': ".len());
        }
        other => panic!("unexpected {:?}", other),
    }
}

#[test]
fn resolution_prefers_direct_reading() {
    let r = resolve_observation_time("t", Ok((5, 1)), Ok((7, 0)));
    assert_eq!(r.unwrap(), (5, 1));
    let r = resolve_observation_time("t", Err("bad".to_string()), Ok((7, 0)));
    assert_eq!(r.unwrap(), (7, 0));
    match resolve_observation_time("t", Err("first".to_string()), Err("second".to_string())) {
        Err(AtpError::Time(m)) => assert_eq!(m, "Failed to parse time 't': second"),
        other => panic!("unexpected {:?}", other),
    }
}
