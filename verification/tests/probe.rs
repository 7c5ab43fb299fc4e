use hellorust::decimal::dec_str;
use hellorust::handler::{handle_request, HandlerError};
use hellorust::json::to_json;
use hellorust::params::Params;
use hellorust::response::{build_response, ResponsePayload};
use hellorust::work::simulate_work;

#[test]
fn work_counts_to_limit() {
    assert_eq!(simulate_work(0), 0);
    assert_eq!(simulate_work(1), 1);
    assert_eq!(simulate_work(12345), 12345);
}

#[test]
fn decimal_zero_is_single_digit() {
    assert_eq!(dec_str(0), "0");
}

#[test]
fn decimal_exact_values() {
    assert_eq!(dec_str(7), "7");
    assert_eq!(dec_str(10), "10");
    assert_eq!(dec_str(100000), "100000");
    assert_eq!(dec_str(1700000000), "1700000000");
    assert_eq!(dec_str(u64::MAX), "18446744073709551615");
}

#[test]
fn params_absent_defaults_to_zero() {
    assert_eq!(Params::from_query(""), Some(Params { increment_limit: 0 }));
    assert_eq!(Params::from_query("a=b&c=d"), Some(Params { increment_limit: 0 }));
    assert_eq!(Params::from_query("&&&"), Some(Params { increment_limit: 0 }));
}

#[test]
fn params_explicit_zero_equals_absent() {
    let explicit = Params::from_query("IncrementLimit=0");
    let absent = Params::from_query("");
    assert_eq!(explicit, Some(Params { increment_limit: 0 }));
    assert_eq!(explicit, absent);
}

#[test]
fn params_reads_the_value() {
    assert_eq!(
        Params::from_query("IncrementLimit=42"),
        Some(Params { increment_limit: 42 })
    );
    assert_eq!(
        Params::from_query("x=1&IncrementLimit=9&y=2"),
        Some(Params { increment_limit: 9 })
    );
    assert_eq!(
        Params::from_query("IncrementLimit=007"),
        Some(Params { increment_limit: 7 })
    );
}

#[test]
fn params_rejects_malformed_values() {
    assert_eq!(Params::from_query("IncrementLimit=abc"), None);
    assert_eq!(Params::from_query("IncrementLimit="), None);
    assert_eq!(Params::from_query("IncrementLimit"), None);
    assert_eq!(Params::from_query("IncrementLimit=1x"), None);
    assert_eq!(Params::from_query("IncrementLimit=-1"), None);
    assert_eq!(Params::from_query("IncrementLimit=+1"), None);
}

#[test]
fn params_rejects_a_repeated_key() {
    assert_eq!(Params::from_query("IncrementLimit=1&IncrementLimit=2"), None);
    assert_eq!(Params::from_query("IncrementLimit=1&IncrementLimit=1"), None);
}

#[test]
fn params_largest_value_and_overflow() {
    assert_eq!(
        Params::from_query("IncrementLimit=18446744073709551615"),
        Some(Params {
            increment_limit: u64::MAX
        })
    );
    assert_eq!(Params::from_query("IncrementLimit=18446744073709551616"), None);
    assert_eq!(
        Params::from_query("IncrementLimit=99999999999999999999999999"),
        None
    );
}

#[test]
fn response_has_placeholder_id_and_one_timestamp() {
    let p = build_response(42);
    assert_eq!(p.request_id, "google-does-not-specify");
    assert_eq!(p.timestamp_chain, vec!["42".to_string()]);
}

#[test]
fn json_exact_text() {
    let p = build_response(42);
    assert_eq!(
        to_json(&p),
        "{\"RequestID\":\"google-does-not-specify\",\"TimestampChain\":[\"42\"]}"
    );
}

#[test]
fn json_multi_entry_chain() {
    let p = ResponsePayload {
        request_id: "id".to_string(),
        timestamp_chain: vec!["1".to_string(), "2".to_string(), "3".to_string()],
    };
    assert_eq!(
        to_json(&p),
        "{\"RequestID\":\"id\",\"TimestampChain\":[\"1\",\"2\",\"3\"]}"
    );
}

#[test]
fn json_empty_chain() {
    let p = ResponsePayload {
        request_id: "id".to_string(),
        timestamp_chain: Vec::new(),
    };
    assert_eq!(to_json(&p), "{\"RequestID\":\"id\",\"TimestampChain\":[]}");
}

#[test]
fn handler_empty_query_succeeds() {
    let p = handle_request("").unwrap();
    assert_eq!(p.timestamp_chain.len(), 1);
    assert!(p.timestamp_chain[0].parse::<u64>().is_ok());
}

#[test]
fn handler_explicit_zero_matches_absent_shape() {
    let a = handle_request("").unwrap();
    let b = handle_request("IncrementLimit=0").unwrap();
    assert_eq!(a.request_id, b.request_id);
    assert_eq!(a.timestamp_chain.len(), 1);
    assert_eq!(b.timestamp_chain.len(), 1);
    assert!(b.timestamp_chain[0].parse::<u64>().is_ok());
}

#[test]
fn handler_request_id_nonempty() {
    let p = handle_request("").unwrap();
    assert!(!p.request_id.is_empty());
    assert_eq!(p.request_id, "google-does-not-specify");
}

#[test]
fn handler_rejects_malformed_limit() {
    assert_eq!(
        handle_request("IncrementLimit=abc").unwrap_err(),
        HandlerError::InvalidIncrementLimit
    );
    assert_eq!(
        handle_request("IncrementLimit=1&IncrementLimit=2").unwrap_err(),
        HandlerError::InvalidIncrementLimit
    );
}

#[test]
fn handler_timestamp_not_before_request_start() {
    let before = handle_request("").unwrap().timestamp_chain[0]
        .parse::<u64>()
        .unwrap();
    let p = handle_request("IncrementLimit=20000000").unwrap();
    let after = p.timestamp_chain[0].parse::<u64>().unwrap();
    assert!(after >= before);
}
