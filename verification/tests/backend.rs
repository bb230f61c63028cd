use oh_mcp_lindas::backend::{
    body_fault, boolean, bindings, call_fault, classes_of, connect_target, describe_body_class,
    describe_class, iri_safe, literal_safe, normalise_value, select_body_class, select_class,
    Request, Served, DESCRIBE_TIMEOUT_SECS, ENDPOINT_HOST, LINDAS_ENDPOINT, SELECT_TIMEOUT_SECS,
    USER_AGENT,
};
use oh_mcp_lindas::json::Json;
use oh_mcp_lindas::throttle::{busy_retry_after_ms, FrozenClock, UpstreamBusy, DEFAULT_UPSTREAM_MAX_WAIT_SECS};

fn obj(fields: Vec<(&str, Json)>) -> Json {
    Json::Obj(fields.into_iter().map(|(k, v)| (k.to_string(), v)).collect())
}

/// The bounds are the caller's patience, and every refusal names its
/// class and its bound.
#[test]
fn the_timeout_constants_bound_every_live_request() {
    assert_eq!(SELECT_TIMEOUT_SECS, 15);
    assert_eq!(DESCRIBE_TIMEOUT_SECS, 30);
    assert!(SELECT_TIMEOUT_SECS >= DEFAULT_UPSTREAM_MAX_WAIT_SECS + 5);
    assert!(DESCRIBE_TIMEOUT_SECS >= DEFAULT_UPSTREAM_MAX_WAIT_SECS + 5);
    assert!(DESCRIBE_TIMEOUT_SECS > SELECT_TIMEOUT_SECS);
    assert_eq!(select_class(), "SPARQL select (timeout 15 s)");
    assert_eq!(select_body_class(), "SPARQL result body (select, timeout 15 s)");
    assert_eq!(describe_class(), "SPARQL describe (timeout 30 s)");
    assert_eq!(describe_body_class(), "SPARQL result body (describe, timeout 30 s)");
    assert_eq!(classes_of(DESCRIBE_TIMEOUT_SECS), (describe_class(), describe_body_class()));
    assert_eq!(classes_of(SELECT_TIMEOUT_SECS), (select_class(), select_body_class()));
    assert!(USER_AGENT.contains("openhelvetia.swiss"));
    assert!(USER_AGENT.starts_with("oh-mcp-lindas/"));
}

/// A connect target that is not the one host is refused before any
/// request.
#[test]
fn only_one_host_is_ever_a_connect_target() {
    let refused = connect_target("https://evil.example/query").expect_err("a foreign host is refused");
    assert!(refused.contains("not the one host"), "{refused}");
    assert!(connect_target(LINDAS_ENDPOINT).is_ok());
    assert!(ENDPOINT_HOST.starts_with("https://"));
    assert!(LINDAS_ENDPOINT.starts_with(ENDPOINT_HOST));
}

/// A value out of an answer is normalised before it is used again: the
/// endpoint's CSV is CRLF.
#[test]
fn a_value_from_an_answer_is_normalised_before_it_is_reused() {
    assert_eq!(
        normalise_value("https://politics.ld.admin.ch/fc/cube-president\r\n"),
        "https://politics.ld.admin.ch/fc/cube-president"
    );
    assert_eq!(normalise_value("  spaced  "), "spaced");
    assert_eq!(normalise_value("\u{feff}iri"), "iri");
}

/// An IRI is checked for SHAPE, never for host — a foreign IRI is a
/// legitimate subject.
#[test]
fn an_iri_is_checked_for_shape_and_not_for_host() {
    assert!(iri_safe("https://register.ld.admin.ch/i14y/concept/sex/2").is_ok());
    assert!(iri_safe("https://ld.admin.ch/canton/12").is_ok());
    assert!(iri_safe("not-an-iri").is_err());
    assert!(iri_safe("https://a.example/x y").is_err());
    assert!(iri_safe("https://a.example/x>y").is_err());
    assert!(iri_safe("").is_err());
}

#[test]
fn a_checked_iri_is_trimmed_and_checks_as_itself() {
    let t = iri_safe("  https://ld.admin.ch/canton/1 ").expect("an IRI");
    assert_eq!(t, "https://ld.admin.ch/canton/1");
    assert_eq!(iri_safe(&t), Ok(t.clone()));
    assert_eq!(iri_safe("").unwrap_err(), "an IRI is required");
    assert_eq!(iri_safe("ftp://x").unwrap_err(), "«ftp://x» is no IRI (http/https expected)");
    assert_eq!(
        iri_safe("https://a.example/x|y").unwrap_err(),
        "«https://a.example/x|y» carries characters that cannot stand in an IRI"
    );
}

#[test]
fn a_literal_is_escaped_and_never_breaks_a_line() {
    assert_eq!(literal_safe("a\"b\\c\nd\re"), "a\\\"b\\\\c d e");
    assert!(!literal_safe("x\ny").contains('\n'));
}

#[test]
fn a_status_of_the_request_is_told_apart_from_an_outage() {
    assert_eq!(call_fault(Some(406), "SPARQL select (timeout 15 s)", "x"), "bad-request: HTTP 406");
    assert_eq!(call_fault(Some(400), "c", "x"), "bad-request: HTTP 400");
    assert_eq!(
        call_fault(Some(503), "SPARQL select (timeout 15 s)", "status 503"),
        "upstream-unavailable: SPARQL select (timeout 15 s): status 503"
    );
    assert_eq!(call_fault(None, "c", "timeout"), "upstream-unavailable: c: timeout");
    assert_eq!(body_fault("b", "eof"), "upstream-unavailable: b: eof");
}

#[test]
fn a_select_answer_has_bindings_and_an_ask_answer_a_boolean() {
    let select = obj(vec![("results", obj(vec![("bindings", Json::Arr(vec![Json::Null]))]))]);
    assert_eq!(bindings(&select).map(|b| b.len()), Ok(1));
    assert_eq!(
        bindings(&Json::Null).unwrap_err(),
        "upstream-unavailable: no bindings in the answer"
    );
    assert_eq!(boolean(&obj(vec![("boolean", Json::Bool(false))])), Ok(false));
    assert_eq!(
        boolean(&select).unwrap_err(),
        "upstream-unavailable: no boolean in the answer"
    );
}

#[test]
fn a_request_runs_under_the_bound_of_its_class() {
    let narrow = Request { key: "k".to_string(), query: "q".to_string(), wide: false };
    let wide = Request { key: "k".to_string(), query: "q".to_string(), wide: true };
    assert_eq!(narrow.timeout_secs(), SELECT_TIMEOUT_SECS);
    assert_eq!(wide.timeout_secs(), DESCRIBE_TIMEOUT_SECS);
    assert_eq!(Served::Live.as_str(), "live");
    assert_eq!(Served::Fixture.as_str(), "fixture");
}

/// The brake's refusal carries a machine-readable retry.
#[test]
fn the_retry_is_read_back_from_the_busy_text() {
    assert_eq!(
        busy_retry_after_ms("upstream-busy: retry_after_ms=1500: the polite brake against lindas.admin.ch"),
        Some(1500)
    );
    assert_eq!(busy_retry_after_ms("upstream-unavailable: x"), None);
    let busy = UpstreamBusy { retry_after_ms: 1200 };
    assert_eq!(busy.retry_after_ms, 1200);
}

#[test]
fn a_frozen_clock_records_its_sleeps_and_moves_only_when_advanced() {
    let mut clock = FrozenClock::new();
    assert_eq!(clock.now(), 0);
    clock.sleep(250);
    clock.sleep(100);
    assert_eq!(clock.now(), 0, "sleeping does not move the frozen clock");
    assert_eq!(clock.sleeps(), vec![250, 100]);
    clock.advance(40);
    assert_eq!(clock.now(), 40);
}

/// A refusal gives back the retry it was written with, whatever follows
/// the digits.
#[test]
fn a_busy_refusal_gives_back_its_retry() {
    for ms in [0u64, 7, 1500, u64::MAX] {
        assert_eq!(busy_retry_after_ms(&format!("upstream-busy: retry_after_ms={ms}: the polite brake")), Some(ms));
        assert_eq!(busy_retry_after_ms(&format!("upstream-busy: retry_after_ms={ms}")), Some(ms));
    }
}
