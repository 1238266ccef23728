//! Target classification, HTTP status classification, the HEAD/GET
//! fallback decisions, and ping-output parsing.

use cosmic_pinger::probe::{
    classify_ping_attempt, classify_target, get_outcome, head_outcome, ping_step,
    ping_success_label, summarize_http_status, HttpAttempt, PingAttempt, PingStep, TargetKind,
};

#[test]
fn classify_url_schemes() {
    assert_eq!(classify_target("http://example.com"), TargetKind::Endpoint);
    assert_eq!(classify_target("https://example.com/x"), TargetKind::Endpoint);
    assert_eq!(classify_target("google.com"), TargetKind::Host);
    assert_eq!(classify_target("1.1.1.1"), TargetKind::Host);
    assert_eq!(classify_target("httpfoo"), TargetKind::Host);
    assert_eq!(classify_target("ftp://example.com"), TargetKind::Host);
}

#[test]
fn status_codes_2xx_3xx_reachable() {
    let (ok, label) = summarize_http_status(200);
    assert!(ok);
    assert_eq!(label, "HTTP 200");
    let (ok, label) = summarize_http_status(301);
    assert!(ok);
    assert_eq!(label, "HTTP 301");
    let (ok, _) = summarize_http_status(399);
    assert!(ok);
    let (ok, label) = summarize_http_status(404);
    assert!(!ok);
    assert_eq!(label, "HTTP 404");
    let (ok, _) = summarize_http_status(500);
    assert!(!ok);
    let (ok, _) = summarize_http_status(199);
    assert!(!ok);
}

#[test]
fn head_retries_on_405_and_transport_error() {
    assert!(head_outcome(&HttpAttempt::Status(405)).is_none());
    assert!(head_outcome(&HttpAttempt::TransportFailed).is_none());
    let (ok, label) = head_outcome(&HttpAttempt::Status(204)).unwrap();
    assert!(ok);
    assert_eq!(label, "HTTP 204");
    let (ok, label) = head_outcome(&HttpAttempt::TimedOut).unwrap();
    assert!(!ok);
    assert_eq!(label, "HTTP timeout");
}

#[test]
fn get_fallback_outcomes() {
    let (ok, label) = get_outcome(&HttpAttempt::Status(503));
    assert!(!ok);
    assert_eq!(label, "HTTP 503");
    let (ok, label) = get_outcome(&HttpAttempt::TimedOut);
    assert!(!ok);
    assert_eq!(label, "HTTP timeout");
    let (ok, label) = get_outcome(&HttpAttempt::TransportFailed);
    assert!(!ok);
    assert_eq!(label, "HTTP error");
}

#[test]
fn latency_extracted_from_ping_output() {
    let out = "64 bytes from 1.1.1.1: icmp_seq=1 ttl=57 time=23.4 ms\n";
    assert_eq!(ping_success_label(out), "23.4 ms");
}

#[test]
fn latency_trimmed_and_first_marker_used() {
    assert_eq!(ping_success_label("time= 12  ms"), "12 ms");
    assert_eq!(ping_success_label("time=1.0 ms time=2.0 ms"), "1.0 ms");
}

#[test]
fn missing_latency_falls_back_to_ok() {
    assert_eq!(ping_success_label("1 packets transmitted"), "OK");
    assert_eq!(ping_success_label("time=12"), "OK");
    assert_eq!(ping_success_label(""), "OK");
}

#[test]
fn ping_retry_policy() {
    let fail = PingAttempt::Ran { exit_ok: false, stdout: String::new() };
    match ping_step(0, &fail) {
        PingStep::RetryAfterMs(ms, label) => {
            assert_eq!(ms, 500);
            assert_eq!(label, "OFFLINE");
        }
        PingStep::Done(..) => panic!("first failure should retry"),
    }
    match ping_step(1, &fail) {
        PingStep::RetryAfterMs(..) => {}
        PingStep::Done(..) => panic!("second failure should retry"),
    }
    match ping_step(2, &fail) {
        PingStep::Done(up, label) => {
            assert!(!up);
            assert_eq!(label, "OFFLINE");
        }
        PingStep::RetryAfterMs(..) => panic!("third failure should give up"),
    }
    let ok = PingAttempt::Ran { exit_ok: true, stdout: "x time=1.2 ms".to_string() };
    match ping_step(0, &ok) {
        PingStep::Done(up, label) => {
            assert!(up);
            assert_eq!(label, "1.2 ms");
        }
        PingStep::RetryAfterMs(..) => panic!("success should short-circuit"),
    }
    match ping_step(2, &PingAttempt::NotRun) {
        PingStep::Done(up, label) => {
            assert!(!up);
            assert_eq!(label, "error");
        }
        PingStep::RetryAfterMs(..) => panic!("final attempt should give up"),
    }
}

#[test]
fn ping_attempt_classification() {
    let ok = classify_ping_attempt(&PingAttempt::Ran {
        exit_ok: true,
        stdout: "x time=3.1 ms".to_string(),
    });
    assert_eq!(ok.unwrap(), "3.1 ms");
    let offline = classify_ping_attempt(&PingAttempt::Ran {
        exit_ok: false,
        stdout: String::new(),
    });
    assert_eq!(offline.unwrap_err(), "OFFLINE");
    let failed = classify_ping_attempt(&PingAttempt::NotRun);
    assert_eq!(failed.unwrap_err(), "error");
}
