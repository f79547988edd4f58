use radar::catalog::read_service_probes;
use radar::error::RadarError;
use radar::output::RadarOutput;
use radar::scan::{
    scan_from_outcomes, run_probe_pass, needs_tls_rescan, Detection, ProbeOutcome, ProbeScan,
    Target,
};

fn lines(v: &[&str]) -> Vec<Vec<u8>> {
    v.iter().map(|s| s.as_bytes().to_vec()).collect()
}

fn target() -> Target {
    Target { ip: "192.0.2.7".to_owned(), domain: None, port: 22 }
}

fn shape(r: Result<Detection, RadarError>) -> RadarOutput {
    RadarOutput::from_scan_result(target(), r, 1_700_000_000)
}

#[test]
fn null_probe_happy_path() {
    let catalog = read_service_probes(&lines(&["Probe TCP NULL q||", "match ssh m|^SSH-|"]))
        .unwrap();
    let outer = vec![ProbeOutcome::Response(b"SSH-2.0-Test\r\n".to_vec())];
    let inner = vec![ProbeOutcome::ReadTimedOut];
    let out = shape(scan_from_outcomes(&catalog.tcp_probes, &outer, &inner));

    assert_eq!(out.tls, Some(false));
    assert_eq!(out.service_match.as_ref().unwrap().service, b"ssh");
    assert_eq!(out.response.as_deref(), Some("U1NILTIuMC1UZXN0DQo="));
    assert_eq!(out.response, Some(base64::encode(b"SSH-2.0-Test\r\n")));
    assert_eq!(out.error, None);
    assert_eq!(out.tls_error, None);
    assert_eq!(out.tls_response, None);
    assert_eq!(out.timestamp, 1_700_000_000);
    assert_eq!(out.target.ip, "192.0.2.7");
}

#[test]
fn fallback_across_probes() {
    let catalog = read_service_probes(&lines(&[
        "Probe TCP NULL q||",
        "Probe TCP GenericLines q|\\r\\n\\r\\n|",
        "match http m|^HTTP/1|",
    ]))
    .unwrap();
    assert_eq!(catalog.tcp_probes[1].probe.data, b"\r\n\r\n");
    let outer = vec![
        ProbeOutcome::Response(Vec::new()),
        ProbeOutcome::Response(b"HTTP/1.1 200 OK\r\n\r\n".to_vec()),
    ];
    let inner = vec![ProbeOutcome::ReadTimedOut, ProbeOutcome::ReadTimedOut];
    let out = shape(scan_from_outcomes(&catalog.tcp_probes, &outer, &inner));

    assert_eq!(out.service_match.as_ref().unwrap().service, b"http");
    assert_eq!(out.response, Some(base64::encode(b"HTTP/1.1 200 OK\r\n\r\n")));
    assert_eq!(out.error, None);
}

#[test]
fn timeout_on_null_is_tolerated() {
    let catalog = read_service_probes(&lines(&[
        "Probe TCP NULL q||",
        "Probe TCP GenericLines q|\\r\\n\\r\\n|",
        "match http m|^HTTP/1|",
    ]))
    .unwrap();
    let outer = vec![
        ProbeOutcome::ReadTimedOut,
        ProbeOutcome::Response(b"HTTP/1.1 200 OK\r\n\r\n".to_vec()),
    ];
    let inner = vec![ProbeOutcome::ReadTimedOut, ProbeOutcome::ReadTimedOut];
    let out = shape(scan_from_outcomes(&catalog.tcp_probes, &outer, &inner));

    assert_eq!(out.service_match.as_ref().unwrap().service, b"http");
    assert_eq!(out.error, None);
}

#[test]
fn timeout_on_named_probe_is_fatal() {
    let catalog = read_service_probes(&lines(&["Probe TCP Foo q|X|"])).unwrap();
    let outer = vec![ProbeOutcome::ReadTimedOut];
    let inner = vec![ProbeOutcome::ReadTimedOut];
    let out = shape(scan_from_outcomes(&catalog.tcp_probes, &outer, &inner));

    assert_eq!(out.tls, Some(false));
    assert_eq!(out.error.as_deref(), Some("deadline has elapsed"));
    assert_eq!(out.response, None);
    assert_eq!(out.service_match.as_ref().map(|m| m.service.clone()), None);
}

#[test]
fn ssl_service_triggers_tls_rescan() {
    let catalog = read_service_probes(&lines(&[
        "Probe TCP NULL q||",
        "match ssl/http m|^BANNER|",
        "match http m|^HTTP/1|",
    ]))
    .unwrap();
    let outer = vec![ProbeOutcome::Response(b"BANNER hello".to_vec())];
    let inner = vec![ProbeOutcome::Response(b"HTTP/1.1 200 OK\r\n\r\n".to_vec())];
    let out = shape(scan_from_outcomes(&catalog.tcp_probes, &outer, &inner));

    assert_eq!(out.tls, Some(true));
    assert_eq!(out.response, Some(base64::encode(b"BANNER hello")));
    assert!(out.service_match.as_ref().unwrap().service.starts_with(b"ssl"));
    assert_eq!(out.tls_response, Some(base64::encode(b"HTTP/1.1 200 OK\r\n\r\n")));
    assert_eq!(out.tls_service_match.as_ref().unwrap().service, b"http");
    assert_eq!(out.error, None);
    assert_eq!(out.tls_error, None);
}

#[test]
fn connect_failure_after_partial_response() {
    let catalog = read_service_probes(&lines(&[
        "Probe TCP A q|x|",
        "match foo m|^NOPE|",
        "Probe TCP B q|y|",
    ]))
    .unwrap();
    let outer = vec![
        ProbeOutcome::Response(b"partial banner".to_vec()),
        ProbeOutcome::ConnectFailed("connection refused".to_owned()),
    ];
    let inner = vec![ProbeOutcome::ReadTimedOut, ProbeOutcome::ReadTimedOut];
    let out = shape(scan_from_outcomes(&catalog.tcp_probes, &outer, &inner));

    assert_eq!(out.error.as_deref(), Some("No Detection"));
    assert_eq!(out.response, Some(base64::encode(b"partial banner")));
    assert_eq!(out.tls, Some(false));
    assert!(out.service_match.is_none());
}

#[test]
fn connect_failure_without_prior_response_is_io_error() {
    let catalog = read_service_probes(&lines(&["Probe TCP A q|x|"])).unwrap();
    let outer = vec![ProbeOutcome::ConnectFailed("connection refused".to_owned())];
    let inner = vec![ProbeOutcome::ReadTimedOut];
    let out = shape(scan_from_outcomes(&catalog.tcp_probes, &outer, &inner));

    assert_eq!(out.error.as_deref(), Some("connection refused"));
    assert_eq!(out.response, None);
}

#[test]
fn tls_failure_during_rescan_is_reported() {
    let catalog = read_service_probes(&lines(&[
        "Probe TCP NULL q||",
        "match ssl/imap m|^BANNER|",
    ]))
    .unwrap();
    let outer = vec![ProbeOutcome::Response(b"BANNER".to_vec())];
    let inner = vec![ProbeOutcome::TlsFailed("handshake failed".to_owned())];
    let out = shape(scan_from_outcomes(&catalog.tcp_probes, &outer, &inner));

    assert_eq!(out.tls, Some(true));
    assert_eq!(out.response, Some(base64::encode(b"BANNER")));
    assert_eq!(out.tls_error.as_deref(), Some("handshake failed"));
    assert_eq!(out.tls_response, None);
    assert!(out.tls_service_match.is_none());
}

#[test]
fn exhausted_catalog_yields_no_detection_of_last_response() {
    let catalog = read_service_probes(&lines(&[
        "Probe TCP A q|x|",
        "match foo m|^NOPE|",
    ]))
    .unwrap();
    let outer = vec![ProbeOutcome::Response(b"unmatched".to_vec())];
    match run_probe_pass(&catalog.tcp_probes, &outer) {
        Err(RadarError::NoDetection(r)) => assert_eq!(r, b"unmatched"),
        other => panic!("expected NoDetection, got {:?}", other),
    }
}

#[test]
fn io_failure_mid_probe_aborts() {
    let catalog = read_service_probes(&lines(&["Probe TCP A q|x|", "Probe TCP B q|y|"])).unwrap();
    let outer = vec![
        ProbeOutcome::IoFailed("broken pipe".to_owned()),
        ProbeOutcome::ReadTimedOut,
    ];
    match run_probe_pass(&catalog.tcp_probes, &outer) {
        Err(RadarError::Io(msg)) => assert_eq!(msg, "broken pipe"),
        other => panic!("expected Io, got {:?}", other),
    }
}

#[test]
fn hard_match_beats_soft_match_at_same_index() {
    let catalog = read_service_probes(&lines(&[
        "Probe TCP NULL q||",
        "match hard m|^BOTH|",
        "softmatch soft m|^BOTH|",
    ]))
    .unwrap();
    let sp = &catalog.tcp_probes[0];
    let hit = sp.check_match(b"BOTH banners match").unwrap();
    assert_eq!(hit.service, b"hard");
}

#[test]
fn soft_match_applies_when_no_hard_match_hits() {
    let catalog = read_service_probes(&lines(&[
        "Probe TCP NULL q||",
        "match hard m|^ONLYHARD|",
        "softmatch soft m|^BOTH|",
    ]))
    .unwrap();
    let sp = &catalog.tcp_probes[0];
    let hit = sp.check_match(b"BOTH banners match").unwrap();
    assert_eq!(hit.service, b"soft");
    assert!(sp.check_match(b"neither").is_none());
}

#[test]
fn needs_tls_rescan_checks_prefix() {
    let catalog = read_service_probes(&lines(&[
        "Probe TCP NULL q||",
        "match ssl/http m|^A|",
        "match http m|^B|",
    ]))
    .unwrap();
    let sp = &catalog.tcp_probes[0];
    let ssl_hit = radar::scan::DetectionInner {
        response: String::new(),
        service_match: sp.check_match(b"A").unwrap(),
    };
    assert!(needs_tls_rescan(&ssl_hit));
    let plain_hit = radar::scan::DetectionInner {
        response: String::new(),
        service_match: sp.check_match(b"B").unwrap(),
    };
    assert!(!needs_tls_rescan(&plain_hit));
}

#[test]
fn probe_scan_machine_steps_through_probes() {
    let catalog = read_service_probes(&lines(&[
        "Probe TCP NULL q||",
        "Probe TCP Get q|x|",
        "match http m|^HTTP/1|",
    ]))
    .unwrap();
    let probes = &catalog.tcp_probes;
    let mut scan = ProbeScan::new();

    assert!(!scan.exhausted(probes));
    assert_eq!(scan.index, 0);
    // NULL probe times out: tolerated, move on.
    assert!(scan.on_outcome(probes, ProbeOutcome::ReadTimedOut).is_none());
    assert_eq!(scan.index, 1);
    // Second probe answers and matches.
    let res = scan
        .on_outcome(probes, ProbeOutcome::Response(b"HTTP/1.0 200\r\n".to_vec()))
        .expect("scan should finish");
    let d = res.unwrap();
    assert_eq!(d.service_match.service, b"http");
    assert_eq!(d.response, base64::encode(b"HTTP/1.0 200\r\n"));
}

#[test]
fn probe_scan_machine_reports_exhaustion() {
    let catalog = read_service_probes(&lines(&["Probe TCP NULL q||"])).unwrap();
    let probes = &catalog.tcp_probes;
    let mut scan = ProbeScan::new();
    assert!(scan.on_outcome(probes, ProbeOutcome::Response(b"noise".to_vec())).is_none());
    assert!(scan.exhausted(probes));
    match scan.exhausted_result() {
        RadarError::NoDetection(r) => assert_eq!(r, b"noise"),
        other => panic!("expected NoDetection, got {:?}", other),
    }
}

#[test]
fn connect_timeout_without_prior_response_is_elapsed() {
    let catalog = read_service_probes(&lines(&["Probe TCP A q|x|"])).unwrap();
    let outer = vec![ProbeOutcome::ConnectTimedOut];
    match run_probe_pass(&catalog.tcp_probes, &outer) {
        Err(RadarError::Elapsed) => {}
        other => panic!("expected Elapsed, got {:?}", other),
    }
}

#[test]
fn connect_timeout_after_partial_response_is_no_detection() {
    let catalog = read_service_probes(&lines(&["Probe TCP A q|x|", "Probe TCP B q|y|"])).unwrap();
    let outer = vec![
        ProbeOutcome::Response(b"seen".to_vec()),
        ProbeOutcome::ConnectTimedOut,
    ];
    match run_probe_pass(&catalog.tcp_probes, &outer) {
        Err(RadarError::NoDetection(r)) => assert_eq!(r, b"seen"),
        other => panic!("expected NoDetection, got {:?}", other),
    }
}

#[test]
fn pass_ignores_outcomes_beyond_the_catalog() {
    let catalog = read_service_probes(&lines(&["Probe TCP NULL q||", "match ssh m|^SSH-|"]))
        .unwrap();
    let short = vec![ProbeOutcome::Response(b"SSH-2.0-Test\r\n".to_vec())];
    let long = vec![
        ProbeOutcome::Response(b"SSH-2.0-Test\r\n".to_vec()),
        ProbeOutcome::ConnectFailed("never attempted".to_owned()),
        ProbeOutcome::ReadTimedOut,
    ];
    let a = run_probe_pass(&catalog.tcp_probes, &short).unwrap();
    let b = run_probe_pass(&catalog.tcp_probes, &long).unwrap();
    assert_eq!(a.service_match.service, b.service_match.service);
    assert_eq!(a.response, b.response);
}
