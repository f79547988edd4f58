use radar::catalog::read_service_probes;
use radar::probes::TransportProtocol;

fn lines(v: &[&str]) -> Vec<Vec<u8>> {
    v.iter().map(|s| s.as_bytes().to_vec()).collect()
}

#[test]
fn catalog_groups_directives_under_probes() {
    let catalog = read_service_probes(&lines(&[
        "# a comment",
        "",
        "Probe TCP NULL q||",
        "ports 21,22",
        "sslports 443,8443",
        "totalwaitms 6000",
        "tcpwrappedms 3000",
        "rarity 1",
        "fallback GenericLines,NULL",
        "match ssh m|^SSH-|",
        "softmatch ftp m|^220|",
    ]))
    .unwrap();

    assert_eq!(catalog.tcp_probes.len(), 1);
    assert_eq!(catalog.udp_probes.len(), 0);
    let sp = &catalog.tcp_probes[0];
    assert_eq!(sp.probe.name, b"NULL");
    let d = &sp.directives;
    assert_eq!(d.ports.as_ref().unwrap(), &vec![21u16, 22]);
    assert_eq!(d.ssl_ports.as_ref().unwrap(), &vec![443u16, 8443]);
    assert_eq!(d.total_wait_ms, Some(6000));
    assert_eq!(d.tcp_wrapped_ms, Some(3000));
    assert_eq!(d.rarity, Some(1));
    assert_eq!(
        d.fallback.as_ref().unwrap(),
        &vec![b"GenericLines".to_vec(), b"NULL".to_vec()]
    );
    let matches = d.matches.as_ref().unwrap();
    assert_eq!(matches.len(), 1);
    assert_eq!(matches[0].service, b"ssh");
    let soft = d.soft_matches.as_ref().unwrap();
    assert_eq!(soft.len(), 1);
    assert_eq!(soft[0].service, b"ftp");
}

#[test]
fn catalog_preserves_probe_order_per_transport() {
    let catalog = read_service_probes(&lines(&[
        "Probe TCP Alpha q|a|",
        "Probe UDP Beta q|b|",
        "Probe TCP Gamma q|c|",
        "Probe UDP Delta q|d|",
        "Probe TCP Epsilon q|e|",
    ]))
    .unwrap();

    let tcp: Vec<&[u8]> = catalog.tcp_probes.iter().map(|p| p.probe.name.as_slice()).collect();
    let udp: Vec<&[u8]> = catalog.udp_probes.iter().map(|p| p.probe.name.as_slice()).collect();
    assert_eq!(tcp, vec![&b"Alpha"[..], &b"Gamma"[..], &b"Epsilon"[..]]);
    assert_eq!(udp, vec![&b"Beta"[..], &b"Delta"[..]]);
    for p in &catalog.tcp_probes {
        assert_eq!(p.probe.transport_protocol, TransportProtocol::TCP);
    }
    for p in &catalog.udp_probes {
        assert_eq!(p.probe.transport_protocol, TransportProtocol::UDP);
    }
}

#[test]
fn catalog_keeps_match_order() {
    let catalog = read_service_probes(&lines(&[
        "Probe TCP NULL q||",
        "match first m|^a|",
        "# interleaved comment",
        "match second m|^b|",
        "softmatch soft1 m|^c|",
        "match third m|^d|",
    ]))
    .unwrap();

    let d = &catalog.tcp_probes[0].directives;
    let names: Vec<&[u8]> = d.matches.as_ref().unwrap().iter().map(|m| m.service.as_slice()).collect();
    assert_eq!(names, vec![&b"first"[..], &b"second"[..], &b"third"[..]]);
    let soft: Vec<&[u8]> = d.soft_matches.as_ref().unwrap().iter().map(|m| m.service.as_slice()).collect();
    assert_eq!(soft, vec![&b"soft1"[..]]);
}

#[test]
fn catalog_without_match_lines_leaves_lists_absent() {
    let catalog = read_service_probes(&lines(&["Probe TCP NULL q||", "ports 80"])).unwrap();
    let d = &catalog.tcp_probes[0].directives;
    assert!(d.matches.is_none());
    assert!(d.soft_matches.is_none());
}

#[test]
fn catalog_empty_input_is_empty() {
    let catalog = read_service_probes(&lines(&["# nothing here", "   ", ""])).unwrap();
    assert!(catalog.tcp_probes.is_empty());
    assert!(catalog.udp_probes.is_empty());
}

#[test]
fn catalog_fails_on_bad_probe_line() {
    assert!(read_service_probes(&lines(&["Probe TCP OnlyName"])).is_err());
    assert!(read_service_probes(&lines(&["Probe SCTP Name q||"])).is_err());
}

#[test]
fn catalog_fails_on_bad_match_pattern() {
    let r = read_service_probes(&lines(&["Probe TCP NULL q||", "match x m|(broken|"]));
    assert!(r.is_err());
}

#[test]
fn catalog_fails_on_bad_ports_directive() {
    let r = read_service_probes(&lines(&["Probe TCP NULL q||", "ports eighty"]));
    assert!(r.is_err());
    let r2 = read_service_probes(&lines(&["Probe TCP NULL q||", "rarity often"]));
    assert!(r2.is_err());
}

#[test]
fn catalog_error_reports_offending_line() {
    let err = read_service_probes(&lines(&[
        "Probe TCP NULL q||",
        "ports 80",
        "match x m|(broken|",
    ]))
    .unwrap_err();
    assert_eq!(err.line, 2);
}

#[test]
fn catalog_stops_directive_collection_on_short_line() {
    let catalog = read_service_probes(&lines(&[
        "Probe TCP NULL q||",
        "ports 80",
        "loner",
        "rarity 9",
        "Probe TCP Next q|x|",
    ]))
    .unwrap();
    assert_eq!(catalog.tcp_probes.len(), 2);
    let d = &catalog.tcp_probes[0].directives;
    assert_eq!(d.ports.as_ref().unwrap(), &vec![80u16]);
    // collection stopped at the one-token line; rarity was never read
    assert_eq!(d.rarity, None);
    assert_eq!(catalog.tcp_probes[1].probe.name, b"Next");
}

#[test]
fn catalog_ignores_unknown_directives() {
    let catalog = read_service_probes(&lines(&[
        "Probe TCP NULL q||",
        "exclude 9100-9107",
        "rarity 3",
    ]))
    .unwrap();
    let d = &catalog.tcp_probes[0].directives;
    assert_eq!(d.rarity, Some(3));
}
