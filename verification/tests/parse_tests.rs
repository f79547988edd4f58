use radar::parse::{parse_match_line, parse_probe_line, parse_ports, parse_port_number};
use radar::probes::TransportProtocol;
use radar::probes::get_match;
use radar::unescape::unescape;

#[test]
fn test_parse_match_line() {
    let line = "match ftp m/^220.*Welcome to .*Pure-?FTPd (\\d\\S+\\s*)/ p/Pure-FTPd/ v/$1/ cpe:/a:pureftpd:pure-ftpd:$1/";
    let result = parse_match_line(line);

    assert!(result.is_some());
    let parsed_match = result.unwrap();

    assert_eq!(parsed_match.service, b"ftp");
    assert_eq!(
        parsed_match.pattern,
        "^220.*Welcome to .*Pure-?FTPd (\\d\\S+\\s*)".as_bytes()
    );
    assert_eq!(parsed_match.pattern_options, b"");
    assert_eq!(
        parsed_match.version_info,
        "p/Pure-FTPd/ v/$1/ cpe:/a:pureftpd:pure-ftpd:$1/".as_bytes()
    );

    let example_response = "220 Welcome to Pure-FTPd 1.0.24";
    let hit = get_match(&parsed_match, example_response.as_bytes());
    assert!(hit.is_some());
}

#[test]
fn test_parse_match_line_with_pattern_options() {
    let line = r#"match http m|^HTTP/1\.[01] \d\d\d (?:[^\r\n]*\r\n(?!\r\n))*?Server: Askey Software ([\d.]+)\r\n.*<title>Scientific.A..anta WebStar Cable Modem</title>.*|si p/Scientific Atlanta WebStar cable modem http config/ i/Askey Software $1/ d/broadband router/"#;
    let result = parse_match_line(line);

    assert!(result.is_some());
    let parsed_line = result.unwrap();

    assert_eq!(parsed_line.service, b"http");
    assert_eq!(
        parsed_line.pattern,
        r#"^HTTP/1\.[01] \d\d\d (?:[^\r\n]*\r\n(?!\r\n))*?Server: Askey Software ([\d.]+)\r\n.*<title>Scientific.A..anta WebStar Cable Modem</title>.*"#.as_bytes(),
    );
    assert_eq!(parsed_line.pattern_options, b"si");
    assert_eq!(
        parsed_line.version_info,
        r#"p/Scientific Atlanta WebStar cable modem http config/ i/Askey Software $1/ d/broadband router/"#.as_bytes(),
    );
}

#[test]
fn test_parse_match_line_with_no_version_info() {
    let line = r#"match sharp-remote m|^(?!x)x|"#;
    let result = parse_match_line(line);

    assert!(result.is_some());
    let parsed_line = result.unwrap();

    assert_eq!(parsed_line.service, b"sharp-remote");
    assert_eq!(parsed_line.pattern, r#"^(?!x)x"#.as_bytes());
    assert_eq!(parsed_line.pattern_options, b"");
    assert_eq!(parsed_line.version_info, b"");
}

#[test]
fn test_parse_probe_line_null_probe() {
    let line = r#"Probe TCP NULL q||"#;
    let result = parse_probe_line(line);
    assert!(result.is_some());
    let parsed_line = result.unwrap();

    assert_eq!(parsed_line.transport_protocol, TransportProtocol::TCP);
    assert_eq!(parsed_line.data, "".as_bytes());
    assert_eq!(parsed_line.no_payload, false);
}

#[test]
fn test_parse_probe_line() {
    let line = r#"Probe TCP GenericLines q|\r\n\r\n|"#;
    let result = parse_probe_line(line);
    assert!(result.is_some());
    let parsed_line = result.unwrap();

    assert_eq!(parsed_line.transport_protocol, TransportProtocol::TCP);
    assert_eq!(parsed_line.data, ("\r\n\r\n").as_bytes());
    assert_eq!(parsed_line.no_payload, false);
}

#[test]
fn test_parse_probe_line_no_payload() {
    let line = r#"Probe UDP Sqlping q|\x02| no-payload"#;
    let result = parse_probe_line(line);
    assert!(result.is_some());
    let parsed_line = result.unwrap();

    assert_eq!(parsed_line.transport_protocol, TransportProtocol::UDP);
    assert_eq!(parsed_line.data, ("\x02").as_bytes());
    assert_eq!(parsed_line.no_payload, true);
}

#[test]
fn probe_line_name_is_kept() {
    let parsed = parse_probe_line("Probe TCP GetRequest q|GET / HTTP/1.0\\r\\n\\r\\n|").unwrap();
    assert_eq!(parsed.name, b"GetRequest");
    assert_eq!(parsed.data, b"GET / HTTP/1.0\r\n\r\n");
}

#[test]
fn probe_line_rejects_wrong_prefix() {
    assert!(parse_probe_line("Probes TCP X q||").is_none());
    assert!(parse_probe_line("match ssh m|^SSH-|").is_none());
}

#[test]
fn probe_line_rejects_unknown_transport() {
    assert!(parse_probe_line("Probe SCTP X q||").is_none());
}

#[test]
fn probe_line_rejects_missing_delimiter() {
    assert!(parse_probe_line("Probe TCP X q|unterminated").is_none());
    assert!(parse_probe_line("Probe TCP X q").is_none());
    assert!(parse_probe_line("Probe TCP X").is_none());
}

#[test]
fn probe_line_rejects_bad_escape() {
    assert!(parse_probe_line(r#"Probe TCP X q|bad\xZZ|"#).is_none());
}

#[test]
fn match_line_rejects_bad_pattern() {
    assert!(parse_match_line("match broken m|(unclosed|").is_none());
}

#[test]
fn match_line_rejects_wrong_keyword() {
    assert!(parse_match_line("matched ftp m|^220|").is_none());
    assert!(parse_match_line("Probe TCP X q||").is_none());
}

#[test]
fn match_line_accepts_softmatch() {
    let parsed = parse_match_line("softmatch ssh m|^SSH-|").unwrap();
    assert_eq!(parsed.service, b"ssh");
    assert_eq!(parsed.pattern, b"^SSH-");
}

#[test]
fn match_options_select_caseless() {
    let caseless = parse_match_line("match http m|^http/1|i").unwrap();
    assert!(get_match(&caseless, b"HTTP/1.1 200 OK").is_some());

    let exact = parse_match_line("match http m|^http/1|").unwrap();
    assert!(get_match(&exact, b"HTTP/1.1 200 OK").is_none());
    assert!(get_match(&exact, b"http/1.1 200 ok").is_some());
}

#[test]
fn match_options_select_dotall() {
    let dotall = parse_match_line("match x m|^a.b|s").unwrap();
    assert!(get_match(&dotall, b"a\nb").is_some());

    let plain = parse_match_line("match x m|^a.b|").unwrap();
    assert!(get_match(&plain, b"a\nb").is_none());
    assert!(get_match(&plain, b"axb").is_some());
}

#[test]
fn unescape_decodes_control_escapes() {
    assert_eq!(unescape(b"\\0\\n\\r\\t").unwrap(), vec![0x00, 0x0a, 0x0d, 0x09]);
}

#[test]
fn unescape_decodes_hex_and_literals() {
    assert_eq!(unescape(b"\\x02\\xff\\xAb").unwrap(), vec![0x02, 0xff, 0xab]);
    assert_eq!(unescape(b"\\\\\\'\\\"\\/").unwrap(), b"\\'\"/".to_vec());
}

#[test]
fn unescape_passes_plain_and_unknown_escapes_through() {
    assert_eq!(unescape(b"plain").unwrap(), b"plain".to_vec());
    assert_eq!(unescape(b"\\q").unwrap(), b"q".to_vec());
    let high = [0x41u8, 0xc3, 0xa9];
    assert_eq!(unescape(&high).unwrap(), high.to_vec());
}

#[test]
fn unescape_rejects_malformed_escapes() {
    assert!(unescape(b"trailing\\").is_none());
    assert!(unescape(b"\\x4").is_none());
    assert!(unescape(b"\\xZZ").is_none());
}

#[test]
fn parse_ports_single_and_list() {
    assert_eq!(parse_ports("80").unwrap(), vec![80]);
    assert_eq!(parse_ports("21,22,25").unwrap(), vec![21, 22, 25]);
}

#[test]
fn parse_ports_ranges() {
    assert_eq!(parse_ports("1-4").unwrap(), vec![1, 2, 3, 4]);
    assert_eq!(parse_ports("9,20-22,80").unwrap(), vec![9, 20, 21, 22, 80]);
    assert_eq!(parse_ports("65534-65535").unwrap(), vec![65534, 65535]);
}

#[test]
fn parse_ports_empty_range_yields_nothing() {
    assert_eq!(parse_ports("5-3").unwrap(), Vec::<u16>::new());
}

#[test]
fn parse_ports_ignores_past_second_dash() {
    assert_eq!(parse_ports("1-2-9").unwrap(), vec![1, 2]);
}

#[test]
fn parse_ports_rejects_bad_pieces() {
    assert!(parse_ports("http").is_none());
    assert!(parse_ports("70000").is_none());
    assert!(parse_ports("80,").is_none());
    assert!(parse_ports("").is_none());
    assert!(parse_ports("1,-,3").is_none());
}

#[test]
fn parse_port_number_bounds() {
    assert_eq!(parse_port_number(b"65535"), Some(65535));
    assert_eq!(parse_port_number(b"0"), Some(0));
    assert_eq!(parse_port_number(b"65536"), None);
    assert_eq!(parse_port_number(b"+5"), None);
}

#[test]
fn probe_line_round_trip_example() {
    let parsed = parse_probe_line("Probe TCP Foo q|X|").unwrap();
    assert_eq!(parsed.name, b"Foo");
    assert_eq!(parsed.transport_protocol, TransportProtocol::TCP);
    assert_eq!(parsed.data, b"X");
    assert_eq!(parsed.no_payload, false);
}

#[test]
fn probe_payload_may_contain_spaces() {
    let parsed = parse_probe_line("Probe TCP X q|a b|").unwrap();
    assert_eq!(parsed.data, b"a b");
    // Runs of whitespace inside the payload collapse to single spaces,
    // since the payload is rejoined from whitespace-split tokens.
    let collapsed = parse_probe_line("Probe TCP X q|a  \t b|").unwrap();
    assert_eq!(collapsed.data, b"a b");
}

#[test]
fn probe_line_flag_must_be_no_payload() {
    let parsed = parse_probe_line("Probe TCP X q|x| nothing").unwrap();
    assert_eq!(parsed.no_payload, false);
}
