use verify_ovpn::extract::{extract_endpoint, EndpointExtractor, Extraction, Protocol};

fn lines(text: &[&str]) -> Vec<String> {
    text.iter().map(|l| l.to_string()).collect()
}

fn extraction(protocol: Protocol, endpoint: &str) -> Option<Extraction> {
    Some(Extraction { protocol, endpoint: endpoint.to_string() })
}

#[test]
fn no_remote_directive_is_incomplete() {
    let config = lines(&["client", "dev tun", "proto udp", "cipher AES-256-CBC"]);
    let scan = extract_endpoint(&config);
    assert_eq!(scan.extraction, None);
    assert_eq!(scan.lines_read, 4);
}

#[test]
fn empty_config_is_incomplete() {
    let scan = extract_endpoint(&[]);
    assert_eq!(scan.extraction, None);
    assert_eq!(scan.lines_read, 0);
}

#[test]
fn scan_stops_at_completion() {
    let config = lines(&["proto udp", "remote 10.0.0.1 1194", "remote 192.168.1.1 443", "proto tcp"]);
    let scan = extract_endpoint(&config);
    assert_eq!(scan.lines_read, 2);
    assert_eq!(scan.extraction, extraction(Protocol::Datagram, "10.0.0.1:1194"));
}

#[test]
fn feed_ignores_lines_after_completion() {
    let mut ex = EndpointExtractor::new();
    assert!(!ex.feed("remote 10.0.0.1 1194"));
    assert!(!ex.is_complete());
    assert_eq!(ex.result(), None);
    assert!(ex.feed("proto udp"));
    assert!(ex.is_complete());
    // A line that would change both fields, were it read.
    assert!(ex.feed("remote 8.8.8.8 53 proto tcp"));
    assert_eq!(ex.result(), extraction(Protocol::Datagram, "10.0.0.1:1194"));
}

#[test]
fn datagram_protocol_selected() {
    let scan = extract_endpoint(&lines(&["proto udp", "remote 10.0.0.1 1194"]));
    assert_eq!(scan.extraction.unwrap().protocol, Protocol::Datagram);
}

#[test]
fn other_protocol_names_select_stream() {
    for p in ["proto tcp", "proto", "proto   ", "proto udp6", "proto UDP"] {
        let scan = extract_endpoint(&lines(&[p, "remote 10.0.0.1 1194"]));
        assert_eq!(scan.extraction.unwrap().protocol, Protocol::Stream, "{}", p);
    }
}

#[test]
fn remote_lines_alone_are_incomplete() {
    let scan = extract_endpoint(&lines(&["remote 10.0.0.1 1194", "remote 10.0.0.2 443"]));
    assert_eq!(scan.extraction, None);
    assert_eq!(scan.lines_read, 2);
}

#[test]
fn repeated_remote_waits_for_protocol() {
    let scan = extract_endpoint(&lines(&["remote a", "remote b", "proto udp", "remote c"]));
    assert_eq!(scan.lines_read, 3);
    assert_eq!(scan.extraction, extraction(Protocol::Datagram, "b"));
}

#[test]
fn protocol_name_is_trimmed() {
    let scan = extract_endpoint(&lines(&["proto \t udp \r", "remote 10.0.0.1 1194"]));
    assert_eq!(scan.extraction.unwrap().protocol, Protocol::Datagram);
}

#[test]
fn repeated_keyword_prefix_is_stripped() {
    let scan = extract_endpoint(&lines(&["protoproto udp", "remote 10.0.0.1 1194"]));
    assert_eq!(scan.extraction.unwrap().protocol, Protocol::Datagram);
}

#[test]
fn keyword_after_leading_space_is_stripped() {
    let scan = extract_endpoint(&lines(&["  proto udp", "\tremote 10.0.0.1 1194"]));
    assert_eq!(scan.extraction, extraction(Protocol::Datagram, "10.0.0.1:1194"));
}

#[test]
fn endpoint_with_port() {
    let scan = extract_endpoint(&lines(&["remote 10.0.0.1 1194", "proto tcp"]));
    assert_eq!(scan.extraction, extraction(Protocol::Stream, "10.0.0.1:1194"));
}

#[test]
fn endpoint_without_port() {
    let scan = extract_endpoint(&lines(&["remote 10.0.0.1", "proto tcp"]));
    assert_eq!(scan.extraction, extraction(Protocol::Stream, "10.0.0.1"));
}

#[test]
fn endpoint_keeps_text_after_port() {
    let scan = extract_endpoint(&lines(&["remote   vpn.example.com 1194 udp  ", "proto udp"]));
    assert_eq!(scan.extraction, extraction(Protocol::Datagram, "vpn.example.com:1194 udp"));
}

#[test]
fn latest_directive_wins_before_completion() {
    let mut ex = EndpointExtractor::new();
    assert!(!ex.feed("proto tcp"));
    assert!(!ex.feed("# a comment"));
    assert!(ex.feed("remote 198.51.100.7 1194"));
    assert_eq!(ex.result(), extraction(Protocol::Stream, "198.51.100.7:1194"));
}

#[test]
fn protocol_lines_alone_are_incomplete() {
    let scan = extract_endpoint(&lines(&["proto udp", "proto tcp"]));
    assert_eq!(scan.extraction, None);
    assert_eq!(scan.lines_read, 2);
}

#[test]
fn repeated_protocol_last_one_wins() {
    let scan = extract_endpoint(&lines(&["proto tcp", "proto udp", "remote 10.0.0.1 1194", "proto tcp"]));
    assert_eq!(scan.lines_read, 3);
    assert_eq!(scan.extraction, extraction(Protocol::Datagram, "10.0.0.1:1194"));
}

#[test]
fn endpoint_gap_of_several_spaces_becomes_one_separator() {
    let scan = extract_endpoint(&lines(&["remote a  b", "proto tcp"]));
    assert_eq!(scan.extraction, extraction(Protocol::Stream, "a:b"));
}

#[test]
fn endpoint_gap_of_tab_becomes_separator() {
    let scan = extract_endpoint(&lines(&["remote a\t b", "proto tcp"]));
    assert_eq!(scan.extraction, extraction(Protocol::Stream, "a:b"));
}

#[test]
fn line_with_both_directives_completes() {
    let scan = extract_endpoint(&lines(&["remote proto.example.net 1194", "never read"]));
    assert_eq!(scan.lines_read, 1);
    assert_eq!(scan.extraction, extraction(Protocol::Stream, "proto.example.net:1194"));
}

#[test]
fn non_ascii_text_is_kept() {
    let scan = extract_endpoint(&lines(&["remote héte.example 1194", "proto udp"]));
    assert_eq!(scan.extraction, extraction(Protocol::Datagram, "héte.example:1194"));
}
