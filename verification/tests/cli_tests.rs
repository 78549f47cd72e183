use packet_sniffer_engine::addr::Ipv4Addr;
use packet_sniffer_engine::cli::{parse_args, CliOutcome};
use packet_sniffer_engine::filter::{FilterCondition, FilterExpr, SizeOp};
use packet_sniffer_engine::parser::parse_filter;

fn args(v: &[&str]) -> Vec<String> {
    v.iter().map(|s| s.to_string()).collect()
}

fn fail_message(o: CliOutcome) -> String {
    match o {
        CliOutcome::Fail(m) => m,
        _ => panic!("expected a failure"),
    }
}

#[test]
fn full_command_line() {
    match parse_args(&args(&["prog", "-i", "eth0", "--filter", "port 443", "--json", "--flows", "-s", "out.pcap"])) {
        CliOutcome::Run(c) => {
            assert_eq!(c.interface_name, "eth0");
            assert_eq!(c.filter, FilterExpr::Match(FilterCondition::Port(443)));
            assert!(c.json_mode);
            assert!(c.flow_mode);
            assert_eq!(c.save_path, Some("out.pcap".to_string()));
            assert_eq!(c.read_path, None);
        },
        _ => panic!("expected a run"),
    }
}

#[test]
fn read_file_with_quoted_filter() {
    match parse_args(&args(&["prog", "--read", "cap.pcap", "-f", "src 10.0.2.15 and size > 100", "--unknown"])) {
        CliOutcome::Run(c) => {
            assert_eq!(c.read_path, Some("cap.pcap".to_string()));
            assert_eq!(c.interface_name, "");
            assert_eq!(
                c.filter,
                FilterExpr::And(
                    Box::new(FilterExpr::Match(FilterCondition::SrcIp(Ipv4Addr::new(10, 0, 2, 15)))),
                    Box::new(FilterExpr::Match(FilterCondition::PacketSize(SizeOp::GreaterThan, 100)))
                )
            );
            assert!(!c.json_mode);
        },
        _ => panic!("expected a run"),
    }
}

#[test]
fn bare_condition_word_is_repeated() {
    // A bare condition word is joined with itself, and the argument after it
    // is skipped.
    assert_eq!(
        fail_message(parse_args(&args(&["prog", "-i", "lo", "-f", "SIZE", ">=64"]))),
        "[!] Error parsing filter expression 'SIZE SIZE': Invalid packet size number 'SIZE'"
    );
    assert_eq!(
        fail_message(parse_args(&args(&["prog", "-i", "lo", "-f", "port"]))),
        "[!] Error parsing filter expression 'port port': Invalid port number 'port' after 'port'"
    );
    assert_eq!(
        fail_message(parse_args(&args(&["prog", "-i", "lo", "--filter", "port", "443"]))),
        "[!] Error parsing filter expression 'port port': Invalid port number 'port' after 'port'"
    );
    match parse_args(&args(&["prog", "-i", "lo", "-f", "tcp", "--json"])) {
        CliOutcome::Run(c) => {
            assert_eq!(c.filter, parse_filter("tcp").unwrap());
            assert!(c.json_mode);
        },
        _ => panic!("expected a run"),
    }
}

#[test]
fn help_stops_reading() {
    assert!(matches!(parse_args(&args(&["prog", "-r", "x.pcap", "--help", "-i"])), CliOutcome::ShowHelp));
    assert!(matches!(parse_args(&args(&["prog", "-h"])), CliOutcome::ShowHelp));
}

#[test]
fn usage_errors() {
    assert_eq!(
        fail_message(parse_args(&args(&["prog"]))),
        "[!] Error: No network interface or PCAP file specified.\nRun 'packet-sniffer-engine --help' for complete usage instructions."
    );
    assert_eq!(
        fail_message(parse_args(&args(&["prog", "-i"]))),
        "[!] Error: Option '--interface' requires an interface name argument."
    );
    assert_eq!(
        fail_message(parse_args(&args(&["prog", "-i", "lo", "--save"]))),
        "[!] Error: Option '--save' requires a file path argument."
    );
    assert_eq!(
        fail_message(parse_args(&args(&["prog", "--read"]))),
        "[!] Error: Option '--read' requires a PCAP file path argument."
    );
    assert_eq!(
        fail_message(parse_args(&args(&["prog", "-i", "lo", "--filter"]))),
        "[!] Error: Option '--filter' requires a filter expression argument."
    );
    assert_eq!(
        fail_message(parse_args(&args(&["prog", "-r", "f", "--filter", "bogus"]))),
        "[!] Error parsing filter expression 'bogus': Unknown filter token 'bogus'"
    );
}
