use packet_sniffer_engine::addr::Ipv4Addr;
use packet_sniffer_engine::filter::{FilterCondition, FilterExpr, SizeOp};
use packet_sniffer_engine::lexer::{tokenize, Token};
use packet_sniffer_engine::parser::{parse_filter, Parser};

fn m(c: FilterCondition) -> FilterExpr {
    FilterExpr::Match(c)
}

fn and(a: FilterExpr, b: FilterExpr) -> FilterExpr {
    FilterExpr::And(Box::new(a), Box::new(b))
}

fn or(a: FilterExpr, b: FilterExpr) -> FilterExpr {
    FilterExpr::Or(Box::new(a), Box::new(b))
}

#[test]
fn tokenize_splits_operators_and_words() {
    let t = tokenize("(tcp&&udp)||!x and OR &y");
    assert_eq!(
        t,
        vec![
            Token::LParen,
            Token::Word("tcp&&udp".to_string()),
            Token::RParen,
            Token::Or,
            Token::Not,
            Token::Word("x".to_string()),
            Token::And,
            Token::Or,
            Token::And,
            Token::Word("y".to_string()),
        ]
    );
    assert_eq!(tokenize(" \t\n "), vec![]);
    assert_eq!(tokenize("a | b"), vec![Token::Word("a".to_string()), Token::Or, Token::Word("b".to_string())]);
}

#[test]
fn blank_filter_accepts_everything() {
    assert_eq!(parse_filter("").unwrap(), FilterExpr::Any);
    assert_eq!(parse_filter("   \t ").unwrap(), FilterExpr::Any);
}

#[test]
fn adjacent_terms_are_joined_by_and() {
    assert_eq!(parse_filter("tcp port 443").unwrap(), parse_filter("tcp and port 443").unwrap());
    assert_eq!(
        parse_filter("tcp port 443").unwrap(),
        and(m(FilterCondition::Protocol(6)), m(FilterCondition::Port(443)))
    );
}

#[test]
fn and_binds_tighter_than_or() {
    assert_eq!(
        parse_filter("tcp or udp and port 53").unwrap(),
        or(
            m(FilterCondition::Protocol(6)),
            and(m(FilterCondition::Protocol(17)), m(FilterCondition::Port(53)))
        )
    );
    assert_eq!(
        parse_filter("(tcp || udp) && port 53").unwrap(),
        and(
            or(m(FilterCondition::Protocol(6)), m(FilterCondition::Protocol(17))),
            m(FilterCondition::Port(53))
        )
    );
    assert_eq!(
        parse_filter("tcp or udp or icmp").unwrap(),
        or(
            or(m(FilterCondition::Protocol(6)), m(FilterCondition::Protocol(17))),
            m(FilterCondition::Protocol(1))
        )
    );
}

#[test]
fn keywords_ignore_case_and_aliases() {
    assert_eq!(parse_filter("TCP").unwrap(), m(FilterCondition::Protocol(6)));
    assert_eq!(parse_filter("Icmp").unwrap(), m(FilterCondition::Protocol(1)));
    let ip = Ipv4Addr::new(10, 0, 2, 15);
    assert_eq!(parse_filter("SRC_IP 10.0.2.15").unwrap(), m(FilterCondition::SrcIp(ip)));
    assert_eq!(parse_filter("dstip 10.0.2.15").unwrap(), m(FilterCondition::DstIp(ip)));
    assert_eq!(parse_filter("host 10.0.2.15").unwrap(), m(FilterCondition::Ip(ip)));
    assert_eq!(parse_filter("ip 10.0.2.15").unwrap(), m(FilterCondition::Ip(ip)));
    assert_eq!(parse_filter("src_port 22").unwrap(), m(FilterCondition::SrcPort(22)));
    assert_eq!(parse_filter("DstPort 22").unwrap(), m(FilterCondition::DstPort(22)));
    assert_eq!(parse_filter("! tcp").unwrap(), FilterExpr::Not(Box::new(m(FilterCondition::Protocol(6)))));
    assert_eq!(
        parse_filter("not not udp").unwrap(),
        FilterExpr::Not(Box::new(FilterExpr::Not(Box::new(m(FilterCondition::Protocol(17))))))
    );
}

#[test]
fn bare_address_and_bare_number() {
    assert_eq!(parse_filter("8.8.8.8").unwrap(), m(FilterCondition::Ip(Ipv4Addr::new(8, 8, 8, 8))));
    assert_eq!(parse_filter("443").unwrap(), m(FilterCondition::Port(443)));
    assert_eq!(parse_filter("+80").unwrap(), m(FilterCondition::Port(80)));
    assert_eq!(parse_filter("port 0080").unwrap(), m(FilterCondition::Port(80)));
}

#[test]
fn size_operators_attached_or_apart() {
    let ps = |op, n| m(FilterCondition::PacketSize(op, n));
    assert_eq!(parse_filter("size >=1500").unwrap(), ps(SizeOp::GreaterThanOrEqual, 1500));
    assert_eq!(parse_filter("len <64").unwrap(), ps(SizeOp::LessThan, 64));
    assert_eq!(parse_filter("size 100").unwrap(), ps(SizeOp::Equal, 100));
    assert_eq!(parse_filter("size == 5").unwrap(), ps(SizeOp::Equal, 5));
    assert_eq!(parse_filter("size = 5").unwrap(), ps(SizeOp::Equal, 5));
    assert_eq!(parse_filter("size =5").unwrap(), ps(SizeOp::Equal, 5));
    assert_eq!(parse_filter("size ==7").unwrap(), ps(SizeOp::Equal, 7));
    assert_eq!(parse_filter("size <=9").unwrap(), ps(SizeOp::LessThanOrEqual, 9));
    assert_eq!(parse_filter("size >9").unwrap(), ps(SizeOp::GreaterThan, 9));
    assert_eq!(parse_filter("size < 9").unwrap(), ps(SizeOp::LessThan, 9));
    assert_eq!(parse_filter("size >= 9").unwrap(), ps(SizeOp::GreaterThanOrEqual, 9));
}

#[test]
fn error_messages() {
    let e = |s: &str| parse_filter(s).unwrap_err();
    assert_eq!(e("bogus"), "Unknown filter token 'bogus'");
    assert_eq!(e("src"), "Expected IP address after 'src'");
    assert_eq!(e("dst tcp"), "Invalid IPv4 address 'tcp' after 'dst'");
    assert_eq!(e("dst"), "Expected IP address after 'dst'");
    assert_eq!(e("ip ("), "Expected IP address after 'ip'");
    assert_eq!(e("src 1.2.3"), "Invalid IPv4 address '1.2.3' after 'src'");
    assert_eq!(e("host 01.2.3.4"), "Invalid IPv4 address '01.2.3.4' after 'ip'");
    assert_eq!(e("dst 256.1.1.1"), "Invalid IPv4 address '256.1.1.1' after 'dst'");
    assert_eq!(e("port 70000"), "Invalid port number '70000' after 'port'");
    assert_eq!(e("sport"), "Expected port number after 'sport'");
    assert_eq!(e("dport x"), "Invalid port number 'x' after 'dport'");
    assert_eq!(e("(tcp"), "Expected closing parenthesis ')'");
    assert_eq!(e("tcp)"), "Unexpected extra token 'RParen' in filter expression");
    assert_eq!(e("and"), "Unexpected token 'And'");
    assert_eq!(e(")"), "Unexpected token 'RParen'");
    assert_eq!(e("tcp or"), "Unexpected end of filter expression");
    assert_eq!(e("not"), "Unexpected end of filter expression");
    assert_eq!(e("size"), "Expected size operator or number after 'size'");
    assert_eq!(e("size >"), "Expected number after 'size >'");
    assert_eq!(e("size >="), "Expected number after 'size >='");
    assert_eq!(e("size <"), "Expected number after 'size <'");
    assert_eq!(e("size <="), "Expected number after 'size <='");
    assert_eq!(e("size =="), "Expected number after 'size =='");
    assert_eq!(e("size > abc"), "Invalid packet size number 'abc'");
    assert_eq!(e("size >"), "Expected number after 'size >'");
    assert_eq!(e("len >="), "Expected number after 'size >='");
    assert_eq!(e("size >x"), "Invalid packet size number 'x'");
    assert_eq!(e("size ="), "Expected number after 'size =='");
}

#[test]
fn parser_steps() {
    let mut p = Parser::new(tokenize("tcp ( x"));
    assert!(p.is_primary_start());
    assert_eq!(p.peek(), Some(&Token::Word("tcp".to_string())));
    assert_eq!(p.next_token(), Some(Token::Word("tcp".to_string())));
    assert_eq!(p.pos, 1);
    assert_eq!(p.expect_word("need a word"), Err("need a word".to_string()));
    assert_eq!(p.pos, 2);
    assert_eq!(p.expect_word("need a word"), Ok("x".to_string()));
    assert_eq!(p.next_token(), None);
    assert!(!p.is_primary_start());

    let mut q = Parser::new(tokenize("> 10"));
    assert_eq!(q.parse_size_op_and_val(), Ok((SizeOp::GreaterThan, "10".to_string())));
    let mut r = Parser::new(tokenize("<=20"));
    assert_eq!(r.parse_size_op_and_val(), Ok((SizeOp::LessThanOrEqual, "20".to_string())));
}

#[test]
fn whitespace_joined_text_tokenizes_piecewise() {
    let mut joined = tokenize("src 1.2.3.4&");
    joined.extend(tokenize("(udp|tcp)"));
    assert_eq!(tokenize("src 1.2.3.4&\t(udp|tcp)"), joined);
    let mut split = tokenize("not");
    split.extend(tokenize("port"));
    assert_eq!(tokenize("not\u{2003}port"), split);
    assert_eq!(tokenize("  \n tcp or udp \t"), tokenize("tcp or udp"));
}

#[test]
fn juxtaposed_filters_mean_and() {
    let pairs = [
        ("tcp", "port 443"),
        ("tcp or udp", "icmp"),
        ("not src 10.0.0.1", "(dport 53 or dport 80)"),
        ("size >= 100", "size <1000"),
    ];
    for (s, t) in pairs {
        let spaced = parse_filter(&format!("{} {}", s, t));
        let with_and = parse_filter(&format!("{} and {}", s, t));
        assert_eq!(spaced, with_and);
        assert!(spaced.is_ok());
    }
    assert_eq!(
        parse_filter("tcp or udp icmp"),
        Ok(or(
            m(FilterCondition::Protocol(6)),
            and(m(FilterCondition::Protocol(17)), m(FilterCondition::Protocol(1)))
        ))
    );
}

#[test]
fn parenthesized_filters_stand_for_themselves() {
    let s = "tcp or udp";
    let t = "port 53";
    let e = parse_filter(s).unwrap();
    let f = parse_filter(t).unwrap();
    assert_eq!(
        parse_filter(&format!("({}) and ({})", s, t)),
        Ok(and(e.clone(), f))
    );
    assert_eq!(
        parse_filter(&format!("not ({})", s)),
        Ok(FilterExpr::Not(Box::new(e)))
    );
}

#[test]
fn filters_parse_the_same_in_any_letter_case() {
    let filters = [
        "tcp port 443",
        "src 192.168.1.10 and (dport 53 or dport 80)",
        "not icmp || size >= 1000",
        "udp && len <= 512 and dst_port 5353",
        "Host 8.8.8.8 SPort +80",
    ];
    for f in filters {
        let base = parse_filter(f);
        assert!(base.is_ok());
        assert_eq!(parse_filter(&f.to_uppercase()), base);
        assert_eq!(parse_filter(&f.to_ascii_uppercase()), base);
        assert_eq!(parse_filter(&f.to_lowercase()), base);
    }
    assert_eq!(
        parse_filter("TCP port 443"),
        Ok(and(m(FilterCondition::Protocol(6)), m(FilterCondition::Port(443))))
    );
}
