use akiradb::apache::{parse, ApacheCombined, CombinedLogParser};

#[test]
fn parse_test() {
    let log = r#"68.99.50.249 - - [12/Mar/2021:19:56:00 +0530] "HEAD /scale/sticky/interfaces HTTP/1.1" 100 1688 "https://www.dynamicone-to-one.com/seize/grow/wireless" "Mozilla/5.0 (Macintosh; Intel Mac OS X 10_8_2) AppleWebKit/5311 (KHTML, like Gecko) Chrome/40.0.890.0 Mobile Safari/5311"
"#;

    let apache = ApacheCombined {
        ipadress: Some("68.99.50.249".to_owned()),
        username: Some("-".to_owned()),
        date: Some("12/Mar/2021:19:56:00 +0530".to_owned()),
        request: Some("HEAD /scale/sticky/interfaces HTTP/1.1".to_owned()),
        status: Some("100".to_owned()),
        size: Some("1688".to_owned()),
        referer: Some("https://www.dynamicone-to-one.com/seize/grow/wireless".to_owned()),
        useragent: Some("Mozilla/5.0 (Macintosh; Intel Mac OS X 10_8_2) AppleWebKit/5311 (KHTML, like Gecko) Chrome/40.0.890.0 Mobile Safari/5311".to_owned()),
    };

    assert_eq!(parse(&log), Some(apache));
}

#[test]
fn lines_in_another_format_are_not_parsed() {
    assert_eq!(parse(""), None);
    assert_eq!(parse("hello world"), None);
    assert_eq!(
        parse(r#"68.99.50.249 - - [12/Mar/2021:19:56:00 +0530] "HEAD /x HTTP/1.1" 1000 1688 "r" "u""#),
        None
    );
    let parser = CombinedLogParser::new().unwrap();
    assert_eq!(parser.parse("no log line"), None);
}

#[test]
fn record_takes_groups_one_to_four_and_seven_to_ten() {
    let groups: Vec<Option<String>> =
        (0..11).map(|i| Some(format!("g{}", i))).collect();
    let rec = ApacheCombined::from_captures(&groups).unwrap();
    assert_eq!(rec.ipadress.as_deref(), Some("g1"));
    assert_eq!(rec.username.as_deref(), Some("g2"));
    assert_eq!(rec.date.as_deref(), Some("g3"));
    assert_eq!(rec.request.as_deref(), Some("g4"));
    assert_eq!(rec.status.as_deref(), Some("g7"));
    assert_eq!(rec.size.as_deref(), Some("g8"));
    assert_eq!(rec.referer.as_deref(), Some("g9"));
    assert_eq!(rec.useragent.as_deref(), Some("g10"));

    let mut missing = groups.clone();
    missing[7] = None;
    assert_eq!(ApacheCombined::from_captures(&missing), None);
    assert_eq!(ApacheCombined::from_captures(&groups[..10].to_vec()), None);
}
