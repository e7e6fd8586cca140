use dep_audit::audit::AuditScanner;

#[test]
fn test_parse_empty_output() {
    let vulns = AuditScanner::parse_output("");
    assert!(vulns.is_empty());
}

#[test]
fn test_parse_no_vulnerabilities() {
    let text = "    Scanning Cargo.lock...\n    No vulnerabilities found.";
    let vulns = AuditScanner::parse_output(text);
    assert!(vulns.is_empty());
}

#[test]
fn test_parse_single_vulnerability() {
    let text = "RUSTSEC-2021-0139 Test vuln
└── ansi_term v0.12.1
   https://github.com/...";
    let vulns = AuditScanner::parse_output(text);
    assert_eq!(vulns.len(), 1);
    assert_eq!(vulns[0].id, "RUSTSEC-2021-0139");
    assert_eq!(vulns[0].title, "Test vuln");
    assert_eq!(vulns[0].package, "ansi_term");
    assert_eq!(vulns[0].version, "0.12.1");
}

#[test]
fn test_parse_multiple_vulnerabilities() {
    let text = "RUSTSEC-2021-0139 First issue
└── pkg1 v1.0.0

RUSTSEC-2022-0045 Second issue
└── pkg2 v2.0.0";
    let vulns = AuditScanner::parse_output(text);
    assert_eq!(vulns.len(), 2);
    assert_eq!(vulns[0].id, "RUSTSEC-2021-0139");
    assert_eq!(vulns[1].id, "RUSTSEC-2022-0045");
}

#[test]
fn details_give_url_and_severity() {
    let text = "RUSTSEC-2021-0139 Test vuln
└── ansi_term v0.12.1 [critical]
   https://github.com/...";
    let v = AuditScanner::parse_output(text);
    assert_eq!(v[0].severity, "high");
    assert_eq!(v[0].url, Some("https://github.com/...".to_string()));
}

#[test]
fn severity_classes() {
    let sev = |rest: &str| {
        let text = format!("ID-1-2 t\n└── p v1 {rest}");
        AuditScanner::parse_output(&text)[0].severity.clone()
    };
    assert_eq!(sev("moderate"), "medium");
    assert_eq!(sev("[medium]"), "medium");
    assert_eq!(sev("low"), "low");
    assert_eq!(sev("high"), "high");
    assert_eq!(sev(""), "unknown");
}

#[test]
fn heading_without_details_has_empty_fields() {
    let v = AuditScanner::parse_output("ABC-1-2 title  \n");
    assert_eq!(v.len(), 1);
    assert_eq!(v[0].title, "title");
    assert_eq!(v[0].package, "");
    assert_eq!(v[0].severity, "unknown");
    assert_eq!(v[0].url, None);
}

#[test]
fn lone_heading_has_unknown_severity() {
    let v = AuditScanner::parse_output("RUSTSEC-2021-0139 Test vuln");
    assert_eq!(v.len(), 1);
    assert_eq!(v[0].severity, "unknown");
    assert_eq!(v[0].version, "");
}

#[test]
fn details_are_read_from_the_next_four_lines_only() {
    let text = "A-1-1 t\n\n\n\n\n└── late v9.9\nhttp://x";
    let v = AuditScanner::parse_output(text);
    assert_eq!(v[0].package, "");
    assert_eq!(v[0].url, None);
    let text = "A-1-1 t\n\n\n\n└── ok v1.2 low\nhttp://x";
    let v = AuditScanner::parse_output(text);
    assert_eq!(v[0].package, "ok");
    assert_eq!(v[0].severity, "low");
    assert_eq!(v[0].url, None);
}

#[test]
fn heading_pattern_edges() {
    // lowercase prefix, missing parts, nothing after the id
    assert!(AuditScanner::parse_output("rustsec-2021-1 x").is_empty());
    assert!(AuditScanner::parse_output("RUSTSEC-2021 x").is_empty());
    assert!(AuditScanner::parse_output("RUSTSEC-2021-0139").is_empty());
    assert!(AuditScanner::parse_output("RUSTSEC-2021-0139 ").is_empty());
    // two trailing spaces: the title is blank
    let v = AuditScanner::parse_output("RUSTSEC-2021-0139  ");
    assert_eq!(v.len(), 1);
    assert_eq!(v[0].title, "");
    // decimal digits of other scripts count as digits
    let v = AuditScanner::parse_output("X-\u{0662}\u{0660}-1 t\r\n");
    assert_eq!(v[0].id, "X-\u{0662}\u{0660}-1");
    assert_eq!(v[0].title, "t");
}

#[test]
fn package_line_needs_v_prefix_and_takes_first_match() {
    let text = "A-1-1 t\n└── a b └── c v2.0 rest";
    let v = AuditScanner::parse_output(text);
    assert_eq!(v[0].package, "c");
    assert_eq!(v[0].version, "2.0");
    let text = "A-1-1 t\n└── a 1.0";
    assert_eq!(AuditScanner::parse_output(text)[0].package, "");
}

#[test]
fn later_detail_lines_override_earlier_ones() {
    let text = "A-1-1 t\n└── a v1 high http://one\n└── b v2 see https://two";
    let v = AuditScanner::parse_output(text);
    assert_eq!(v[0].package, "b");
    assert_eq!(v[0].severity, "unknown");
    assert_eq!(v[0].url, Some("https://two".to_string()));
}
