use audit_notifier_core::invoke::{check_result_from_output, updates_from_advisories};
use audit_notifier_core::parse::{AdvisoryRecord, parse_advisories};
use audit_notifier_core::status::{Severity, Status};

#[test]
fn failed_command_reports_trimmed_stderr() {
    let r = check_result_from_output(false, b"", b"  boom\n");
    match r {
        Status::Error(e) => assert_eq!(e, "boom"),
        _ => panic!("expected an error status"),
    }
}

#[test]
fn failed_command_with_invalid_bytes_still_reports() {
    let r = check_result_from_output(false, b"", b"\xffboom");
    match r {
        Status::Error(e) => {
            assert!(e.contains("boom"));
            assert_eq!(e, "\u{FFFD}boom");
        },
        _ => panic!("expected an error status"),
    }
}

#[test]
fn malformed_output_is_a_parse_error() {
    let r = check_result_from_output(true, b"not json at all", b"");
    match r {
        Status::Error(e) => assert_eq!(e, "Failed to parse arch-audit json output"),
        _ => panic!("expected an error status"),
    }
}

#[test]
fn empty_array_means_no_updates() {
    let r = check_result_from_output(true, b" [ ] ", b"");
    match r {
        Status::MissingUpdates(v) => assert!(v.is_empty()),
        _ => panic!("expected an update list"),
    }
}

#[test]
fn successful_check_expands_and_sorts() {
    let doc = br#"[
        {"severity": "Medium", "kind": "information disclosure", "name": "AVG-100",
         "packages": ["zlib", "curl"], "status": "Vulnerable", "fixed": null, "issues": ["CVE-1"]},
        {"severity": "Critical", "kind": "arbitrary code execution", "name": "AVG-101",
         "packages": ["openssl"]}
    ]"#;
    let r = check_result_from_output(true, doc, b"");
    match r {
        Status::MissingUpdates(v) => {
            assert_eq!(v.len(), 3);
            assert_eq!(v[0].pkg, "openssl");
            assert_eq!(v[0].severity, Severity::Critical);
            assert_eq!(v[0].text, "Critical risk: openssl (arbitrary code execution)");
            assert_eq!(v[0].link, "https://security.archlinux.org/AVG-101");
            assert_eq!(v[1].pkg, "curl");
            assert_eq!(v[1].severity, Severity::Medium);
            assert_eq!(v[2].pkg, "zlib");
            assert_eq!(v[2].severity, Severity::Medium);
            assert_eq!(v[2].text, "Medium risk: zlib (information disclosure)");
        },
        _ => panic!("expected an update list"),
    }
}

fn record(severity: Severity, kind: &str, name: &str, packages: &[&str]) -> AdvisoryRecord {
    AdvisoryRecord {
        severity,
        kind: kind.to_string(),
        name: name.to_string(),
        packages: packages.iter().map(|p| p.to_string()).collect(),
    }
}

#[test]
fn update_list_length_is_total_package_count() {
    let recs = vec![
        record(Severity::Low, "dos", "AVG-1", &["a", "b", "c"]),
        record(Severity::High, "rce", "AVG-2", &["d"]),
        record(Severity::Low, "dos", "AVG-3", &["e", "f"]),
    ];
    let ups = updates_from_advisories(&recs);
    assert_eq!(ups.len(), 6);
}

#[test]
fn update_list_sorted_by_severity_then_package() {
    let recs = vec![
        record(Severity::Low, "dos", "AVG-1", &["zsh", "bash"]),
        record(Severity::Critical, "rce", "AVG-2", &["vim"]),
        record(Severity::Unknown, "unknown", "AVG-3", &["kernel"]),
        record(Severity::Critical, "rce", "AVG-4", &["emacs"]),
    ];
    let ups = updates_from_advisories(&recs);
    let got: Vec<(Severity, &str)> = ups.iter().map(|u| (u.severity, u.pkg.as_str())).collect();
    assert_eq!(
        got,
        vec![
            (Severity::Critical, "emacs"),
            (Severity::Critical, "vim"),
            (Severity::Low, "bash"),
            (Severity::Low, "zsh"),
            (Severity::Unknown, "kernel"),
        ]
    );
}

#[test]
fn sort_keeps_duplicates_and_is_total() {
    let recs = vec![
        record(Severity::High, "first", "AVG-1", &["same", "same"]),
        record(Severity::High, "second", "AVG-2", &["same"]),
    ];
    let ups = updates_from_advisories(&recs);
    assert_eq!(ups.len(), 3);
    for u in &ups {
        assert_eq!(u.pkg, "same");
        assert_eq!(u.severity, Severity::High);
    }
}

#[test]
fn parser_accepts_escapes_and_whitespace() {
    let doc = b"\t[ {\"name\" : \"AVG-7\",\r\n \"kind\": \"a \\\"quoted\\\" kind\\n\",
        \"severity\":\"Low\", \"packages\": [ \"p1\" , \"p2\" ] } ]\n";
    let recs = parse_advisories(doc).expect("well-formed document");
    assert_eq!(recs.len(), 1);
    assert_eq!(recs[0].kind, "a \"quoted\" kind\n");
    assert_eq!(recs[0].packages, vec!["p1", "p2"]);
}

#[test]
fn parser_rejects_deviations() {
    // a required field is missing
    assert!(parse_advisories(br#"[{"severity":"Low","kind":"k","name":"n"}]"#).is_none());
    // a required field repeats
    assert!(parse_advisories(
        br#"[{"severity":"Low","severity":"High","kind":"k","name":"n","packages":[]}]"#
    )
    .is_none());
    // the severity name is not one of the five
    assert!(parse_advisories(
        br#"[{"severity":"Severe","kind":"k","name":"n","packages":[]}]"#
    )
    .is_none());
    // text after the document
    assert!(parse_advisories(br#"[] trailing"#).is_none());
    // an unknown field holding an object
    assert!(parse_advisories(
        br#"[{"severity":"Low","kind":"k","name":"n","packages":[],"extra":{}}]"#
    )
    .is_none());
    // not an array
    assert!(parse_advisories(br#"{"severity":"Low"}"#).is_none());
}

#[test]
fn parser_maps_each_severity_name() {
    for (name, severity) in [
        ("Unknown", Severity::Unknown),
        ("Low", Severity::Low),
        ("Medium", Severity::Medium),
        ("High", Severity::High),
        ("Critical", Severity::Critical),
    ] {
        let doc =
            format!(r#"[{{"severity":"{}","kind":"k","name":"n","packages":["p"]}}]"#, name);
        let recs = parse_advisories(doc.as_bytes()).expect("valid severity name");
        assert_eq!(recs[0].severity, severity);
    }
}

#[test]
fn package_prefix_sorts_before_its_extension() {
    let recs = vec![record(Severity::High, "k", "AVG-1", &["curlie", "curl"])];
    let ups = updates_from_advisories(&recs);
    assert_eq!(ups[0].pkg, "curl");
    assert_eq!(ups[1].pkg, "curlie");
}

#[test]
fn parser_skips_tolerated_extra_fields() {
    let doc = br#"[{"severity":"High","kind":"k","name":"n","packages":["p"],
        "status":"Vulnerable","fixed":null,"issues":["CVE-1","CVE-2"],
        "score": -7.5e2, "reported": true, "hidden": false}]"#;
    let recs = parse_advisories(doc).expect("extra fields are tolerated");
    assert_eq!(recs.len(), 1);
    assert_eq!(recs[0].severity, Severity::High);
    assert_eq!(recs[0].packages, vec!["p"]);
}
