use audit_notifier_core::status::{Icon, Severity, Status, Update, project};

fn upd(severity: Severity, pkg: &str) -> Update {
    Update {
        severity,
        pkg: pkg.to_string(),
        text: format!("{}: {} (test)", pkg, pkg),
        link: format!("https://security.archlinux.org/AVG-{}", pkg),
    }
}

#[test]
fn project_empty_list() {
    let s = Status::MissingUpdates(vec![]);
    let (text, icon) = project(&s);
    assert_eq!(text, "No missing security updates");
    assert_eq!(icon, Icon::Check);
}

#[test]
fn project_single_update() {
    let s = Status::MissingUpdates(vec![upd(Severity::High, "linux")]);
    let (text, icon) = project(&s);
    assert_eq!(text, "1 missing security update");
    assert_eq!(icon, Icon::Alert);
}

#[test]
fn project_many_updates() {
    let list: Vec<Update> = (0..3).map(|i| upd(Severity::Low, &format!("pkg{}", i))).collect();
    let (text, icon) = project(&Status::MissingUpdates(list));
    assert_eq!(text, "3 missing security updates");
    assert_eq!(icon, Icon::Alert);
}

#[test]
fn project_twelve_updates_renders_decimal() {
    let list: Vec<Update> = (0..12).map(|i| upd(Severity::Low, &format!("pkg{}", i))).collect();
    let (text, _) = project(&Status::MissingUpdates(list));
    assert_eq!(text, "12 missing security updates");
}

#[test]
fn project_error() {
    let s = Status::Error("boom".to_string());
    let (text, icon) = project(&s);
    assert_eq!(text, "ERROR: boom");
    assert_eq!(icon, Icon::Cross);
}

#[test]
fn project_is_deterministic() {
    let a = Status::MissingUpdates(vec![upd(Severity::Critical, "openssl")]);
    let b = Status::MissingUpdates(vec![upd(Severity::Critical, "openssl")]);
    let (ta, ia) = project(&a);
    let (tb, ib) = project(&b);
    assert_eq!(ta, tb);
    assert_eq!(ia, ib);
}

#[test]
fn icon_names_round_trip() {
    for icon in [Icon::Check, Icon::Alert, Icon::Cross] {
        assert_eq!(Icon::from_str(icon.as_str()), Some(icon));
    }
    assert_eq!(Icon::from_str("triangle"), None);
}

#[test]
fn status_needs_updates_flag() {
    assert!(!Status::MissingUpdates(vec![]).needs_updates());
    assert!(Status::MissingUpdates(vec![upd(Severity::Low, "a")]).needs_updates());
    assert!(Status::Error("no".to_string()).needs_updates());
}
