use gateway::preserver::{http_redir, seission_redir, PreserveAction, Preserver};

#[test]
fn plain_http_goes_to_https() {
    match Preserver::decide(false, true, Some("login"), "/a/b?x=1") {
        PreserveAction::Redirect(r) => {
            assert_eq!(r.location, "https://localhost.local:8443/a/b?x=1");
            assert!(r.hsts);
        }
        PreserveAction::Pass => panic!(),
    }
    assert_eq!(http_redir("/").location, "https://localhost.local:8443/");
}

#[test]
fn sessions_are_sent_away_from_login_pages() {
    for name in ["login", "seission"] {
        match Preserver::decide(true, true, Some(name), "/login") {
            PreserveAction::Redirect(r) => {
                assert_eq!(r.location, "/");
                assert!(!r.hsts);
            }
            PreserveAction::Pass => panic!(),
        }
    }
    assert!(matches!(Preserver::decide(true, false, Some("login"), "/"), PreserveAction::Pass));
    assert!(matches!(Preserver::decide(true, true, Some("logout"), "/"), PreserveAction::Pass));
    assert!(matches!(Preserver::decide(true, true, None, "/"), PreserveAction::Pass));
    assert_eq!(seission_redir().location, "/");
}
