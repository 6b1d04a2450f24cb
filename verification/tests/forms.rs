use gateway::forms::{form_page, new_authenticity_token, PageAction};
use gateway::join::{join_error_location, join_step, validate_username, CredentialsJoin, JoinAction, JoinEvent};
use gateway::loger::ObjectId;
use gateway::seission::{seission_step, Credentials, LoginAction, LoginEvent};

#[test]
fn tokens_are_64_alphanumerics() {
    let t = new_authenticity_token();
    assert_eq!(t.chars().count(), 64);
    assert!(t.chars().all(|c| c.is_ascii_alphanumeric()));
    assert_ne!(t, new_authenticity_token());
}

#[test]
fn form_pages() {
    assert!(matches!(form_page(false, false), PageAction::InternalError));
    match form_page(true, true) {
        PageAction::Redirect(l) => assert_eq!(l, "/"),
        _ => panic!(),
    }
    match form_page(true, false) {
        PageAction::Render { token, flags } => {
            assert_eq!(token.len(), 64);
            assert!(flags.secure && flags.http_only);
        }
        _ => panic!(),
    }
}

#[test]
fn user_names() {
    assert!(validate_username("john.doe_42").is_ok());
    assert_eq!(validate_username("john doe"), Err("username".to_string()));
    assert_eq!(validate_username("jöhn"), Err("username".to_string()));
    assert!(validate_username("").is_ok());
}

fn form(user: &str, email: &str, pass: &str) -> CredentialsJoin {
    CredentialsJoin {
        authenticity_token: "tok".to_string(),
        username: user.to_string(),
        email: email.to_string(),
        password: pass.to_string(),
    }
}

#[test]
fn form_error_codes() {
    assert_eq!(form("johnny", "j@example.com", "secret123").error_codes(), Vec::<u8>::new());
    assert_eq!(form("", "", "").error_codes(), vec![1, 2, 3]);
    assert_eq!(form("jo", "nope", "short").error_codes(), vec![4, 5, 6]);
    assert_eq!(form("bad name", "j@example.com", "secret123").error_codes(), vec![4]);
    assert_eq!(form("a".repeat(26).as_str(), "j@example.com", "secret123").error_codes(), vec![4]);
}

#[test]
fn error_locations() {
    assert_eq!(join_error_location(&vec![1, 4]), "/join#e:[1, 4]");
    assert_eq!(join_error_location(&vec![]), "/join#e:[]");
    assert_eq!(join_error_location(&vec![0]), "/join#e:[0]");
    assert_eq!(join_error_location(&vec![7, 200]), "/join#e:[7, 200]");
}

fn redirect(a: &JoinAction) -> &str {
    match a {
        JoinAction::Redirect(l) => l,
        _ => panic!("expected a redirect"),
    }
}

#[test]
fn join_steps() {
    let ok = form("johnny", "j@example.com", "secret123");
    let submitted = |data_ok, logged_in, tok: Option<&str>| JoinEvent::Submitted {
        data_ok,
        logged_in,
        cookie_token: tok.map(|t| t.to_string()),
    };
    assert_eq!(redirect(&join_step(&ok, submitted(false, false, Some("tok")))), "/join#e:[0]");
    assert_eq!(redirect(&join_step(&ok, submitted(true, true, Some("tok")))), "/join#e:[0]");
    assert_eq!(redirect(&join_step(&ok, submitted(true, false, None))), "/join#e:[0]");
    assert_eq!(redirect(&join_step(&ok, submitted(true, false, Some("other")))), "/join#e:[0]");
    assert!(matches!(join_step(&ok, submitted(true, false, Some("tok"))), JoinAction::FindUser));
    let bad = form("", "x", "short");
    assert_eq!(redirect(&join_step(&bad, submitted(true, false, Some("tok")))), "/join#e:[1, 5, 6]");
    assert_eq!(redirect(&join_step(&ok, JoinEvent::UserLookup(None))), "/join#e:[]");
    assert_eq!(redirect(&join_step(&ok, JoinEvent::UserLookup(Some(true)))), "/join#e:[7]");
    match join_step(&ok, JoinEvent::UserLookup(Some(false))) {
        JoinAction::InsertUser { hash } => assert!(bcrypt::verify("secret123", &hash).unwrap()),
        _ => panic!(),
    }
    assert!(matches!(join_step(&ok, JoinEvent::UserInserted(true)), JoinAction::InsertSession));
    assert_eq!(redirect(&join_step(&ok, JoinEvent::UserInserted(false))), "/join#e:[0]");
    assert_eq!(redirect(&join_step(&ok, JoinEvent::SessionInserted(None))), "/join#e:[0]");
    let id = ObjectId::with_string("00112233445566778899aabb").unwrap();
    match join_step(&ok, JoinEvent::SessionInserted(Some(id))) {
        JoinAction::Login { session } => assert_eq!(session.to_hex(), "00112233445566778899aabb"),
        _ => panic!(),
    }
}

#[test]
fn login_steps() {
    let creds = Credentials {
        authenticity_token: "tok".to_string(),
        login: "johnny".to_string(),
        password: "secret123".to_string(),
    };
    let submitted = |data_ok, logged_in, tok: Option<&str>| LoginEvent::Submitted {
        data_ok,
        logged_in,
        cookie_token: tok.map(|t| t.to_string()),
    };
    assert!(matches!(seission_step(&creds, submitted(false, false, Some("tok"))), LoginAction::InternalError));
    match seission_step(&creds, submitted(true, true, None)) {
        LoginAction::Redirect(l) => assert_eq!(l, "/"),
        _ => panic!(),
    }
    assert!(matches!(seission_step(&creds, submitted(true, false, None)), LoginAction::InternalError));
    assert!(matches!(seission_step(&creds, submitted(true, false, Some("x"))), LoginAction::InternalError));
    assert!(matches!(seission_step(&creds, submitted(true, false, Some("tok"))), LoginAction::FindUser));
    assert!(matches!(seission_step(&creds, LoginEvent::UserLookup(None)), LoginAction::InternalError));
    let incorrect = |a: LoginAction| match a {
        LoginAction::Redirect(l) => l == "/login#Incorrect",
        _ => false,
    };
    assert!(incorrect(seission_step(&creds, LoginEvent::UserLookup(Some(None)))));
    let good = bcrypt::hash("secret123", 4).unwrap();
    let other = bcrypt::hash("another", 4).unwrap();
    assert!(matches!(seission_step(&creds, LoginEvent::UserLookup(Some(Some(good)))), LoginAction::InsertSession));
    assert!(incorrect(seission_step(&creds, LoginEvent::UserLookup(Some(Some(other))))));
    assert!(incorrect(seission_step(&creds, LoginEvent::UserLookup(Some(Some("garbage".to_string()))))));
    assert!(incorrect(seission_step(&creds, LoginEvent::SessionInserted(None))));
    let id = ObjectId::with_string("00112233445566778899aabb").unwrap();
    assert!(matches!(seission_step(&creds, LoginEvent::SessionInserted(Some(id))), LoginAction::Login { .. }));
}

#[test]
fn a_signed_up_user_logs_in_with_the_same_password() {
    let joining = form("johnny", "john@example.com", "secret123");
    let hash = match join_step(&joining, JoinEvent::UserLookup(Some(false))) {
        JoinAction::InsertUser { hash } => hash,
        _ => panic!("expected the user to be stored"),
    };
    let creds = Credentials {
        authenticity_token: "tok".to_string(),
        login: "johnny".to_string(),
        password: "secret123".to_string(),
    };
    assert!(matches!(
        seission_step(&creds, LoginEvent::UserLookup(Some(Some(hash.clone())))),
        LoginAction::InsertSession
    ));
    assert!(hash.starts_with("$2b$12$"));
    assert_eq!(hash.len(), 60);
    let wrong = Credentials { password: "secret124".to_string(), ..creds };
    assert!(matches!(seission_step(&wrong, LoginEvent::UserLookup(Some(Some(hash)))), LoginAction::Redirect(_)));
}
