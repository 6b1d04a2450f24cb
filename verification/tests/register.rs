use actix_web::dev::ResourceDef;
use gateway::lgerror::LGEInfo;
use gateway::per::{Per, PER_C, PER_R};
use gateway::register::{
    APIRegister, Client, Dir, ReadStep, RegError, Register, ReloadStep, Res, SetupDecision,
};
use gateway::resource::Resource;

fn p(bits: u8) -> Resource {
    Resource::P(Per::from_bits(bits))
}

fn r(entries: Vec<(&str, Resource)>) -> Resource {
    Resource::R(entries.into_iter().map(|(k, v)| (k.to_string(), v)).collect())
}

fn client(host: &str, port: u16) -> Client {
    Client { host: host.to_string(), port, data: None }
}

fn words(ws: &[&str]) -> Vec<String> {
    ws.iter().map(|w| w.to_string()).collect()
}

fn path(ws: &[&str]) -> Vec<String> {
    words(ws)
}

fn register() -> Register {
    let routers = vec![
        Dir::new("users", ResourceDef::new("users"), &words(&["GET", "POST"]), r(vec![("gateway", p(PER_R))])).unwrap(),
        Dir::new("admin", ResourceDef::new("admin"), &words(&["GET"]), r(vec![])).unwrap(),
    ];
    let res = Res::new(routers, vec![(2, client("10.0.0.1", 8080)), (1, client("10.0.0.2", 9090))]);
    let mut reg = Register::new();
    reg.services.push(("api".to_string(), res));
    let empty = Res::new(vec![Dir::new("/", ResourceDef::new("/"), &words(&["GET"]), r(vec![("gateway", p(PER_R))])).unwrap()], vec![]);
    reg.services.push(("void".to_string(), empty));
    reg
}

fn session() -> Resource {
    // one level down, the route's permissions must lie within the caller's
    r(vec![("gateway", p(PER_C))])
}

#[test]
fn clients_take_turns_by_replica_count() {
    let mut reg = register();
    let s = session();
    let hosts: Vec<String> = (0..4)
        .map(|_| match reg.get(path(&["api", "users"]), "GET", &s) {
            Some(Ok(c)) => format!("{}", c.address()),
            _ => panic!("expected a client"),
        })
        .collect();
    assert_eq!(hosts, vec!["10.0.0.1:8080", "10.0.0.1:8080", "10.0.0.2:9090", "10.0.0.1:8080"]);
}

#[test]
fn empty_segments_are_skipped() {
    let mut reg = register();
    let s = session();
    match reg.get(path(&["", "api", "", "users"]), "POST", &s) {
        Some(Ok(c)) => assert_eq!(c.host(), "10.0.0.1"),
        _ => panic!("expected a client"),
    }
}

#[test]
fn refusals() {
    let mut reg = register();
    let s = session();
    assert!(matches!(reg.get(path(&[]), "GET", &s), Some(Err(RegError::BadRequest))));
    assert!(matches!(reg.get(path(&["", ""]), "GET", &s), Some(Err(RegError::BadRequest))));
    assert!(matches!(reg.get(path(&["nope", "users"]), "GET", &s), Some(Err(RegError::NotFound))));
    assert!(matches!(reg.get(path(&["api", "users"]), "DELETE", &s), Some(Err(RegError::MethodNotAllowed))));
    assert!(matches!(reg.get(path(&["api", "admin"]), "GET", &s), Some(Err(RegError::Forbidden))));
    assert!(matches!(reg.get(path(&["api", "other"]), "GET", &s), Some(Err(RegError::BadRequest))));
    // no second segment: the path is "/", which no route of "api" matches
    // (the segment is matched without a leading slash)
    assert!(matches!(reg.get(path(&["api"]), "GET", &s), Some(Err(RegError::BadRequest))));
}

#[test]
fn a_service_without_clients_cannot_answer() {
    let mut reg = register();
    let s = session();
    assert!(reg.get(path(&["void"]), "GET", &s).is_none());
    assert!(matches!(reg.get(path(&["void"]), "POST", &s), Some(Err(RegError::MethodNotAllowed))));
}

#[test]
fn methods_that_do_not_parse_are_dropped() {
    let d = Dir::new("/x", ResourceDef::new("/x"), &words(&["GET", "G ET", "", "PURGE"]), r(vec![])).unwrap();
    assert!(d.accepts("GET"));
    assert!(d.accepts("PURGE"));
    assert!(!d.accepts("G ET"));
    assert!(!d.accepts(""));
    assert!(!d.accepts("get"));
    assert_eq!(d.method.len(), 2);
}

#[test]
fn statuses_of_refusals() {
    assert_eq!(RegError::ServiceUnavailable.status_code(), 503);
    assert_eq!(RegError::Forbidden.status_code(), 403);
    assert_eq!(RegError::MethodNotAllowed.status_code(), 405);
    assert_eq!(RegError::BadRequest.status_code(), 400);
    assert_eq!(RegError::NotFound.status_code(), 404);
    assert_eq!(RegError::InternalServe.status_code(), 500);
    assert_eq!(RegError::NotFound.message_text(), "//TODO");
    assert_eq!(RegError::NotFound.description_text(), "//TODO");
}

#[test]
fn client_data() {
    let c = Client { host: "h".to_string(), port: 1, data: Some("secret".to_string()) };
    assert_eq!(c.data(), Some("secret".to_string()));
    assert_eq!(c.port(), 1);
    assert_eq!(c.address(), "h:1");
    let d = c.clone();
    assert_eq!(d.data, c.data);
}

#[test]
fn setup_decisions() {
    assert_eq!(APIRegister::setup(false, true, Some(3)), SetupDecision::Fail);
    assert_eq!(APIRegister::setup(true, true, Some(3)), SetupDecision::UseParsed);
    assert_eq!(APIRegister::setup(true, false, Some(0)), SetupDecision::UseEmpty);
    assert_eq!(APIRegister::setup(true, false, Some(5)), SetupDecision::Fail);
    assert_eq!(APIRegister::setup(true, false, None), SetupDecision::Fail);
}

#[test]
fn reload_decisions() {
    assert_eq!(APIRegister::on_request(10, None), ReloadStep::Fail);
    assert_eq!(APIRegister::on_request(10, Some(10)), ReloadStep::Serve);
    assert_eq!(APIRegister::on_request(10, Some(11)), ReloadStep::Read);
    assert_eq!(APIRegister::on_read(None), ReadStep::Fail);
    assert_eq!(APIRegister::on_read(Some("")), ReadStep::UseEmpty);
    assert_eq!(APIRegister::on_read(Some(" \n\t\u{3000}")), ReadStep::UseEmpty);
    assert_eq!(APIRegister::on_read(Some(" [serveses]")), ReadStep::Parse);
}

#[test]
fn a_route_keeps_the_pattern_its_matcher_was_built_from() {
    let d = Dir::new("/users/{id}", ResourceDef::new("/users/{id}"), &words(&["GET"]), r(vec![])).unwrap();
    assert_eq!(d.pattern, "/users/{id}");
    assert!(Dir::new("/users/{id}", ResourceDef::new("/admin"), &words(&["GET"]), r(vec![])).is_none());
}

#[test]
fn method_names_follow_the_token_table() {
    let d = Dir::new("/x", ResourceDef::new("/x"), &words(&["M-SEARCH", "A.B_C~", "X#Y", "A(B", "ÄB", "!*+^`|"]), r(vec![]))
        .unwrap();
    assert!(d.accepts("M-SEARCH"));
    assert!(d.accepts("A.B_C~"));
    assert!(d.accepts("!*+^`|"));
    assert!(!d.accepts("X#Y"));
    assert!(!d.accepts("A(B"));
    assert!(!d.accepts("ÄB"));
}
