use gateway::config::Config;
use gateway::error::{gateway_message, negotiate, BodyFormat};
use gateway::lgerror::{InternalError, LGEInfo, PError};
use gateway::lgvalue::{value_format, LGValueError, ValueFormat, ValueStream};

fn words(ws: &[&str]) -> Vec<String> {
    ws.iter().map(|w| w.to_string()).collect()
}

#[test]
fn gateway_messages() {
    assert_eq!(gateway_message(400), Some("Oh, sorry something wrong with your provided information"));
    assert_eq!(gateway_message(404), Some("Oh, that thing you are looking for is not found"));
    assert_eq!(gateway_message(500), Some("Oops, something went wrong"));
    assert_eq!(gateway_message(501), Some("Oh, sorry we don't have a service with that name"));
    assert_eq!(gateway_message(504), Some("Oops, something wrong with the service that you looking for"));
    assert_eq!(gateway_message(403), None);
}

#[test]
fn error_body_format() {
    assert_eq!(negotiate(&words(&[])), BodyFormat::Json);
    assert_eq!(negotiate(&words(&["text/html", "application/yaml", "application/ron"])), BodyFormat::Yaml);
    assert_eq!(negotiate(&words(&["application/ron", "application/yaml"])), BodyFormat::Ron);
    assert_eq!(negotiate(&words(&["application/json"])), BodyFormat::Json);
}

#[test]
fn statuses() {
    assert_eq!(InternalError.status_code(), 500);
    assert_eq!(InternalError.message_text(), "//TODO");
    assert_eq!(PError::Forwarded.status_code(), 400);
    assert_eq!(PError::ParseForwarded.status_code(), 500);
    assert_eq!(PError::PayloadError.status_code(), 500);
    assert_eq!(PError::SendRequest { status: 504 }.status_code(), 504);
    let e: InternalError = serde_json::from_str::<u8>("x").unwrap_err().into();
    assert_eq!(e.status_code(), 500);
}

#[test]
fn value_formats_and_stream() {
    assert_eq!(value_format("json"), Some(ValueFormat::Json));
    assert_eq!(value_format("x-yaml"), Some(ValueFormat::Yaml));
    assert_eq!(value_format("yaml"), Some(ValueFormat::Yaml));
    assert_eq!(value_format("xml"), Some(ValueFormat::Xml));
    assert_eq!(value_format("msgpack"), Some(ValueFormat::MsgPack));
    assert_eq!(value_format("html"), None);
    let mut s = ValueStream { eof: false };
    assert!(s.poll_next());
    assert!(!s.poll_next());
    assert!(!s.poll_next());
    let _ = LGValueError;
}

#[test]
fn listen_addresses() {
    let c = Config {
        port: 8080,
        sport: 8443,
        host: "0.0.0.0".to_string(),
        pk: "key.pem".to_string(),
        cc: "cert.pem".to_string(),
        key: "k".to_string(),
        appname: "gateway".to_string(),
        description: "d".to_string(),
        sessid: "SID".to_string(),
    };
    assert_eq!(c.http_address(), "0.0.0.0:8080");
    assert_eq!(c.https_address(), "0.0.0.0:8443");
}
