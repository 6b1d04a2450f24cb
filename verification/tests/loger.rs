use cookie::{Cookie, CookieJar, Key};
use gateway::loger::{logged_session, login_value, session_of, sign_login, Loger, LogerInner, ObjectId};

#[test]
fn object_ids_read_24_hex_digits() {
    let id = ObjectId::with_string("5f8d0d55b54764421b7156c5").unwrap();
    assert_eq!(id.bytes(), &[0x5f, 0x8d, 0x0d, 0x55, 0xb5, 0x47, 0x64, 0x42, 0x1b, 0x71, 0x56, 0xc5]);
    assert_eq!(id.to_hex(), "5f8d0d55b54764421b7156c5");
    assert!(ObjectId::with_string("5F8D0D55B54764421B7156C5").is_some());
    assert!(ObjectId::with_string("5f8d0d55b54764421b7156").is_none());
    assert!(ObjectId::with_string("5f8d0d55b54764421b7156cg").is_none());
}

#[test]
fn login_value_reads_back_its_session() {
    let id = ObjectId::with_string("00112233445566778899aabb").unwrap();
    let v = login_value(&id, "alice");
    assert_eq!(v, "00112233445566778899aabb::alice");
    assert_eq!(session_of(&v).unwrap().bytes(), id.bytes());
    let v2 = login_value(&id, "bob::x");
    assert_eq!(session_of(&v2).unwrap().bytes(), id.bytes());
    assert!(session_of("nothing::here").is_none());
    assert!(session_of("00112233445566778899aabb").is_some());
}

#[test]
fn only_the_login_cookie_goes_out_renamed() {
    let inner = LogerInner::new("SESSID".to_string());
    assert_eq!(inner.name(), "SESSID");
    let out = Loger::outgoing_cookie(&inner, "GSID").unwrap();
    assert_eq!(out.name, "SESSID");
    assert!(out.flags.secure && out.flags.http_only);
    assert!(Loger::outgoing_cookie(&inner, "other").is_none());
}

const KEY: &[u8] = b"0123456789abcdef0123456789abcdef0123456789abcdef0123456789abcdef";

#[test]
fn a_signed_login_reads_back_its_session() {
    let id = ObjectId::with_string("00112233445566778899aabb").unwrap();
    let raw = sign_login(KEY, &id, "alice");
    assert!(raw.ends_with("00112233445566778899aabb::alice"));
    assert_eq!(raw.len(), 44 + 31);
    assert_eq!(logged_session(KEY, Some(&raw)).unwrap().bytes(), id.bytes());
    // the cookie crate's own signed jar reads the same value
    let mut jar = CookieJar::new();
    jar.add_original(Cookie::new("GSID", raw.clone()));
    assert_eq!(jar.signed(&Key::from(KEY)).get("GSID").unwrap().value(), "00112233445566778899aabb::alice");
}

#[test]
fn unsigned_or_tampered_logins_are_not_sessions() {
    let id = ObjectId::with_string("00112233445566778899aabb").unwrap();
    assert!(logged_session(KEY, None).is_none());
    assert!(logged_session(KEY, Some("00112233445566778899aabb::alice")).is_none());
    let mut raw = sign_login(KEY, &id, "alice");
    raw.push('x');
    assert!(logged_session(KEY, Some(&raw)).is_none());
    let other: &[u8] = b"fedcba9876543210fedcba9876543210fedcba9876543210fedcba9876543210";
    let raw = sign_login(KEY, &id, "alice");
    assert!(logged_session(other, Some(&raw)).is_none());
}

#[test]
fn object_ids_from_bytes() {
    let id = ObjectId::new([0, 0x11, 0x22, 0x33, 0x44, 0x55, 0x66, 0x77, 0x88, 0x99, 0xaa, 0xbb]);
    assert_eq!(id.to_hex(), "00112233445566778899aabb");
    assert_eq!(id.bytes().len(), 12);
}
