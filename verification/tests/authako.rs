use cookie::{Cookie, CookieJar, Key};
use gateway::authako::{AuthakoInner, LoadedSession, Roler};
use gateway::per::{Per, PER_C, PER_R};
use gateway::resource::Resource;

#[test]
fn test() {
    assert_eq!(Resource::default(), Default::default());

    assert_eq!(
        Roler {
            suid: None,
            roles: Default::default(),
        },
        Roler {
            suid: None,
            roles: Default::default(),
        }
    )
}

const MASTER: &[u8] = b"0123456789abcdef0123456789abcdef0123456789";

fn signed(value: &str) -> String {
    let key = Key::derive_from(MASTER);
    let mut jar = CookieJar::new();
    jar.signed(&key).add(Cookie::new("GSID", value.to_string()));
    jar.get("GSID").unwrap().value().to_string()
}

const SID: &str = "67e55044-10b1-426f-9247-bb680e5fe0c8";
const UID: &str = "936da01f-9abd-4d9d-80c7-02af85c822a8";

#[test]
fn load_reads_a_signed_session() {
    let inner = AuthakoInner::new(MASTER);
    assert_eq!(inner.name, "GSID");
    let raw = signed(&format!("{}::{}::{}", SID, UID, r#"{"R":{"gateway":{"P":["c"]}}}"#));
    match inner.load(Some(&raw)) {
        LoadedSession::Member { sid, uid, roles } => {
            assert_eq!(sid, 0x67e55044_10b1_426f_9247_bb680e5fe0c8u128);
            assert_eq!(uid, 0x936da01f_9abd_4d9d_80c7_02af85c822a8u128);
            assert_eq!(roles, r#"{"R":{"gateway":{"P":["c"]}}}"#);
        }
        _ => panic!("expected a member"),
    }
}

#[test]
fn load_without_cookie_is_guest() {
    let inner = AuthakoInner::new(MASTER);
    assert!(matches!(inner.load(None), LoadedSession::Guest));
}

#[test]
fn load_rejects_tampered_cookie() {
    let inner = AuthakoInner::new(MASTER);
    let mut raw = signed(&format!("{}::{}::{{}}", SID, UID));
    raw.push('x');
    assert!(matches!(inner.load(Some(&raw)), LoadedSession::Guest));
    assert!(matches!(inner.load(Some("short")), LoadedSession::Guest));
}

#[test]
fn load_needs_three_pieces() {
    let inner = AuthakoInner::new(MASTER);
    let raw = signed(&format!("{}::{}", SID, UID));
    assert!(matches!(inner.load(Some(&raw)), LoadedSession::Guest));
    let raw = signed(&format!("{}::{}::a::b", SID, UID));
    assert!(matches!(inner.load(Some(&raw)), LoadedSession::Guest));
}

#[test]
fn load_with_bad_uuid_is_malformed() {
    let inner = AuthakoInner::new(MASTER);
    let raw = signed(&format!("not-a-uuid::{}::{{}}", UID));
    assert!(matches!(inner.load(Some(&raw)), LoadedSession::Malformed));
}

#[test]
fn load_splitting_inside_a_character_is_malformed() {
    let inner = AuthakoInner::new(MASTER);
    // 43 ASCII bytes, then a two-byte character across byte 44
    let raw = format!("{}é{}", "a".repeat(43), "b".repeat(10));
    assert!(matches!(inner.load(Some(&raw)), LoadedSession::Malformed));
}

#[test]
fn default_roler_has_default_scope() {
    let r = Roler::default();
    assert!(r.suid.is_none());
    match &r.roles {
        Resource::R(m) => {
            assert_eq!(m.len(), 1);
            assert_eq!(m[0].0, "gateway");
            match &m[0].1 {
                Resource::P(p) => assert_eq!(p.bits(), PER_R),
                _ => panic!(),
            }
        }
        _ => panic!(),
    }
    let _ = Per::from_bits(PER_C);
}
