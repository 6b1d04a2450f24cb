//! Who is calling: the signed session cookie is read into the caller's
//! session ids and the scope it was granted.
use vstd::prelude::*;
use vstd::string::*;
use crate::resource::{is_default_resource, wf, Resource};
use crate::text::{pieces, split_pieces, views};
use cookie::{Cookie, CookieJar, Key};
use uuid::Uuid;

verus! {

/// What `Uuid::parse_str` gives for a text, as the UUID's 128-bit value.
pub uninterp spec fn uuid_parse(s: Seq<char>) -> Option<u128>;

/// `Uuid::parse_str`, then `Uuid::as_u128`: the UUID a text spells, if any.
#[verifier::external_body]
fn parse_uuid(s: &str) -> (r: Option<u128>)
    ensures
        r == uuid_parse(s@),
{
    Uuid::parse_str(s).ok().map(|u| u.as_u128())
}

/// What the signed jar of `cookie` gives back for a cookie, under a key
/// derived from the master key: its value with the signature checked and
/// stripped, or nothing when the signature does not check.
pub uninterp spec fn signed_value(master: Seq<u8>, name: Seq<char>, raw: Seq<char>) -> Option<
    Seq<char>,
>;

/// `Key::derive_from`, `CookieJar::add_original` and `SignedJar::get`: the
/// verified value of cookie `name` with raw value `raw`. The signature is
/// the first 44 characters (a base64 HMAC), so a value comes back only from
/// a raw value at least that long, and it is what follows them. Key
/// derivation panics on a master key shorter than 32 bytes, and splitting
/// the raw value panics where byte 44 is not a character boundary.
#[verifier::external_body]
fn verify_signed(master: &[u8], name: &str, raw: &str) -> (r: Option<String>)
    requires
        master@.len() >= 32,
        raw.spec_bytes().len() < 44 || vstd::utf8::is_char_boundary(raw.spec_bytes(), 44),
    ensures
        match r {
            Some(v) => signed_value(master@, name@, raw@) == Some(v@),
            None => signed_value(master@, name@, raw@) is None,
        },
        r matches Some(v) ==> raw@.len() >= 44 && v@ == raw@.skip(44),
{
    let key = Key::derive_from(master);
    let mut jar = CookieJar::new();
    jar.add_original(Cookie::new(name.to_string(), raw.to_string()));
    jar.signed(&key).get(name).map(|c| c.value().to_string())
}

/// The caller of a request: its session and user ids, if it has a session,
/// and the scope it was granted.
#[derive(Debug, PartialEq)]
pub struct Roler {
    pub suid: Option<(u128, u128)>,
    pub roles: Resource,
}

impl Default for Roler {
    /// A caller without a session, with the default scope.
    fn default() -> (r: Self)
        ensures
            r.suid is None,
            is_default_resource(r.roles),
            wf(r.roles),
    {
        Roler { suid: None, roles: Resource::default() }
    }
}

/// What the session cookie of a request says.
pub enum LoadedSession {
    /// No usable session: no cookie, a signature that does not check, or a
    /// value that is not three `::`-separated pieces.
    Guest,
    /// A session: its id, its user's id and the scope text (JSON).
    Member { sid: u128, uid: u128, roles: String },
    /// A cookie that cannot be taken apart: its value splits
    /// at a byte that is not a character boundary, or one of its ids is not
    /// a UUID.
    Malformed,
}

/// The name of the session cookie.
pub open spec fn session_cookie_name() -> Seq<char> {
    "GSID"@
}

/// The outcome of reading a verified session value `v`: three pieces whose
/// first two are UUIDs make a member, three pieces otherwise are malformed,
/// anything else is a guest.
pub open spec fn session_of_value(v: Seq<char>) -> LoadedSession {
    let p = pieces(v);
    if p.len() != 3 {
        LoadedSession::Guest
    } else {
        match (uuid_parse(p[0]), uuid_parse(p[1])) {
            (Some(s), Some(u)) => LoadedSession::Member { sid: s, uid: u, roles: arbitrary() },
            _ => LoadedSession::Malformed,
        }
    }
}

/// Whether `r` is the outcome of reading a verified session value `v`; a
/// member's scope text is the third piece.
pub open spec fn reads_as(v: Seq<char>, r: LoadedSession) -> bool {
    let p = pieces(v);
    match session_of_value(v) {
        LoadedSession::Member { sid, uid, .. } => r matches LoadedSession::Member {
            sid: s,
            uid: u,
            roles,
        } && s == sid && u == uid && roles@ == p[2],
        LoadedSession::Guest => r is Guest,
        LoadedSession::Malformed => r is Malformed,
    }
}

/// The session reader's key and cookie name.
pub struct AuthakoInner {
    pub key: Vec<u8>,
    pub name: String,
}

impl AuthakoInner {
    /// A reader for the `GSID` cookie under the given master key (at least
    /// 32 bytes: the signing key is derived from it).
    pub fn new(key: &[u8]) -> (r: AuthakoInner)
        requires
            key@.len() >= 32,
        ensures
            r.key@ == key@,
            r.name@ == session_cookie_name(),
    {
        let mut k: Vec<u8> = Vec::new();
        let mut i: usize = 0;
        while i < key.len()
            invariant
                i <= key@.len(),
                k@ == key@.take(i as int),
            decreases key@.len() - i,
        {
            k.push(key[i]);
            i = i + 1;
            assert(k@ =~= key@.take(i as int));
        }
        assert(key@.take(key@.len() as int) =~= key@);
        AuthakoInner { key: k, name: String::from_str("GSID") }
    }

    /// Reads the raw value of the request's session cookie, if it has one:
    /// the signature is checked (a raw value that splits at a byte inside a
    /// character is malformed), then the verified value read with
    /// [`reads_as`].
    pub fn load(&self, cookie: Option<&str>) -> (r: LoadedSession)
        requires
            self.key@.len() >= 32,
        ensures
            cookie is None ==> r is Guest,
            cookie matches Some(raw) ==> {
                if !(raw.spec_bytes().len() < 44 || vstd::utf8::is_char_boundary(
                    raw.spec_bytes(),
                    44,
                )) {
                    r is Malformed
                } else {
                    match signed_value(self.key@, self.name@, raw@) {
                        None => r is Guest,
                        Some(v) => reads_as(v, r),
                    }
                }
            },
    {
        let raw = match cookie {
            None => return LoadedSession::Guest,
            Some(raw) => raw,
        };
        if raw.as_bytes().len() >= 44 && !raw.is_char_boundary(44) {
            return LoadedSession::Malformed;
        }
        let value = match verify_signed(self.key.as_slice(), self.name.as_str(), raw) {
            None => return LoadedSession::Guest,
            Some(v) => v,
        };
        let parts = split_pieces(value.as_str());
        assert(pieces(value@).len() == parts@.len());
        if parts.len() != 3 {
            return LoadedSession::Guest;
        }
        assert(views(parts@)[0] == parts@[0]@);
        assert(views(parts@)[1] == parts@[1]@);
        assert(views(parts@)[2] == parts@[2]@);
        let sid = parse_uuid(parts[0].as_str());
        let uid = parse_uuid(parts[1].as_str());
        match (sid, uid) {
            (Some(s), Some(u)) => {
                let r = LoadedSession::Member { sid: s, uid: u, roles: parts[2].clone() };
                assert(reads_as(value@, r));
                r
            },
            _ => {
                assert(session_of_value(value@) is Malformed);
                LoadedSession::Malformed
            },
        }
    }
}

/// The session middleware: every request reads its caller from the session
/// cookie.
pub struct Authako;

} // verus!
