//! The login session: the value the login cookie carries, and how the
//! session middleware hands the cookie out under its configured name.
use vstd::prelude::*;
use vstd::string::*;
use crate::text::{
    decode_hex, encode_hex, hex_decode, hex_encode, lemma_hex_round_trip, pieces, sep_at,
    split_pieces, views, first_sep,
};
use cookie::{Cookie, CookieJar, Key};

verus! {

/// A 12-byte session id, written as 24 lowercase hexadecimal digits.
#[derive(Debug)]
pub struct ObjectId {
    bytes: Vec<u8>,
}

impl View for ObjectId {
    type V = Seq<u8>;

    /// The id's bytes.
    closed spec fn view(&self) -> Seq<u8> {
        self.bytes@
    }
}

/// The session id that a text spells: exactly 24 hexadecimal digits.
pub open spec fn object_id_of(s: Seq<char>) -> Option<Seq<u8>> {
    match hex_decode(s) {
        Some(b) => if b.len() == 12 {
            Some(b)
        } else {
            None
        },
        None => None,
    }
}

impl ObjectId {
    /// An id is always 12 bytes long.
    #[verifier::type_invariant]
    spec fn inv(self) -> bool {
        self.bytes@.len() == 12
    }

    /// The id with these bytes.
    pub fn new(bytes: [u8; 12]) -> (o: ObjectId)
        ensures
            o@ == bytes@,
    {
        let mut v: Vec<u8> = Vec::new();
        let mut i: usize = 0;
        while i < 12
            invariant
                i <= 12,
                bytes@.len() == 12,
                v@ == bytes@.take(i as int),
            decreases 12 - i,
        {
            v.push(bytes[i]);
            i = i + 1;
            assert(v@ =~= bytes@.take(i as int));
        }
        assert(bytes@.take(12) =~= bytes@);
        ObjectId { bytes: v }
    }

    /// The id's bytes.
    pub fn bytes(&self) -> (b: &[u8])
        ensures
            b@ == self@,
            b@.len() == 12,
    {
        proof {
            use_type_invariant(self);
        }
        self.bytes.as_slice()
    }

    /// Reads a session id from its hexadecimal text (either case).
    pub fn with_string(s: &str) -> (r: Option<ObjectId>)
        ensures
            match r {
                Some(o) => object_id_of(s@) == Some(o@),
                None => object_id_of(s@) is None,
            },
    {
        match decode_hex(s) {
            Some(b) => if b.len() == 12 {
                Some(ObjectId { bytes: b })
            } else {
                None
            },
            None => None,
        }
    }

    /// The id as lowercase hexadecimal text.
    pub fn to_hex(&self) -> (r: String)
        ensures
            r@ == hex_encode(self@),
    {
        encode_hex(&self.bytes)
    }
}

/// A session id reads back from its own hexadecimal text.
pub proof fn lemma_object_id_round_trip(bytes: Seq<u8>)
    requires
        bytes.len() == 12,
    ensures
        object_id_of(hex_encode(bytes)) == Some(bytes),
{
    lemma_hex_round_trip(bytes);
}

/// The value of the login cookie: the session id in hexadecimal, `::`, and
/// the user's id.
pub open spec fn login_value_of(session: Seq<u8>, user_id: Seq<char>) -> Seq<char> {
    hex_encode(session) + "::"@ + user_id
}

/// The value of the login cookie for a session of a user.
pub fn login_value(session: &ObjectId, user_id: &str) -> (r: String)
    ensures
        r@ == login_value_of(session@, user_id@),
{
    session.to_hex().concat("::").concat(user_id)
}

/// The session a verified login cookie value names: the id spelled by the
/// value's text before its first `::` (or the whole value, without one).
pub open spec fn session_of_value(v: Seq<char>) -> Option<Seq<u8>> {
    object_id_of(pieces(v)[0])
}

/// Reads the session id from a verified login cookie value.
pub fn session_of(value: &str) -> (r: Option<ObjectId>)
    ensures
        match r {
            Some(o) => session_of_value(value@) == Some(o@),
            None => session_of_value(value@) is None,
        },
{
    let parts = split_pieces(value);
    proof {
        lemma_pieces_nonempty(value@);
    }
    assert(views(parts@)[0] == parts@[0]@);
    ObjectId::with_string(parts[0].as_str())
}

/// Whether a raw signed cookie value can be split after its 44-character
/// signature: it is shorter, or its 44th byte ends a character.
pub open spec fn splits_after_signature(raw: Seq<char>) -> bool {
    vstd::utf8::encode_utf8(raw).len() < 44 || vstd::utf8::is_char_boundary(
        vstd::utf8::encode_utf8(raw),
        44,
    )
}

/// What the signed jar of `cookie` gives back for a login cookie with raw
/// value `raw`, under the key that `Key::from` makes of `key`: its value with
/// the signature checked and stripped, or nothing when the signature does
/// not check.
pub uninterp spec fn login_signed_value(key: Seq<u8>, raw: Seq<char>) -> Option<Seq<char>>;

/// `Key::from`, `CookieJar::add_original` and `SignedJar::get`: the verified
/// value of a login cookie with raw value `raw`. `Key::from` panics on a key
/// shorter than 64 bytes, and splitting off the signature panics where the
/// 44th byte does not end a character. The signature is the first 44
/// characters (a base64 HMAC), so a value comes back only from a raw value
/// at least that long, and it is what follows them.
#[verifier::external_body]
fn verify_login(key: &[u8], raw: &str) -> (r: Option<String>)
    requires
        key@.len() >= 64,
        splits_after_signature(raw@),
    ensures
        match r {
            Some(v) => login_signed_value(key@, raw@) == Some(v@),
            None => login_signed_value(key@, raw@) is None,
        },
        r matches Some(v) ==> raw@.len() >= 44 && v@ == raw@.skip(44),
{
    let key = Key::from(key);
    let mut jar = CookieJar::new();
    jar.add_original(Cookie::new("GSID", raw.to_string()));
    jar.signed(&key).get("GSID").map(|c| c.value().to_string())
}

/// `Key::from`, `SignedJar::add` and `CookieJar::get`: the raw value of a
/// login cookie signed under the key, which is the base64 HMAC of the value
/// (44 ASCII characters) followed by the value. The signed jar reads the
/// value back from it, since it computes the same HMAC of the same value.
#[verifier::external_body]
fn sign_login_value(key: &[u8], value: &str) -> (r: String)
    requires
        key@.len() >= 64,
    ensures
        login_signed_value(key@, r@) == Some(value@),
        splits_after_signature(r@),
{
    let key = Key::from(key);
    let mut jar = CookieJar::new();
    jar.signed(&key).add(Cookie::new("GSID", value.to_string()));
    jar.get("GSID").map(|c| c.value().to_string()).unwrap_or_default()
}

/// The session of the logged-in caller that the raw login cookie names,
/// once its signature is checked under `key`.
pub open spec fn logged_session_of(key: Seq<u8>, raw: Option<Seq<char>>) -> Option<Seq<u8>> {
    match raw {
        None => None,
        Some(v) => match login_signed_value(key, v) {
            None => None,
            Some(value) => session_of_value(value),
        },
    }
}

/// The session of the logged-in caller: no login cookie, or one whose
/// signature does not check under `key`, gives none; otherwise the session
/// its verified value names (see [`session_of_value`]).
pub fn logged_session(key: &[u8], raw: Option<&str>) -> (r: Option<ObjectId>)
    requires
        key@.len() >= 64,
        raw matches Some(v) ==> splits_after_signature(v@),
    ensures
        match r {
            Some(o) => logged_session_of(
                key@,
                match raw {
                    Some(v) => Some(v@),
                    None => None,
                },
            ) == Some(o@),
            None => logged_session_of(
                key@,
                match raw {
                    Some(v) => Some(v@),
                    None => None,
                },
            ) is None,
        },
{
    match raw {
        None => None,
        Some(v) => match verify_login(key, v) {
            None => None,
            Some(value) => session_of(value.as_str()),
        },
    }
}

/// The raw value of the login cookie that logs a session of a user in,
/// signed under `key`; reading it back gives the session (see
/// [`lemma_login_reads_back`]).
pub fn sign_login(key: &[u8], session: &ObjectId, user_id: &str) -> (r: String)
    requires
        key@.len() >= 64,
    ensures
        login_signed_value(key@, r@) == Some(login_value_of(session@, user_id@)),
        splits_after_signature(r@),
        logged_session_of(key@, Some(r@)) == Some(session@),
{
    let value = login_value(session, user_id);
    let r = sign_login_value(key, value.as_str());
    proof {
        use_type_invariant(session);
        lemma_login_reads_back(key@, r@, session@, user_id@);
    }
    r
}

/// Reading back the signed login cookie of a session gives that session:
/// whenever the signature of a raw value checks and yields the login value
/// of a session, the caller is logged in with that session.
pub proof fn lemma_login_reads_back(key: Seq<u8>, raw: Seq<char>, session: Seq<u8>, user_id: Seq<char>)
    requires
        session.len() == 12,
        login_signed_value(key, raw) == Some(login_value_of(session, user_id)),
    ensures
        logged_session_of(key, Some(raw)) == Some(session),
{
    lemma_login_value_round_trip(session, user_id);
}

/// Splitting never gives an empty list.
pub proof fn lemma_pieces_nonempty(s: Seq<char>)
    ensures
        pieces(s).len() >= 1,
    decreases s.len(),
{
    if let Some(i) = first_sep(s) {
        if 0 <= i && i + 2 <= s.len() {
            lemma_pieces_nonempty(s.skip(i + 2));
        }
    }
}

/// The session read back from the login cookie of a session is that
/// session: whatever the user id, the value's first piece is the session's
/// hexadecimal text.
pub proof fn lemma_login_value_round_trip(session: Seq<u8>, user_id: Seq<char>)
    requires
        session.len() == 12,
    ensures
        session_of_value(login_value_of(session, user_id)) == Some(session),
{
    let h = hex_encode(session);
    let v = login_value_of(session, user_id);
    reveal_strlit("::");
    assert(v =~= h + seq![':', ':'] + user_id);
    assert(h.len() == 24);
    assert forall|j: int| 0 <= j < 24 implies #[trigger] v[j] != ':' by {
        assert(v[j] == h[j]);
        if j % 2 == 0 {
            assert(h[j] == crate::text::hex_digit(session[j / 2] / 16));
        } else {
            assert(h[j] == crate::text::hex_digit(session[j / 2] % 16));
        }
    }
    assert(sep_at(v, 24));
    assert forall|j: int| 0 <= j < 24 implies !#[trigger] sep_at(v, j) by {
        assert(v[j] != ':');
    }
    assert(crate::text::is_first_sep(v, 24));
    assert(first_sep(v) == Some(24int)) by {
        let c = choose|c: int| crate::text::is_first_sep(v, c);
        if c < 24 {
            assert(!sep_at(v, c));
        } else if c > 24 {
            assert(!sep_at(v, 24));
        }
    }
    assert(pieces(v)[0] == v.take(24));
    assert(v.take(24) =~= h);
    lemma_hex_round_trip(session);
}

/// The name under which the login cookie is kept inside the gateway.
pub open spec fn login_cookie_name() -> Seq<char> {
    "GSID"@
}

/// The configured name under which the session middleware sends the login
/// cookie out.
pub struct LogerInner {
    pub name: String,
}

impl LogerInner {
    pub fn new(name: String) -> (r: LogerInner)
        ensures
            r.name@ == name@,
    {
        LogerInner { name }
    }

    pub fn name(&self) -> (r: String)
        ensures
            r@ == self.name@,
    {
        self.name.clone()
    }
}

/// The flags a cookie is sent out with.
#[derive(Clone, Copy, Debug, PartialEq, Eq, Structural)]
pub struct CookieFlags {
    /// Sent over HTTPS only.
    pub secure: bool,
    /// Out of reach of scripts.
    pub http_only: bool,
}

/// Whether a cookie goes out over HTTPS only and out of reach of scripts.
pub open spec fn guarded(f: CookieFlags) -> bool {
    f.secure && f.http_only
}

/// The flags of the gateway's own cookies: HTTPS only, out of reach of
/// scripts.
pub fn guarded_flags() -> (f: CookieFlags)
    ensures
        guarded(f),
{
    CookieFlags { secure: true, http_only: true }
}

/// A cookie set during a request, as it is sent out.
pub struct Outgoing {
    pub name: String,
    pub flags: CookieFlags,
}

/// The session middleware.
pub struct Loger;

impl Loger {
    /// How a cookie set during a request is sent out: the login cookie
    /// (`GSID`) goes out under the configured name, over HTTPS only and out
    /// of reach of scripts; other cookies are not sent by it.
    pub fn outgoing_cookie(inner: &LogerInner, cookie_name: &str) -> (r: Option<Outgoing>)
        ensures
            cookie_name@ == login_cookie_name() ==> (r matches Some(o) && o.name@ == inner.name@
                && guarded(o.flags)),
            cookie_name@ != login_cookie_name() ==> r is None,
    {
        let name = String::from_str(cookie_name);
        let gsid = String::from_str("GSID");
        if name == gsid {
            Some(Outgoing { name: inner.name(), flags: guarded_flags() })
        } else {
            None
        }
    }
}

} // verus!
