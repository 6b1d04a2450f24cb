//! Signing up: the checks on the sign-up form, the error codes it reports,
//! and the steps from a submitted form to a logged-in session.
use vstd::prelude::*;
use vstd::string::*;
use crate::forms::{check_token, is_ascii_alnum, token_matches};
use crate::loger::ObjectId;
use crate::seission::{after_user_lookup, bcrypt_verifies, LoginAction};
use crate::text::{decimal, decimal_chars, string_of_chars};

verus! {

/// Whether `validator::validate_email` accepts a text as an e-mail address.
pub uninterp spec fn email_valid(s: Seq<char>) -> bool;

/// `validator::validate_email`: whether the text is an e-mail address (in
/// the HTML form sense); empty text and text without `@` never are.
#[verifier::external_body]
fn validate_email(s: &str) -> (r: bool)
    ensures
        r == email_valid(s@),
        s@.len() == 0 || !s@.contains('@') ==> !r,
{
    validator::validate_email(s)
}

/// The digit character of a value below ten.
pub open spec fn digit_char(d: int) -> char {
    (48 + d) as char
}

/// The start of a bcrypt hash made at `cost` (from 4 to 31): version `2b`
/// and the cost in two digits, as in `$2b$12$`.
pub open spec fn bcrypt_prefix(cost: u32) -> Seq<char> {
    seq!['$', '2', 'b', '$', digit_char((cost / 10) as int), digit_char((cost % 10) as int), '$']
}

/// Whether `h` is a bcrypt hash in the form `bcrypt::hash` writes at
/// `cost`: the prefix of [`bcrypt_prefix`], then 22 characters of salt and
/// 31 of hash.
pub open spec fn bcrypt_hash_at(h: Seq<char>, cost: u32) -> bool {
    &&& 4 <= cost <= 31
    &&& h.len() == 60
    &&& h.take(7) == bcrypt_prefix(cost)
}

/// `bcrypt::hash` with the given cost: a hash of the password under a fresh
/// random salt, or nothing if hashing fails (a cost outside 4 to 31, or no
/// randomness to be had). The hash itself rests on the salt; what is stated
/// is that it is written at the given cost (see [`bcrypt_hash_at`]) and
/// that `bcrypt::verify` accepts the password against it, since it hashes
/// the password again under the salt and cost that the hash carries.
#[verifier::external_body]
fn hash_password(password: &str, cost: u32) -> (r: Option<String>)
    ensures
        r matches Some(h) ==> bcrypt_verifies(password@, h@) == Some(true),
        r matches Some(h) ==> bcrypt_hash_at(h@, cost),
{
    bcrypt::hash(password, cost).ok()
}

/// The bcrypt cost of stored password hashes.
pub const HASH_COST: u32 = 12;

/// Whether a character may stand in a user name.
pub open spec fn username_char(c: char) -> bool {
    is_ascii_alnum(c) || c == '.' || c == '_'
}

/// Checks that a user name is made of ASCII letters, digits, `.` and `_`;
/// the error carries the code `username`.
pub fn validate_username(username: &str) -> (r: Result<(), String>)
    ensures
        r is Ok <==> forall|i: int| 0 <= i < username@.len() ==> username_char(#[trigger] username@[i]),
        r matches Err(code) ==> code@ == "username"@,
{
    let n = username.unicode_len();
    let mut i: usize = 0;
    while i < n
        invariant
            n == username@.len(),
            i <= n,
            forall|j: int| 0 <= j < i ==> username_char(#[trigger] username@[j]),
        decreases n - i,
    {
        let c = username.get_char(i);
        let x = c as u32;
        let ok = (0x30 <= x && x <= 0x39) || (0x41 <= x && x <= 0x5a) || (0x61 <= x && x <= 0x7a)
            || c == '.' || c == '_';
        if !ok {
            assert(!username_char(username@[i as int]));
            return Err(String::from_str("username"));
        }
        i = i + 1;
    }
    Ok(())
}

/// The sign-up form.
pub struct CredentialsJoin {
    pub authenticity_token: String,
    pub username: String,
    pub email: String,
    pub password: String,
}

/// Whether a user name passes: 5 to 25 characters, each allowed.
pub open spec fn username_ok(u: Seq<char>) -> bool {
    &&& 5 <= u.len() <= 25
    &&& forall|i: int| 0 <= i < u.len() ==> username_char(#[trigger] u[i])
}

/// Whether a password passes: at least 8 characters.
pub open spec fn password_ok(p: Seq<char>) -> bool {
    p.len() >= 8
}

/// The code of a field that fails: `empty` when the field is empty, else
/// `invalid`.
pub open spec fn field_code(fails: bool, value: Seq<char>, empty: u8, invalid: u8) -> Seq<u8> {
    if !fails {
        Seq::empty()
    } else if value.len() == 0 {
        seq![empty]
    } else {
        seq![invalid]
    }
}

/// The codes of the fields of a sign-up form that fail their checks, in the
/// order user name (1 empty, 4 invalid), e-mail (2, 5), password (3, 6).
pub open spec fn form_codes(username: Seq<char>, email: Seq<char>, password: Seq<char>) -> Seq<u8> {
    field_code(!username_ok(username), username, 1, 4) + field_code(!email_valid(email), email, 2, 5)
        + field_code(!password_ok(password), password, 3, 6)
}

/// A sequence joined from two holds exactly what either holds.
proof fn lemma_concat_contains(a: Seq<u8>, b: Seq<u8>)
    ensures
        forall|x: u8| #[trigger] (a + b).contains(x) <==> a.contains(x) || b.contains(x),
{
    assert forall|x: u8| #[trigger] (a + b).contains(x) <==> a.contains(x) || b.contains(x) by {
        if (a + b).contains(x) {
            let i = choose|i: int| 0 <= i < (a + b).len() && (a + b)[i] == x;
            if i < a.len() {
                assert(a[i] == x);
            } else {
                assert(b[i - a.len()] == x);
            }
        }
        if a.contains(x) {
            let i = choose|i: int| 0 <= i < a.len() && a[i] == x;
            assert((a + b)[i] == x);
        }
        if b.contains(x) {
            let i = choose|i: int| 0 <= i < b.len() && b[i] == x;
            assert((a + b)[a.len() + i] == x);
        }
    }
}

/// The codes of a form hold a code exactly when one of its fields reports
/// it.
proof fn lemma_form_codes_contain(u: Seq<char>, e: Seq<char>, p: Seq<char>)
    ensures
        forall|x: u8|
            #[trigger] form_codes(u, e, p).contains(x) <==> field_code(!username_ok(u), u, 1, 4).contains(
                x,
            ) || field_code(!email_valid(e), e, 2, 5).contains(x) || field_code(
                !password_ok(p),
                p,
                3,
                6,
            ).contains(x),
{
    let fu = field_code(!username_ok(u), u, 1, 4);
    let fe = field_code(!email_valid(e), e, 2, 5);
    let fp = field_code(!password_ok(p), p, 3, 6);
    lemma_concat_contains(fu, fe);
    lemma_concat_contains(fu + fe, fp);
}

/// A user name character is an ASCII letter of either case, an ASCII digit,
/// `.` or `_`, and nothing else: a user name of 5 to 25 such characters
/// reports no user name code, and any other non-empty user name reports
/// code 4, whatever the other fields hold.
pub proof fn lemma_user_name_rule(u: Seq<char>, e: Seq<char>, p: Seq<char>)
    ensures
        forall|c: char|
            #[trigger] username_char(c) <==> (0x41 <= c as u32 && c as u32 <= 0x5a) || (0x61
                <= c as u32 && c as u32 <= 0x7a) || (0x30 <= c as u32 && c as u32 <= 0x39) || c
                == '.' || c == '_',
        (5 <= u.len() <= 25 && forall|i: int|
            0 <= i < u.len() ==> {
                let x = #[trigger] u[i] as u32;
                (0x41 <= x <= 0x5a) || (0x61 <= x <= 0x7a) || (0x30 <= x <= 0x39) || u[i] == '.'
                    || u[i] == '_'
            }) ==> !form_codes(u, e, p).contains(1u8) && !form_codes(u, e, p).contains(4u8),
        u.len() > 0 && !(5 <= u.len() <= 25 && forall|i: int|
            0 <= i < u.len() ==> {
                let x = #[trigger] u[i] as u32;
                (0x41 <= x <= 0x5a) || (0x61 <= x <= 0x7a) || (0x30 <= x <= 0x39) || u[i] == '.'
                    || u[i] == '_'
            }) ==> form_codes(u, e, p).contains(4u8),
{
    lemma_form_codes_contain(u, e, p);
    assert(seq![4u8][0] == 4u8);
}

/// A password reports no code when it has 8 characters or more, however
/// long; an empty one reports code 3 and a shorter one code 6, whatever the
/// other fields hold.
pub proof fn lemma_password_rule(u: Seq<char>, e: Seq<char>, p: Seq<char>)
    ensures
        p.len() >= 8 ==> !form_codes(u, e, p).contains(3u8) && !form_codes(u, e, p).contains(6u8),
        p.len() == 0 ==> form_codes(u, e, p).contains(3u8),
        0 < p.len() < 8 ==> form_codes(u, e, p).contains(6u8),
{
    lemma_form_codes_contain(u, e, p);
    assert(seq![3u8][0] == 3u8);
    assert(seq![6u8][0] == 6u8);
}

impl CredentialsJoin {
    /// The codes of the fields that fail their checks; see [`form_codes`].
    pub fn error_codes(&self) -> (v: Vec<u8>)
        ensures
            v@ == form_codes(self.username@, self.email@, self.password@),
            self.email@.len() == 0 || !self.email@.contains('@') ==> !email_valid(self.email@),
    {
        let mut v: Vec<u8> = Vec::new();
        let ulen = self.username.as_str().unicode_len();
        let uok = 5 <= ulen && ulen <= 25 && validate_username(self.username.as_str()).is_ok();
        if !uok {
            v.push(if ulen == 0 { 1 } else { 4 });
        }
        let ghost v1 = v@;
        assert(v1 =~= field_code(!username_ok(self.username@), self.username@, 1, 4));
        let elen = self.email.as_str().unicode_len();
        if !validate_email(self.email.as_str()) {
            v.push(if elen == 0 { 2 } else { 5 });
        }
        let ghost v2 = v@;
        assert(v2 =~= v1 + field_code(!email_valid(self.email@), self.email@, 2, 5));
        let plen = self.password.as_str().unicode_len();
        if plen < 8 {
            v.push(if plen == 0 { 3 } else { 6 });
        }
        assert(v@ =~= v2 + field_code(!password_ok(self.password@), self.password@, 3, 6));
        v
    }
}

/// The codes separated by `, `.
pub open spec fn codes_body(codes: Seq<u8>) -> Seq<char>
    decreases codes.len(),
{
    if codes.len() == 0 {
        Seq::empty()
    } else if codes.len() == 1 {
        decimal(codes[0] as nat)
    } else {
        codes_body(codes.drop_last()) + ", "@ + decimal(codes.last() as nat)
    }
}

/// Where a failed sign-up is sent: the sign-up page, with the codes as a
/// list in its fragment (`/join#e:[1, 4]`).
pub open spec fn join_error_location_of(codes: Seq<u8>) -> Seq<char> {
    "/join#e:["@ + codes_body(codes) + "]"@
}

/// Where a failed sign-up is sent; see [`join_error_location_of`].
pub fn join_error_location(codes: &Vec<u8>) -> (r: String)
    ensures
        r@ == join_error_location_of(codes@),
{
    let mut chars: Vec<char> = Vec::new();
    let mut i: usize = 0;
    while i < codes.len()
        invariant
            i <= codes.len(),
            chars@ == codes_body(codes@.take(i as int)),
        decreases codes.len() - i,
    {
        let ghost before = chars@;
        if i > 0 {
            chars.push(',');
            chars.push(' ');
        }
        let mut d = decimal_chars(codes[i] as u64);
        chars.append(&mut d);
        proof {
            let t = codes@.take(i + 1);
            assert(t.drop_last() =~= codes@.take(i as int));
            reveal_strlit(", ");
            if i > 0 {
                assert(chars@ =~= codes_body(t.drop_last()) + ", "@ + decimal(t.last() as nat));
            } else {
                assert(chars@ =~= decimal(t[0] as nat));
            }
        }
        i = i + 1;
    }
    assert(codes@.take(codes.len() as int) =~= codes@);
    let body = string_of_chars(&chars);
    String::from_str("/join#e:[").concat(body.as_str()).concat("]")
}

/// What happens next while signing up.
pub enum JoinEvent {
    /// The form arrived: whether the shared data could be had, whether the
    /// caller is logged in, and the request's token cookie.
    Submitted { data_ok: bool, logged_in: bool, cookie_token: Option<String> },
    /// The user name was looked up: `None` when the lookup failed, else
    /// whether a user of that name exists.
    UserLookup(Option<bool>),
    /// The new user was stored, or not.
    UserInserted(bool),
    /// A session was opened for the user: its id, if it has one.
    SessionInserted(Option<ObjectId>),
}

/// What to do next while signing up.
pub enum JoinAction {
    /// Look the user name up.
    FindUser,
    /// Store the user with this password hash and the form's e-mail.
    InsertUser { hash: String },
    /// Open a session for the user.
    InsertSession,
    /// Log this session in and send the caller to `/`.
    Login { session: ObjectId },
    /// Send the caller to this location.
    Redirect(String),
}

/// Whether `a` sends the caller back to the sign-up page with `codes`.
pub open spec fn redirects_with(a: JoinAction, codes: Seq<u8>) -> bool {
    a matches JoinAction::Redirect(l) && l@ == join_error_location_of(codes)
}

/// How signing up goes on once the user name was looked up (`None`: the
/// lookup failed; else whether a user of that name exists): a failed lookup
/// sends the caller back without a code, a taken name with code 7, and a
/// free name leads on to storing the user under a hash made at cost 12 that
/// the login accepts the password against (code 0 when hashing fails).
pub open spec fn after_name_lookup(password: Seq<char>, found: Option<bool>, r: JoinAction) -> bool {
    match found {
        None => redirects_with(r, Seq::<u8>::empty()),
        Some(true) => redirects_with(r, seq![7u8]),
        Some(false) => (r matches JoinAction::InsertUser { hash } && bcrypt_verifies(
            password,
            hash@,
        ) == Some(true) && bcrypt_hash_at(hash@, HASH_COST)) || redirects_with(r, seq![0u8]),
    }
}

/// A user stored by signing up can log in with the password of the sign-up
/// form: looking that user up, with the hash that signing up stored, leads
/// on to opening a session.
pub proof fn lemma_sign_up_then_log_in(password: Seq<char>, joined: JoinAction, logged: LoginAction)
    requires
        after_name_lookup(password, Some(false), joined),
        joined matches JoinAction::InsertUser { hash } && after_user_lookup(
            password,
            Some(Some(hash@)),
            logged,
        ),
    ensures
        logged is InsertSession,
{
}

/// The next step of signing up with `form` after `event`. The form is
/// refused with code 0 when the shared data cannot be had, the caller is
/// logged in, or the token does not match its cookie; with the codes of
/// its failing fields, if any; with code 7 when the user name is taken, and
/// with no code when the lookup fails; with code 0 when hashing or storing
/// fails. Otherwise the user is stored, with a hash under which the login
/// accepts the form's password, and a session opened and logged in.
pub fn join_step(form: &CredentialsJoin, event: JoinEvent) -> (r: JoinAction)
    ensures
        match event {
            JoinEvent::Submitted { data_ok, logged_in, cookie_token } => if !data_ok || logged_in
                || !token_matches(
                match cookie_token {
                    Some(c) => Some(c@),
                    None => None,
                },
                form.authenticity_token@,
            ) {
                redirects_with(r, seq![0u8])
            } else if form_codes(form.username@, form.email@, form.password@).len() > 0 {
                redirects_with(r, form_codes(form.username@, form.email@, form.password@))
            } else {
                r is FindUser
            },
            JoinEvent::UserLookup(found) => after_name_lookup(form.password@, found, r),
            JoinEvent::UserInserted(ok) => if ok {
                r is InsertSession
            } else {
                redirects_with(r, seq![0u8])
            },
            JoinEvent::SessionInserted(id) => match id {
                Some(s) => r matches JoinAction::Login { session } && session@ == s@,
                None => redirects_with(r, seq![0u8]),
            },
        },
{
    match event {
        JoinEvent::Submitted { data_ok, logged_in, cookie_token } => {
            if !data_ok || logged_in || !check_token(&cookie_token, &form.authenticity_token) {
                return JoinAction::Redirect(join_error_location(&vec![0u8]));
            }
            let codes = form.error_codes();
            if codes.len() > 0 {
                return JoinAction::Redirect(join_error_location(&codes));
            }
            JoinAction::FindUser
        },
        JoinEvent::UserLookup(found) => match found {
            None => JoinAction::Redirect(join_error_location(&Vec::new())),
            Some(true) => JoinAction::Redirect(join_error_location(&vec![7u8])),
            Some(false) => match hash_password(form.password.as_str(), HASH_COST) {
                Some(hash) => JoinAction::InsertUser { hash },
                None => JoinAction::Redirect(join_error_location(&vec![0u8])),
            },
        },
        JoinEvent::UserInserted(ok) => if ok {
            JoinAction::InsertSession
        } else {
            JoinAction::Redirect(join_error_location(&vec![0u8]))
        },
        JoinEvent::SessionInserted(id) => match id {
            Some(s) => JoinAction::Login { session: s },
            None => JoinAction::Redirect(join_error_location(&vec![0u8])),
        },
    }
}

} // verus!
