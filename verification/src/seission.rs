//! Logging in: the steps from a submitted login form to a session.
use vstd::prelude::*;
use vstd::string::*;
use crate::forms::{check_token, token_matches};
use crate::loger::ObjectId;

verus! {

/// What `bcrypt::verify` says of a password against a stored hash: whether
/// they match, or nothing when the hash cannot be read.
pub uninterp spec fn bcrypt_verifies(password: Seq<char>, hash: Seq<char>) -> Option<bool>;

/// `bcrypt::verify`: whether the password matches the stored hash.
#[verifier::external_body]
fn verify_password(password: &str, hash: &str) -> (r: Option<bool>)
    ensures
        r == bcrypt_verifies(password@, hash@),
{
    bcrypt::verify(password, hash).ok()
}

/// The login form.
pub struct Credentials {
    pub authenticity_token: String,
    pub login: String,
    pub password: String,
}

/// What happens next while logging in.
pub enum LoginEvent {
    /// The form arrived: whether the shared data could be had, whether the
    /// caller is logged in, and the request's token cookie.
    Submitted { data_ok: bool, logged_in: bool, cookie_token: Option<String> },
    /// The user was looked up: `None` when the lookup failed, else the
    /// stored password hash of the user, if there is one.
    UserLookup(Option<Option<String>>),
    /// A session was opened: its id, if one came back.
    SessionInserted(Option<ObjectId>),
}

/// What to do next while logging in.
pub enum LoginAction {
    /// Answer with an internal error.
    InternalError,
    /// Send the caller to this location.
    Redirect(String),
    /// Look the user up.
    FindUser,
    /// Open a session for the user.
    InsertSession,
    /// Log this session in and send the caller to `/`.
    Login { session: ObjectId },
}

/// Where a refused login is sent.
pub open spec fn incorrect_location() -> Seq<char> {
    "/login#Incorrect"@
}

/// How logging in goes on once the user was looked up (`None`: the lookup
/// failed; else the stored password hash of the user, if there is one): a
/// failed lookup is an internal error, a password that the stored hash
/// accepts leads on to opening a session, and anything else goes back to
/// the login page.
pub open spec fn after_user_lookup(
    password: Seq<char>,
    found: Option<Option<Seq<char>>>,
    r: LoginAction,
) -> bool {
    match found {
        None => r is InternalError,
        Some(None) => r matches LoginAction::Redirect(l) && l@ == incorrect_location(),
        Some(Some(hash)) => if bcrypt_verifies(password, hash) == Some(true) {
            r is InsertSession
        } else {
            r matches LoginAction::Redirect(l) && l@ == incorrect_location()
        },
    }
}

/// The next step of logging in with `form` after `event`. Without the
/// shared data, or with a token that does not match its cookie, or when the
/// lookup fails, the answer is an internal error; a caller already logged in
/// goes to `/`; an unknown user, a password that does not match or a
/// session that cannot be opened goes back to the login page.
pub fn seission_step(form: &Credentials, event: LoginEvent) -> (r: LoginAction)
    ensures
        match event {
            LoginEvent::Submitted { data_ok, logged_in, cookie_token } => if !data_ok {
                r is InternalError
            } else if logged_in {
                r matches LoginAction::Redirect(l) && l@ == "/"@
            } else if !token_matches(
                match cookie_token {
                    Some(c) => Some(c@),
                    None => None,
                },
                form.authenticity_token@,
            ) {
                r is InternalError
            } else {
                r is FindUser
            },
            LoginEvent::UserLookup(found) => after_user_lookup(
                form.password@,
                match found {
                    None => None,
                    Some(None) => Some(None),
                    Some(Some(h)) => Some(Some(h@)),
                },
                r,
            ),
            LoginEvent::SessionInserted(id) => match id {
                Some(s) => r matches LoginAction::Login { session } && session@ == s@,
                None => r matches LoginAction::Redirect(l) && l@ == incorrect_location(),
            },
        },
{
    match event {
        LoginEvent::Submitted { data_ok, logged_in, cookie_token } => {
            if !data_ok {
                return LoginAction::InternalError;
            }
            if logged_in {
                return LoginAction::Redirect(String::from_str("/"));
            }
            if !check_token(&cookie_token, &form.authenticity_token) {
                return LoginAction::InternalError;
            }
            LoginAction::FindUser
        },
        LoginEvent::UserLookup(found) => match found {
            None => LoginAction::InternalError,
            Some(None) => LoginAction::Redirect(String::from_str("/login#Incorrect")),
            Some(Some(hash)) => match verify_password(form.password.as_str(), hash.as_str()) {
                Some(true) => LoginAction::InsertSession,
                _ => LoginAction::Redirect(String::from_str("/login#Incorrect")),
            },
        },
        LoginEvent::SessionInserted(id) => match id {
            Some(s) => LoginAction::Login { session: s },
            None => LoginAction::Redirect(String::from_str("/login#Incorrect")),
        },
    }
}

} // verus!
