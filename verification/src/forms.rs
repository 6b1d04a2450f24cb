//! What the login and sign-up pages share: the anti-forgery token and the
//! decision to show a form at all.
use vstd::prelude::*;
use vstd::string::*;
use crate::text::string_of_chars;
use crate::loger::{guarded, guarded_flags, CookieFlags};
use rand::distributions::Alphanumeric;
use rand::{thread_rng, Rng};

verus! {

/// Whether `c` is an ASCII letter or digit.
pub open spec fn is_ascii_alnum(c: char) -> bool {
    let x = c as u32;
    ||| 0x30 <= x <= 0x39
    ||| 0x41 <= x <= 0x5a
    ||| 0x61 <= x <= 0x7a
}

/// `Rng::sample(Alphanumeric)` on the thread's generator, as a character:
/// one random ASCII letter or digit.
#[verifier::external_body]
fn random_alphanumeric() -> (c: char)
    ensures
        is_ascii_alnum(c),
{
    char::from(thread_rng().sample(Alphanumeric))
}

/// The length of an anti-forgery token.
pub const TOKEN_LEN: usize = 64;

/// A fresh anti-forgery token: 64 random ASCII letters and digits.
pub fn new_authenticity_token() -> (t: String)
    ensures
        t@.len() == TOKEN_LEN,
        forall|i: int| 0 <= i < t@.len() ==> is_ascii_alnum(#[trigger] t@[i]),
{
    let mut chars: Vec<char> = Vec::new();
    let mut i: usize = 0;
    while i < TOKEN_LEN
        invariant
            i <= TOKEN_LEN,
            chars@.len() == i,
            forall|k: int| 0 <= k < i ==> is_ascii_alnum(#[trigger] chars@[k]),
        decreases TOKEN_LEN - i,
    {
        chars.push(random_alphanumeric());
        i = i + 1;
    }
    string_of_chars(&chars)
}

/// What a request for the login or sign-up page gets.
pub enum PageAction {
    /// The shared application data cannot be had: an internal error.
    InternalError,
    /// A redirect to this location.
    Redirect(String),
    /// The form, guarded by this token, which is also set as the
    /// `authenticity_token` cookie with these flags.
    Render { token: String, flags: CookieFlags },
}

/// Decides on a request for the login or sign-up page: a caller who is
/// already logged in goes to `/`, anyone else gets the form with a fresh
/// token, set as a cookie over HTTPS only and out of reach of scripts.
pub fn form_page(data_ok: bool, logged_in: bool) -> (r: PageAction)
    ensures
        !data_ok ==> r is InternalError,
        data_ok && logged_in ==> (r matches PageAction::Redirect(l) && l@ == "/"@),
        data_ok && !logged_in ==> (r matches PageAction::Render { token, flags } && token@.len()
            == TOKEN_LEN && guarded(flags) && forall|i: int|
            0 <= i < token@.len() ==> is_ascii_alnum(#[trigger] token@[i])),
{
    if !data_ok {
        return PageAction::InternalError;
    }
    if logged_in {
        return PageAction::Redirect(String::from_str("/"));
    }
    PageAction::Render { token: new_authenticity_token(), flags: guarded_flags() }
}

/// Whether the form's token matches the token cookie of the request.
pub open spec fn token_matches(cookie_token: Option<Seq<char>>, form_token: Seq<char>) -> bool {
    cookie_token == Some(form_token)
}

/// Compares the form's token with the request's token cookie.
pub fn check_token(cookie_token: &Option<String>, form_token: &String) -> (r: bool)
    ensures
        r == token_matches(
            match cookie_token {
                Some(c) => Some(c@),
                None => None,
            },
            form_token@,
        ),
{
    match cookie_token {
        Some(c) => *c == *form_token,
        None => false,
    }
}

} // verus!
