//! The gateway's outermost guard: plain HTTP is sent over to HTTPS, and a
//! caller that already holds a session is sent away from the login pages.
use vstd::prelude::*;
use vstd::string::*;

verus! {

/// A `302 Found` answer.
pub struct Redirect {
    /// The `Location` header.
    pub location: String,
    /// Whether the answer carries `strict-transport-security: max-age=31536000`.
    pub hsts: bool,
}

/// What the guard does with a request.
pub enum PreserveAction {
    /// Hand the request on to the gateway.
    Pass,
    /// Answer at once with a redirect.
    Redirect(Redirect),
}

/// The place plain-HTTP requests are sent to, before their path and query.
pub open spec fn https_origin() -> Seq<char> {
    "https://localhost.local:8443"@
}

/// The redirect of a plain-HTTP request to the same path and query over HTTPS.
pub fn http_redir(path_and_query: &str) -> (r: Redirect)
    ensures
        r.location@ == https_origin() + path_and_query@,
        r.hsts,
{
    let location = String::from_str("https://localhost.local:8443").concat(path_and_query);
    Redirect { location, hsts: true }
}

/// The redirect of a caller with a session away from the login pages.
pub fn seission_redir() -> (r: Redirect)
    ensures
        r.location@ == "/"@,
        !r.hsts,
{
    Redirect { location: String::from_str("/"), hsts: false }
}

/// Whether a route name is one of the login pages.
pub open spec fn is_login_route(name: Option<Seq<char>>) -> bool {
    name == Some("login"@) || name == Some("seission"@)
}

/// The login pages are exactly the routes named `login` and `seission`:
/// any other route name, such as the sign-up form's `join`, or no route
/// name at all, is not one of them.
pub proof fn lemma_login_routes(name: Option<Seq<char>>)
    ensures
        is_login_route(name) <==> (name == Some("login"@) || name == Some("seission"@)),
        is_login_route(Some("join"@)) == false,
        is_login_route(None) == false,
{
    reveal_strlit("join");
    reveal_strlit("login");
    reveal_strlit("seission");
    assert("join"@ != "login"@) by {
        assert("join"@.len() != "login"@.len());
    }
    assert("join"@ != "seission"@) by {
        assert("join"@.len() != "seission"@.len());
    }
}

/// The guard in front of the gateway.
pub struct Preserver;

impl Preserver {
    /// Decides on a request: over plain HTTP it is redirected to HTTPS; over
    /// HTTPS, a request that carries an `SID` header and is bound for a
    /// login page (`login` or `seission`) is redirected to `/`; every other
    /// request passes.
    pub fn decide(
        secure: bool,
        has_sid: bool,
        route_name: Option<&str>,
        path_and_query: &str,
    ) -> (r: PreserveAction)
        ensures
            !secure ==> (r matches PreserveAction::Redirect(d) && d.location@ == https_origin()
                + path_and_query@ && d.hsts),
            secure && has_sid && is_login_route(
                match route_name {
                    Some(n) => Some(n@),
                    None => None,
                },
            ) ==> (r matches PreserveAction::Redirect(d) && d.location@ == "/"@ && !d.hsts),
            secure && !(has_sid && is_login_route(
                match route_name {
                    Some(n) => Some(n@),
                    None => None,
                },
            )) ==> r is Pass,
    {
        if !secure {
            return PreserveAction::Redirect(http_redir(path_and_query));
        }
        if has_sid {
            if let Some(n) = route_name {
                let name = String::from_str(n);
                let login = String::from_str("login");
                let seission = String::from_str("seission");
                if name == login || name == seission {
                    return PreserveAction::Redirect(seission_redir());
                }
            }
        }
        PreserveAction::Pass
    }
}

} // verus!
