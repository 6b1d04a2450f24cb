//! The service register: which backend client answers a request, given the
//! request's path, its method and the caller's scope.
use vstd::prelude::*;
use crate::resource::{covers, find_key, first_key, lemma_first_key_some, Resource};
use crate::lgerror::LGEInfo;
use actix_web::dev::ResourceDef;
use cll::CLList;
use vstd::string::*;
use crate::text::{authority, authority_of, is_blank, is_ws};

verus! {

#[verifier::external_type_specification]
#[verifier::external_body]
pub struct ExResourceDef(ResourceDef);

#[verifier::external_type_specification]
#[verifier::external_body]
#[verifier::reject_recursive_types(T)]
pub struct ExCLList<T>(CLList<T>);

/// A backend that requests are forwarded to.
#[derive(Debug)]
pub struct Client {
    pub host: String,
    pub port: u16,
    /// Extra data of the backend, when it is a string (its shared secret).
    pub data: Option<String>,
}

/// A client as plain values: host, port and data.
pub type ClientView = (Seq<char>, u16, Option<Seq<char>>);

/// The plain values of an optional string.
pub open spec fn opt_view(o: Option<String>) -> Option<Seq<char>> {
    match o {
        Some(s) => Some(s@),
        None => None,
    }
}

impl View for Client {
    type V = ClientView;

    open spec fn view(&self) -> ClientView {
        (self.host@, self.port, opt_view(self.data))
    }
}

impl Clone for Client {
    fn clone(&self) -> (c: Self)
        ensures
            c@ == self@,
    {
        Client { host: self.host.clone(), port: self.port, data: self.data() }
    }
}

impl Client {
    pub fn host(&self) -> (r: &str)
        ensures
            r@ == self.host@,
    {
        self.host.as_str()
    }

    pub fn port(&self) -> (r: u16)
        ensures
            r == self.port,
    {
        self.port
    }

    /// Where requests for this backend go: `host:port`.
    pub fn address(&self) -> (r: String)
        ensures
            r@ == authority_of(self.host@, self.port),
    {
        authority(self.host.as_str(), self.port)
    }

    /// The backend's data, when it is a string.
    pub fn data(&self) -> (r: Option<String>)
        ensures
            opt_view(r) == opt_view(self.data),
    {
        match &self.data {
            Some(s) => Some(s.clone()),
            None => None,
        }
    }
}

/// What a [`CLList`] of clients holds, in order.
pub uninterp spec fn cll_items(l: CLList<Client>) -> Seq<ClientView>;

/// The position of the client that a [`CLList`] hands out next.
pub uninterp spec fn cll_index(l: CLList<Client>) -> nat;

/// `CLList::new`: an empty list, positioned at its start.
#[verifier::external_body]
fn cll_new() -> (l: CLList<Client>)
    ensures
        cll_items(l) == Seq::<ClientView>::empty(),
        cll_index(l) == 0,
{
    CLList::new()
}

/// `CLList::push`: appends `replicas` copies of `value`; the position stays.
#[verifier::external_body]
fn cll_push(l: &mut CLList<Client>, value: Client, replicas: usize)
    ensures
        cll_items(*final(l)) == cll_items(*old(l)) + Seq::new(replicas as nat, |i: int| value@),
        cll_index(*final(l)) == cll_index(*old(l)),
{
    l.push(value, replicas)
}

/// `CLList::next` (then a copy of the client it hands out): the client at the
/// current position, if the position lies within the list, and the position
/// moves on by one, wrapping round. The list must not be empty (the
/// position's modulus would be zero).
#[verifier::external_body]
fn cll_next(l: &mut CLList<Client>) -> (r: Option<Client>)
    requires
        cll_items(*old(l)).len() > 0,
    ensures
        cll_items(*final(l)) == cll_items(*old(l)),
        cll_index(*final(l)) == (cll_index(*old(l)) + 1) % cll_items(*old(l)).len(),
        cll_index(*old(l)) < cll_items(*old(l)).len() ==> (r matches Some(c) && c@ == cll_items(
            *old(l),
        )[cll_index(*old(l)) as int]),
        cll_index(*old(l)) >= cll_items(*old(l)).len() ==> r is None,
    no_unwind
{
    l.next().cloned()
}

/// Whether a character may stand in a method name: an ASCII letter or digit,
/// or one of `! * + - . ^ _ ` | ~` (the characters `http::Method` takes).
pub open spec fn method_char(c: char) -> bool {
    let x = c as u32;
    ||| 0x30 <= x <= 0x39
    ||| 0x41 <= x <= 0x5a
    ||| 0x61 <= x <= 0x7a
    ||| c == '!' || c == '*' || c == '+' || c == '-' || c == '.'
    ||| c == '^' || c == '_' || c == '`' || c == '|' || c == '~'
}

/// Whether `http::Method` accepts a method name: it is not empty and each of
/// its characters may stand in a method name.
pub open spec fn method_token(s: Seq<char>) -> bool {
    &&& s.len() > 0
    &&& forall|i: int| 0 <= i < s.len() ==> method_char(#[trigger] s[i])
}

/// `Method::from_str` (through `actix_web::http`): whether the name parses.
/// It fails on an empty name and on any byte outside its table of method
/// characters, which holds only ASCII characters.
#[verifier::external_body]
fn method_parses(s: &str) -> (r: bool)
    ensures
        r == method_token(s@),
{
    <actix_web::http::Method as std::str::FromStr>::from_str(s).is_ok()
}

/// Whether a route pattern, as `ResourceDef` holds it once built, matches a
/// path. `ResourceDef` is opaque here and has no plain view: the pattern
/// and the kind of match it was built for stay inside it.
pub uninterp spec fn route_matches(def: ResourceDef, path: Seq<char>) -> bool;

/// `ResourceDef::is_match`: whether the path matches the route pattern. The
/// answer is a function of the (immutable) definition and the path alone;
/// what it is on given values is left unsaid.
#[verifier::external_body]
fn def_matches(def: &ResourceDef, path: &str) -> (r: bool)
    ensures
        r == route_matches(*def, path@),
{
    def.is_match(path)
}

/// The pattern text that a `ResourceDef` was built from.
pub uninterp spec fn def_pattern(def: ResourceDef) -> Seq<char>;

/// `ResourceDef::pattern`: the pattern text the definition was built from.
#[verifier::external_body]
fn pattern_of(def: &ResourceDef) -> (p: &str)
    ensures
        p@ == def_pattern(*def),
{
    def.pattern()
}

/// One route of a service: its path pattern as configured and the matcher
/// built from it, the methods it accepts and the scope it requires.
pub struct Dir {
    pub pattern: String,
    pub resource: ResourceDef,
    pub method: Vec<String>,
    pub scopes: Resource,
}

/// Whether one of the names is `m`.
pub open spec fn has_name(names: Seq<String>, m: Seq<char>) -> bool {
    exists|k: int| 0 <= k < names.len() && #[trigger] names[k]@ == m
}

impl Dir {
    /// Builds a route for the configured `pattern` from the matcher built of
    /// it (none when `resource` was built from another pattern text),
    /// keeping the methods that parse as HTTP methods.
    pub fn new(pattern: &str, resource: ResourceDef, methods: &Vec<String>, scopes: Resource) -> (r:
        Option<Dir>)
        ensures
            r is Some <==> def_pattern(resource) == pattern@,
            r matches Some(d) ==> {
                &&& d.pattern@ == pattern@
                &&& d.resource == resource
                &&& def_pattern(d.resource) == d.pattern@
                &&& d.scopes == scopes
                &&& forall|m: Seq<char>|
                    #[trigger] has_name(d.method@, m) <==> has_name(methods@, m) && method_token(m)
            },
    {
        let built = String::from_str(pattern_of(&resource));
        let given = String::from_str(pattern);
        if !(built == given) {
            return None;
        }
        let method = keep_methods(methods);
        Some(Dir { pattern: given, resource, method, scopes })
    }

    /// Whether this route accepts the method.
    pub fn accepts(&self, method: &str) -> (r: bool)
        ensures
            r == has_name(self.method@, method@),
    {
        let wanted = String::from_str(method);
        let mut i: usize = 0;
        while i < self.method.len()
            invariant
                i <= self.method.len(),
                wanted@ == method@,
                forall|k: int| 0 <= k < i ==> #[trigger] self.method@[k]@ != method@,
            decreases self.method.len() - i,
        {
            if self.method[i] == wanted {
                assert(self.method@[i as int]@ == method@);
                return true;
            }
            i = i + 1;
        }
        false
    }
}

/// The method names that parse as HTTP methods, in order.
fn keep_methods(methods: &Vec<String>) -> (kept: Vec<String>)
    ensures
        forall|m: Seq<char>|
            #[trigger] has_name(kept@, m) <==> has_name(methods@, m) && method_token(m),
{
        let mut kept: Vec<String> = Vec::new();
        let mut i: usize = 0;
        while i < methods.len()
            invariant
                i <= methods.len(),
                forall|m: Seq<char>|
                    #[trigger] has_name(kept@, m) <==> has_name(methods@.take(i as int), m)
                        && method_token(m),
            decreases methods.len() - i,
        {
            let ok = method_parses(methods[i].as_str());
            let ghost before = kept@;
            let ghost prev = methods@.take(i as int);
            let ghost next = methods@.take(i + 1);
            assert(forall|m: Seq<char>|
                #[trigger] has_name(before, m) <==> has_name(prev, m) && method_token(m));
            if ok {
                kept.push(methods[i].clone());
            }
            proof {
                assert(next =~= prev.push(methods@[i as int]));
                if ok {
                    assert(kept@ =~= before.push(methods@[i as int]));
                } else {
                    assert(kept@ =~= before);
                }
                assert forall|m: Seq<char>|
                    #[trigger] has_name(kept@, m) <==> has_name(next, m) && method_token(m) by {
                    if has_name(kept@, m) {
                        let k = choose|k: int| 0 <= k < kept@.len() && #[trigger] kept@[k]@ == m;
                        if k < before.len() {
                            assert(before[k]@ == m);
                            assert(has_name(before, m));
                            assert(has_name(prev, m));
                            let q = choose|q: int| 0 <= q < prev.len() && #[trigger] prev[q]@ == m;
                            assert(next[q]@ == m);
                        } else {
                            assert(next[i as int]@ == m);
                        }
                    }
                    if has_name(next, m) && method_token(m) {
                        let q = choose|q: int| 0 <= q < next.len() && #[trigger] next[q]@ == m;
                        if q < i {
                            assert(prev[q]@ == m);
                            assert(has_name(prev, m));
                            assert(has_name(before, m));
                            let k = choose|k: int|
                                0 <= k < before.len() && #[trigger] before[k]@ == m;
                            assert(kept@[k]@ == m);
                        } else {
                            assert(methods@[i as int]@ == m);
                            assert(kept@[kept@.len() - 1]@ == m);
                        }
                    }
                }
            }
            i = i + 1;
        }
        assert(methods@.take(methods.len() as int) =~= methods@);
        kept
}

/// Why the register refused a request.
#[derive(Clone, Copy, Debug, PartialEq, Eq, Structural)]
pub enum RegError {
    ServiceUnavailable,
    Forbidden,
    MethodNotAllowed,
    BadRequest,
    NotFound,
    InternalServe,
}

/// The HTTP status of each refusal.
pub open spec fn reg_status(e: RegError) -> u16 {
    match e {
        RegError::ServiceUnavailable => 503,
        RegError::Forbidden => 403,
        RegError::MethodNotAllowed => 405,
        RegError::BadRequest => 400,
        RegError::NotFound => 404,
        RegError::InternalServe => 500,
    }
}

impl LGEInfo for RegError {
    fn status_code(&self) -> (r: u16)
        ensures
            r == reg_status(*self),
    {
        match self {
            RegError::ServiceUnavailable => 503,
            RegError::Forbidden => 403,
            RegError::MethodNotAllowed => 405,
            RegError::BadRequest => 400,
            RegError::NotFound => 404,
            RegError::InternalServe => 500,
        }
    }

    fn message_text(&self) -> (r: &str)
        ensures
            r@ == "//TODO"@,
    {
        "//TODO"
    }

    fn description_text(&self) -> (r: &str)
        ensures
            r@ == "//TODO"@,
    {
        "//TODO"
    }
}

/// The routes of a service and the clients that serve it in turn.
pub struct Res {
    pub(crate) routers: Vec<Dir>,
    pub(crate) clients: CLList<Client>,
    /// Whether the client list holds a client.
    pub(crate) has_clients: bool,
}

/// The decision of a service's routes once the matching route is known:
/// no route matched, the route refuses the method, the route's scope is not
/// comfortable with the caller's scope, or the request goes to a client.
pub open spec fn route_decision(
    routers: Seq<Dir>,
    matched: Option<int>,
    method: Seq<char>,
    res: Resource,
) -> Result<(), RegError> {
    match matched {
        None => Err(RegError::BadRequest),
        Some(i) => if !has_name(routers[i].method@, method) {
            Err(RegError::MethodNotAllowed)
        } else if !covers(routers[i].scopes, res) {
            Err(RegError::Forbidden)
        } else {
            Ok(())
        },
    }
}

/// Whether route `i` is the first of `routers` whose pattern matches `path`.
pub open spec fn is_first_route(routers: Seq<Dir>, path: Seq<char>, i: int) -> bool {
    &&& 0 <= i < routers.len()
    &&& route_matches(routers[i].resource, path)
    &&& forall|j: int| 0 <= j < i ==> !route_matches(#[trigger] routers[j].resource, path)
}

/// The position of the first route whose pattern matches `path`, if any.
pub open spec fn first_route(routers: Seq<Dir>, path: Seq<char>) -> Option<int> {
    if exists|i: int| is_first_route(routers, path, i) {
        Some(choose|i: int| is_first_route(routers, path, i))
    } else {
        None
    }
}

/// The first matching route is the only one.
proof fn lemma_first_route_is(routers: Seq<Dir>, path: Seq<char>, i: int)
    requires
        is_first_route(routers, path, i),
    ensures
        first_route(routers, path) == Some(i),
{
    let c = choose|c: int| is_first_route(routers, path, c);
    assert(is_first_route(routers, path, c));
    if c < i {
        assert(!route_matches(routers[c].resource, path));
    } else if i < c {
        assert(!route_matches(routers[i].resource, path));
    }
}

/// How routing a request through service `o` (becoming `n`) answers `r`,
/// when route `matched` is the one that matched its path. `None` stands for
/// a service with no client to hand the request to, where the client list
/// cannot turn (its position is taken modulo its length). A refusal leaves
/// the turn where it was; a forwarded request moves it on by one.
pub open spec fn routed(
    o: Res,
    n: Res,
    matched: Option<int>,
    method: Seq<char>,
    res: Resource,
    r: Option<Result<Client, RegError>>,
) -> bool {
    let items = o.items();
    let index = o.index();
    &&& n.routers_of() == o.routers_of()
    &&& matched matches Some(i) ==> 0 <= i < o.routers_of().len()
    &&& match route_decision(o.routers_of(), matched, method, res) {
        Err(e) => r == Some(Err::<Client, RegError>(e)) && n.items() == items && n.index() == index,
        Ok(()) => if items.len() == 0 {
            r is None && n.items() == items && n.index() == index
        } else {
            &&& index < items.len()
            &&& r matches Some(Ok(c)) && c@ == items[index as int]
            &&& n.items() == items
            &&& n.index() == (index + 1) % items.len()
        },
    }
}

impl Res {
    #[verifier::type_invariant]
    spec fn inv(self) -> bool {
        &&& self.has_clients == (cll_items(self.clients).len() > 0)
        &&& cll_items(self.clients).len() > 0 ==> cll_index(self.clients) < cll_items(
            self.clients,
        ).len()
    }

    /// The routes of the service.
    pub closed spec fn routers_of(self) -> Seq<Dir> {
        self.routers@
    }

    /// The clients that serve the service, in the order they take turns.
    pub closed spec fn items(self) -> Seq<ClientView> {
        cll_items(self.clients)
    }

    /// The position of the client whose turn is next.
    pub closed spec fn index(self) -> nat {
        cll_index(self.clients)
    }

    /// A service with the given routes, whose client list holds each
    /// client as many times as its replica count, in order.
    pub fn new(routers: Vec<Dir>, clients: Vec<(usize, Client)>) -> (r: Res)
        ensures
            r.routers_of() == routers@,
            r.index() == 0,
            r.items() == expand(clients@),
    {
        let mut list = cll_new();
        let mut any = false;
        let mut i: usize = 0;
        while i < clients.len()
            invariant
                i <= clients.len(),
                cll_index(list) == 0,
                cll_items(list) == expand(clients@.take(i as int)),
                any == (cll_items(list).len() > 0),
            decreases clients.len() - i,
        {
            let n = clients[i].0;
            let c = clients[i].1.clone();
            assert(clients@.take(i + 1).drop_last() =~= clients@.take(i as int));
            cll_push(&mut list, c, n);
            any = any || n > 0;
            i = i + 1;
        }
        assert(clients@.take(clients.len() as int) =~= clients@);
        Res { routers, clients: list, has_clients: any }
    }

    /// The position of the first route whose pattern matches the path, if
    /// any; see [`first_route`].
    pub fn first_match(&self, path: &str) -> (r: Option<usize>)
        ensures
            r matches Some(i) ==> i < self.routers_of().len() && route_matches(
                self.routers_of()[i as int].resource,
                path@,
            ),
            forall|j: int|
                0 <= j < self.routers_of().len() && (r matches Some(i) ==> j < i) ==> !route_matches(
                    #[trigger] self.routers_of()[j].resource,
                    path@,
                ),
            first_route(self.routers_of(), path@) == match r {
                Some(i) => Some(i as int),
                None => None::<int>,
            },
    {
        let mut i: usize = 0;
        while i < self.routers.len()
            invariant
                i <= self.routers.len(),
                forall|j: int| 0 <= j < i ==> !route_matches(#[trigger] self.routers@[j].resource, path@),
            decreases self.routers.len() - i,
        {
            if def_matches(&self.routers[i].resource, path) {
                proof {
                    lemma_first_route_is(self.routers@, path@, i as int);
                }
                return Some(i);
            }
            i = i + 1;
        }
        assert(!exists|k: int| is_first_route(self.routers@, path@, k)) by {
            if exists|k: int| is_first_route(self.routers@, path@, k) {
                let k = choose|k: int| is_first_route(self.routers@, path@, k);
                assert(!route_matches(self.routers@[k].resource, path@));
            }
        }
        None
    }

    /// Routes a request once the matching route is known; see [`routed`].
    pub fn route(&mut self, matched: Option<usize>, method: &str, res: &Resource) -> (r: Option<
        Result<Client, RegError>,
    >)
        requires
            matched matches Some(i) ==> i < old(self).routers_of().len(),
        ensures
            routed(
                *old(self),
                *final(self),
                match matched {
                    Some(i) => Some(i as int),
                    None => None,
                },
                method@,
                *res,
                r,
            ),
    {
        match matched {
            None => Some(Err(RegError::BadRequest)),
            Some(i) => {
                let item = &self.routers[i];
                if !item.accepts(method) {
                    return Some(Err(RegError::MethodNotAllowed));
                }
                if !item.scopes.comfortable_with(res) {
                    return Some(Err(RegError::Forbidden));
                }
                proof {
                    use_type_invariant(&*self);
                }
                if !self.has_clients {
                    return None;
                }
                match cll_next(&mut self.clients) {
                    Some(c) => Some(Ok(c)),
                    None => Some(Err(RegError::ServiceUnavailable)),
                }
            },
        }
    }

    /// Routes a request: the first route whose pattern matches the path
    /// decides, see [`first_route`] and [`routed`].
    pub fn get_resource(&mut self, path: &str, method: &str, res: &Resource) -> (r: Option<
        Result<Client, RegError>,
    >)
        ensures
            routed(
                *old(self),
                *final(self),
                first_route(old(self).routers_of(), path@),
                method@,
                *res,
                r,
            ),
    {
        let matched = self.first_match(path);
        self.route(matched, method, res)
    }
}

/// Routing keeps a service's routes and clients, and its turn moves on by
/// exactly one position when the request is forwarded; on every refusal,
/// and when there is no client, the turn stays where it was.
pub proof fn lemma_turn_moves_only_when_forwarded(
    o: Res,
    n: Res,
    matched: Option<int>,
    method: Seq<char>,
    res: Resource,
    r: Option<Result<Client, RegError>>,
)
    requires
        routed(o, n, matched, method, res, r),
    ensures
        n.routers_of() == o.routers_of(),
        n.items() == o.items(),
        r matches Some(Ok(_)) ==> n.index() == (o.index() + 1) % o.items().len(),
        !(r matches Some(Ok(_))) ==> n.index() == o.index(),
{
}

/// Whether routing a request through service `o` (becoming `n`) forwarded it
/// to client `c`, whichever route matched and whatever its method and scope.
pub open spec fn forwards(o: Res, n: Res, c: Client) -> bool {
    exists|m: Option<int>, method: Seq<char>, res: Resource|
        #[trigger] routed(o, n, m, method, res, Some(Ok::<Client, RegError>(c)))
}

/// Whether the service, passing through `states`, forwarded one request
/// after another to `clients`.
pub open spec fn forwarded_in_turn(states: Seq<Res>, clients: Seq<Client>) -> bool {
    &&& states.len() == clients.len() + 1
    &&& forall|j: int| 0 <= j < clients.len() ==> #[trigger] forwards_at(states, clients, j)
}

/// Whether the `j`-th request of a run was forwarded to the `j`-th client.
pub open spec fn forwards_at(states: Seq<Res>, clients: Seq<Client>, j: int) -> bool {
    forwards(states[j], states[j + 1], clients[j])
}

/// A forwarded request goes to the client whose turn it is; the turn then
/// passes to the next position of the client list, wrapping round, and the
/// list stays as it was.
pub proof fn lemma_forward_step(o: Res, n: Res, c: Client)
    requires
        forwards(o, n, c),
    ensures
        o.items().len() > 0,
        o.index() < o.items().len(),
        c@ == o.items()[o.index() as int],
        n.items() == o.items(),
        n.index() == (o.index() + 1) % o.items().len(),
{
    let (m, method, res) = choose|m: Option<int>, method: Seq<char>, res: Resource|
        #[trigger] routed(o, n, m, method, res, Some(Ok::<Client, RegError>(c)));
    assert(routed(o, n, m, method, res, Some(Ok::<Client, RegError>(c))));
}

/// After the first `k` forwards of a run, the client list is unchanged and
/// the turn has moved on `k` positions.
proof fn lemma_turns(states: Seq<Res>, clients: Seq<Client>, k: int)
    requires
        forwarded_in_turn(states, clients),
        0 < k <= clients.len(),
    ensures
        states[0].items().len() > 0,
        forall|j: int|
            0 <= j <= k ==> #[trigger] states[j].items() == states[0].items() && states[j].index()
                == (states[0].index() + j) % (states[0].items().len() as int),
    decreases k,
{
    let len = states[0].items().len() as int;
    let i0 = states[0].index() as int;
    assert(forwards_at(states, clients, 0));
    lemma_forward_step(states[0], states[1], clients[0]);
    vstd::arithmetic::div_mod::lemma_small_mod(i0 as nat, len as nat);
    if k > 1 {
        lemma_turns(states, clients, k - 1);
        assert(forwards_at(states, clients, k - 1));
        lemma_forward_step(states[k - 1], states[k], clients[k - 1]);
        assert(states[k - 1].index() == (i0 + (k - 1)) % len);
        vstd::arithmetic::div_mod::lemma_add_mod_noop_right(1, i0 + (k - 1), len);
        assert(states[k].index() == (i0 + k) % len);
    } else {
        vstd::arithmetic::div_mod::lemma_add_mod_noop_right(1, i0, len);
    }
}

/// The clients of a service take turns: requests forwarded one after
/// another go to the clients at consecutive positions of its client list,
/// starting at the position whose turn it was and wrapping round at the
/// list's end.
pub proof fn lemma_round_robin(states: Seq<Res>, clients: Seq<Client>)
    requires
        forwarded_in_turn(states, clients),
    ensures
        forall|j: int|
            0 <= j < clients.len() ==> #[trigger] clients[j]@ == states[0].items()[(states[0].index()
                + j) % (states[0].items().len() as int)],
{
    if clients.len() > 0 {
        lemma_turns(states, clients, clients.len() as int);
        assert forall|j: int| 0 <= j < clients.len() implies #[trigger] clients[j]@
            == states[0].items()[(states[0].index() + j) % (states[0].items().len() as int)] by {
            assert(forwards_at(states, clients, j));
            lemma_forward_step(states[j], states[j + 1], clients[j]);
            assert(states[j].items() == states[0].items());
        }
    }
}

/// The clients of a list of (replica count, client) entries, each repeated
/// as many times as its count, in order.
pub open spec fn expand(entries: Seq<(usize, Client)>) -> Seq<ClientView>
    decreases entries.len(),
{
    if entries.len() == 0 {
        Seq::empty()
    } else {
        expand(entries.drop_last()) + Seq::new(
            entries.last().0 as nat,
            |i: int| entries.last().1@,
        )
    }
}

/// The non-empty segments of a path, in order.
pub open spec fn keep_nonempty(segs: Seq<Seq<char>>) -> Seq<Seq<char>>
    decreases segs.len(),
{
    if segs.len() == 0 {
        Seq::empty()
    } else if segs.last().len() > 0 {
        keep_nonempty(segs.drop_last()).push(segs.last())
    } else {
        keep_nonempty(segs.drop_last())
    }
}

/// The segments of a path as plain values.
pub open spec fn segment_views(path: Seq<String>) -> Seq<Seq<char>> {
    path.map_values(|s: String| s@)
}

/// The path inside a service: the second non-empty segment, or `/`.
pub open spec fn inner_path(segs: Seq<Seq<char>>) -> Seq<char> {
    if segs.len() > 1 {
        segs[1]
    } else {
        seq!['/']
    }
}

/// Dropping empty segments distributes over joining paths.
proof fn lemma_keep_nonempty_append(s: Seq<Seq<char>>, t: Seq<Seq<char>>)
    ensures
        keep_nonempty(s + t) == keep_nonempty(s) + keep_nonempty(t),
    decreases t.len(),
{
    if t.len() == 0 {
        assert(s + t =~= s);
        assert(keep_nonempty(s) + keep_nonempty(t) =~= keep_nonempty(s));
    } else {
        lemma_keep_nonempty_append(s, t.drop_last());
        assert((s + t).drop_last() =~= s + t.drop_last());
        assert((s + t).last() == t.last());
        if t.last().len() > 0 {
            assert(keep_nonempty(s) + keep_nonempty(t.drop_last()).push(t.last()) =~= (
            keep_nonempty(s) + keep_nonempty(t.drop_last())).push(t.last()));
        }
    }
}

/// A request for path `a / b / ...` (with `a` and `b` not empty, and any
/// segments after them) is routed by service `a` on the path `b` alone:
/// the service's first route whose pattern matches `b` decides, whatever
/// segments follow; and when the request names a service, every other
/// service stays as it was.
pub proof fn lemma_routes_on_second_segment(
    o: Seq<(String, Res)>,
    n: Seq<(String, Res)>,
    a: Seq<char>,
    b: Seq<char>,
    rest: Seq<Seq<char>>,
    method: Seq<char>,
    res: Resource,
    r: Option<Result<Client, RegError>>,
)
    requires
        a.len() > 0,
        b.len() > 0,
        register_answer(o, n, seq![a, b] + rest, method, res, r),
    ensures
        match first_key(o, a) {
            None => r == Some(Err::<Client, RegError>(RegError::NotFound)) && n == o,
            Some(k) => {
                &&& forall|j: int| 0 <= j < o.len() && j != k ==> #[trigger] n[j] == o[j]
                &&& routed(o[k].1, n[k].1, first_route(o[k].1.routers_of(), b), method, res, r)
            },
        },
{
    lemma_keep_nonempty_append(seq![a, b], rest);
    let two = seq![a, b];
    assert(two.drop_last() =~= seq![a]);
    assert(seq![a].drop_last() =~= Seq::<Seq<char>>::empty());
    assert(keep_nonempty(Seq::<Seq<char>>::empty()) =~= Seq::<Seq<char>>::empty());
    assert(keep_nonempty(seq![a]) =~= seq![a]);
    assert(keep_nonempty(two) =~= seq![a, b]);
    let segs = keep_nonempty(two + rest);
    assert(segs[0] == a);
    assert(segs[1] == b);
    assert(inner_path(segs) == b);
}

/// The services of the gateway, each under its name.
pub struct Register {
    pub services: Vec<(String, Res)>,
}

/// How the register (`o`, becoming `n`) answers `r` to a request for `path`:
/// the first non-empty segment names the service (none: a bad request; an
/// unknown name: not found), and that service routes the request to the
/// second non-empty segment, or `/` (see [`routed`]). Every other service
/// stays as it was.
pub open spec fn register_answer(
    o: Seq<(String, Res)>,
    n: Seq<(String, Res)>,
    path: Seq<Seq<char>>,
    method: Seq<char>,
    res: Resource,
    r: Option<Result<Client, RegError>>,
) -> bool {
    let segs = keep_nonempty(path);
    if segs.len() == 0 {
        r == Some(Err::<Client, RegError>(RegError::BadRequest)) && n == o
    } else {
        match first_key(o, segs[0]) {
            None => r == Some(Err::<Client, RegError>(RegError::NotFound)) && n == o,
            Some(k) => {
                &&& n.len() == o.len()
                &&& forall|j: int| 0 <= j < o.len() && j != k ==> #[trigger] n[j] == o[j]
                &&& n[k].0 == o[k].0
                &&& routed(
                    o[k].1,
                    n[k].1,
                    first_route(o[k].1.routers_of(), inner_path(segs)),
                    method,
                    res,
                    r,
                )
            },
        }
    }
}

impl Register {
    /// An empty register.
    pub fn new() -> (r: Register)
        ensures
            r.services@.len() == 0,
    {
        Register { services: Vec::new() }
    }

    /// Chooses the client for a request; see [`register_answer`]. `None`
    /// stands for the case where the chosen service has no client at all.
    pub fn get(&mut self, path: Vec<String>, method: &str, session: &Resource) -> (r: Option<
        Result<Client, RegError>,
    >)
        ensures
            register_answer(
                old(self).services@,
                final(self).services@,
                segment_views(path@),
                method@,
                *session,
                r,
            ),
    {
        let ghost views = segment_views(path@);
        let mut segs: Vec<String> = Vec::new();
        let mut i: usize = 0;
        while i < path.len()
            invariant
                i <= path.len(),
                views == segment_views(path@),
                segment_views(segs@) == keep_nonempty(views.take(i as int)),
            decreases path.len() - i,
        {
            assert(views.take(i + 1).drop_last() =~= views.take(i as int));
            assert(views.take(i + 1).last() == path@[i as int]@);
            if path[i].as_str().unicode_len() > 0 {
                segs.push(path[i].clone());
                assert(segment_views(segs@) =~= keep_nonempty(views.take(i as int)).push(
                    path@[i as int]@,
                ));
            }
            i = i + 1;
        }
        assert(views.take(path.len() as int) =~= views);
        if segs.len() == 0 {
            return Some(Err(RegError::BadRequest));
        }
        assert(segment_views(segs@)[0] == segs@[0]@);
        match find_key(&self.services, &segs[0]) {
            None => Some(Err(RegError::NotFound)),
            Some(k) => {
                proof {
                    lemma_first_key_some::<Res>(self.services@, segs@[0]@);
                }
                let slash = String::from_str("/");
                let inner: &String = if segs.len() > 1 {
                    &segs[1]
                } else {
                    &slash
                };
                assert(inner@ == inner_path(segment_views(segs@))) by {
                    if segs.len() <= 1 {
                        reveal_strlit("/");
                        assert(inner@ =~= seq!['/']);
                    }
                };
                let ghost old_s = self.services@;
                let ghost sv = segment_views(segs@);
                assert(first_key(old_s, sv[0]) == Some(k as int));
                let ghost old_res = self.services@[k as int].1;
                let r = self.services[k].1.get_resource(inner.as_str(), method, session);
                let ghost new_res = self.services@[k as int].1;
                assert(self.services@.len() == old_s.len());
                assert(self.services@[k as int].0 == old_s[k as int].0);
                assert(forall|j: int|
                    0 <= j < old_s.len() && j != k ==> #[trigger] self.services@[j] == old_s[j]);
                assert(routed(
                    old_res,
                    new_res,
                    first_route(old_res.routers_of(), inner_path(sv)),
                    method@,
                    *session,
                    r,
                ));
                r
            },
        }
    }
}

/// How the register middleware starts.
#[derive(Clone, Copy, Debug, PartialEq, Eq, Structural)]
pub enum SetupDecision {
    /// Serve the services that `api.toml` describes.
    UseParsed,
    /// Serve no service (the file is empty).
    UseEmpty,
    /// Refuse to start.
    Fail,
}

/// What the register middleware does with a request, given the modification
/// time of `api.toml` it last loaded.
#[derive(Clone, Copy, Debug, PartialEq, Eq, Structural)]
pub enum ReloadStep {
    /// The file's metadata cannot be read: answer with an internal error.
    Fail,
    /// The file is unchanged: serve with the services already loaded.
    Serve,
    /// The file changed: read it again.
    Read,
}

/// What the register middleware does with the text read back from
/// `api.toml`.
#[derive(Clone, Copy, Debug, PartialEq, Eq, Structural)]
pub enum ReadStep {
    /// The file cannot be opened: answer with an internal error.
    Fail,
    /// The text is blank: serve no service from now on.
    UseEmpty,
    /// Parse the text as the service table.
    Parse,
}

/// The register middleware: loads the service table from `api.toml` and
/// loads it again whenever the file's modification time changes.
pub struct APIRegister;

impl APIRegister {
    /// Decides how to start: `opened` tells whether `api.toml` could be
    /// opened and its metadata read, `parsed_ok` whether its text parsed as
    /// the service table, and `read_len` how many bytes were read, if the
    /// read succeeded. A table that parses is served; a text that does not
    /// parse is taken as an empty table only when nothing was read.
    pub fn setup(opened: bool, parsed_ok: bool, read_len: Option<usize>) -> (r: SetupDecision)
        ensures
            !opened ==> r == SetupDecision::Fail,
            opened && parsed_ok ==> r == SetupDecision::UseParsed,
            opened && !parsed_ok && read_len == Some(0usize) ==> r == SetupDecision::UseEmpty,
            opened && !parsed_ok && read_len != Some(0usize) ==> r == SetupDecision::Fail,
    {
        if !opened {
            return SetupDecision::Fail;
        }
        if parsed_ok {
            return SetupDecision::UseParsed;
        }
        match read_len {
            Some(0) => SetupDecision::UseEmpty,
            _ => SetupDecision::Fail,
        }
    }

    /// Decides on a request from the modification time last loaded and the
    /// file's current one (`None`: its metadata cannot be read).
    pub fn on_request(loaded_mtime: i64, current_mtime: Option<i64>) -> (r: ReloadStep)
        ensures
            current_mtime is None ==> r == ReloadStep::Fail,
            current_mtime matches Some(m) ==> (m != loaded_mtime ==> r == ReloadStep::Read),
            current_mtime matches Some(m) ==> (m == loaded_mtime ==> r == ReloadStep::Serve),
    {
        match current_mtime {
            None => ReloadStep::Fail,
            Some(m) => if m != loaded_mtime {
                ReloadStep::Read
            } else {
                ReloadStep::Serve
            },
        }
    }

    /// Decides on the text read back from the file (`None`: it cannot be
    /// opened); blank text, once trimmed, is an empty table.
    pub fn on_read(text: Option<&str>) -> (r: ReadStep)
        ensures
            text is None ==> r == ReadStep::Fail,
            text matches Some(t) ==> ((forall|i: int| 0 <= i < t@.len() ==> is_ws(#[trigger] t@[i]))
                ==> r == ReadStep::UseEmpty),
            text matches Some(t) ==> (!(forall|i: int| 0 <= i < t@.len() ==> is_ws(
                #[trigger] t@[i],
            )) ==> r == ReadStep::Parse),
    {
        match text {
            None => ReadStep::Fail,
            Some(t) => if is_blank(t) {
                ReadStep::UseEmpty
            } else {
                ReadStep::Parse
            },
        }
    }
}

} // verus!
