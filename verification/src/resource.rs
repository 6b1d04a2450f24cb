//! Resource scopes: a tree of named resources with permission sets at its
//! leaves, and the comparison that decides whether one scope is comfortable
//! with another.
use vstd::prelude::*;
use crate::per::{has_bits, Per, PER_R};
use vstd::string::*;

verus! {

/// A scope: either a permission set, or named sub-scopes.
///
/// In `R`, no name occurs twice (see [`wf`]).
#[derive(Debug)]
pub enum Resource {
    P(Per),
    R(Vec<(String, Resource)>),
}

/// Whether no name occurs twice among the entries.
pub open spec fn keys_unique<V>(m: Seq<(String, V)>) -> bool {
    forall|i: int, j: int|
        0 <= i < m.len() && 0 <= j < m.len() && i != j ==> #[trigger] m[i].0@ != #[trigger] m[j].0@
}

/// Whether `i` is the first position of name `k` among the entries.
pub open spec fn is_first_key<V>(m: Seq<(String, V)>, k: Seq<char>, i: int) -> bool {
    &&& 0 <= i < m.len()
    &&& m[i].0@ == k
    &&& forall|j: int| 0 <= j < i ==> #[trigger] m[j].0@ != k
}

/// The first position of name `k` among the entries, if it occurs.
pub open spec fn first_key<V>(m: Seq<(String, V)>, k: Seq<char>) -> Option<int> {
    if exists|i: int| is_first_key(m, k, i) {
        Some(choose|i: int| is_first_key(m, k, i))
    } else {
        None
    }
}

/// Whether the scope is well formed: no name occurs twice at any level.
pub open spec fn wf(r: Resource) -> bool
    decreases r,
{
    match r {
        Resource::P(_) => true,
        Resource::R(m) => {
            &&& keys_unique(m@)
            &&& forall|i: int| 0 <= i < m@.len() ==> wf(#[trigger] m@[i].1)
        },
    }
}

/// `covers(a, b)`: scope `a` is comfortable with scope `b`.
///
/// Two permission sets: every bit of `b` is set in `a`. Two resource maps:
/// every name of `b` is a name of `a`, and for each such name the sub-scope
/// of `b` is in turn comfortable with the sub-scope of `a` (the comparison
/// turns around at each level, see [`covered_by`]). A permission set and a
/// resource map are never comfortable with each other.
pub open spec fn covers(a: Resource, b: Resource) -> bool
    decreases a,
{
    match a {
        Resource::P(p1) => match b {
            Resource::P(p2) => has_bits(p1@, p2@),
            Resource::R(_) => false,
        },
        Resource::R(m1) => match b {
            Resource::P(_) => false,
            Resource::R(m2) => forall|j: int|
                0 <= j < m2@.len() ==> match #[trigger] first_key(m1@, m2@[j].0@) {
                    Some(i) => 0 <= i < m1@.len() && covered_by(m1@[i].1, m2@[j].1),
                    None => false,
                },
        },
    }
}

/// `covered_by(x, y)` is `covers(y, x)`, unfolded on `y` so that the
/// recursion runs down `x`.
pub open spec fn covered_by(x: Resource, y: Resource) -> bool
    decreases x,
{
    match y {
        Resource::P(p) => match x {
            Resource::P(q) => has_bits(p@, q@),
            Resource::R(_) => false,
        },
        Resource::R(my) => match x {
            Resource::P(_) => false,
            Resource::R(mx) => forall|j: int|
                0 <= j < mx@.len() ==> match #[trigger] first_key(my@, mx@[j].0@) {
                    Some(i) => 0 <= i < my@.len() && covers(mx@[j].1, my@[i].1),
                    None => false,
                },
        },
    }
}

/// The first position of a name is the only position that can be first.
pub proof fn lemma_first_key_unique<V>(m: Seq<(String, V)>, k: Seq<char>, i: int)
    requires
        is_first_key(m, k, i),
    ensures
        first_key(m, k) == Some(i),
{
    let c = choose|c: int| is_first_key(m, k, c);
    assert(is_first_key(m, k, c));
    if c < i {
        assert(m[c].0@ != k);
    } else if i < c {
        assert(m[i].0@ != k);
    }
}

/// A name found by [`first_key`] lies within the entries and carries that name.
pub proof fn lemma_first_key_some<V>(m: Seq<(String, V)>, k: Seq<char>)
    ensures
        first_key(m, k) matches Some(i) ==> is_first_key(m, k, i),
        first_key(m, k) is None ==> forall|i: int| 0 <= i < m.len() ==> #[trigger] m[i].0@ != k,
{
    if first_key(m, k) is None {
        assert forall|i: int| 0 <= i < m.len() implies #[trigger] m[i].0@ != k by {
            if m[i].0@ == k {
                assert(exists|c: int| is_first_key(m, k, c)) by {
                    lemma_least_key::<V>(m, k, i);
                }
            }
        }
    }
}

/// If name `k` occurs at or before `i`, it has a first position.
proof fn lemma_least_key<V>(m: Seq<(String, V)>, k: Seq<char>, i: int)
    requires
        0 <= i < m.len(),
        m[i].0@ == k,
    ensures
        exists|c: int| is_first_key(m, k, c),
    decreases i,
{
    if exists|j: int| 0 <= j < i && #[trigger] m[j].0@ == k {
        let j = choose|j: int| 0 <= j < i && #[trigger] m[j].0@ == k;
        lemma_least_key::<V>(m, k, j);
    } else {
        assert(is_first_key(m, k, i));
    }
}

/// In well-formed entries, each entry's position is the first of its name.
pub proof fn lemma_unique_first_key<V>(m: Seq<(String, V)>, i: int)
    requires
        keys_unique(m),
        0 <= i < m.len(),
    ensures
        first_key(m, m[i].0@) == Some(i),
{
    assert forall|j: int| 0 <= j < i implies #[trigger] m[j].0@ != m[i].0@ by {
        assert(m[j].0@ != m[i].0@);
    }
    lemma_first_key_unique::<V>(m, m[i].0@, i);
}

/// Looks up the first entry with name `k`.
pub fn find_key<V>(m: &Vec<(String, V)>, k: &String) -> (r: Option<usize>)
    ensures
        match r {
            Some(i) => first_key(m@, k@) == Some(i as int),
            None => first_key(m@, k@) is None,
        },
{
    let mut i: usize = 0;
    while i < m.len()
        invariant
            i <= m.len(),
            forall|j: int| 0 <= j < i ==> #[trigger] m@[j].0@ != k@,
        decreases m.len() - i,
    {
        if m[i].0 == *k {
            proof {
                lemma_first_key_unique::<V>(m@, k@, i as int);
            }
            return Some(i);
        }
        i = i + 1;
    }
    proof {
        lemma_first_key_some::<V>(m@, k@);
        if let Some(c) = first_key(m@, k@) {
            assert(m@[c].0@ == k@);
        }
    }
    None
}

/// Whether scope `a` is comfortable with scope `b`; see [`covers`].
pub fn covers_exec(a: &Resource, b: &Resource) -> (r: bool)
    ensures
        r == covers(*a, *b),
    decreases a,
{
    match a {
        Resource::P(p1) => match b {
            Resource::P(p2) => p1.contains(p2),
            Resource::R(_) => false,
        },
        Resource::R(m1) => match b {
            Resource::P(_) => false,
            Resource::R(m2) => {
                let mut res = true;
                let mut j: usize = 0;
                while j < m2.len()
                    invariant
                        j <= m2.len(),
                        *a == Resource::R(*m1),
                        *b == Resource::R(*m2),
                        res == forall|jj: int|
                            0 <= jj < j ==> match #[trigger] first_key(m1@, m2@[jj].0@) {
                                Some(i) => 0 <= i < m1@.len() && covered_by(m1@[i].1, m2@[jj].1),
                                None => false,
                            },
                    decreases m2.len() - j,
                {
                    match find_key(m1, &m2[j].0) {
                        Some(i) => {
                            proof {
                                lemma_first_key_some(m1@, m2@[j as int].0@);
                            }
                            proof {
                                assert((*a)->R_0 == *m1);
                                assert(decreases_to!(*a => (*a)->R_0));
                                assert(decreases_to!(*m1 => m1@));
                                assert(decreases_to!(m1@ => m1@[i as int]));
                                assert(decreases_to!(m1@[i as int] => m1@[i as int].1));
                                assert(decreases_to!(*a => m1@[i as int].1));
                            }
                            let c = covered_by_exec(&m1[i].1, &m2[j].1);
                            res = res && c;
                        },
                        None => {
                            assert(first_key(m1@, m2@[j as int].0@) is None);
                            assert(!covers(*a, *b));
                            return false;
                        },
                    }
                    j = j + 1;
                }
                res
            },
        },
    }
}

/// Whether scope `y` is comfortable with scope `x`; see [`covered_by`].
pub fn covered_by_exec(x: &Resource, y: &Resource) -> (r: bool)
    ensures
        r == covered_by(*x, *y),
    decreases x,
{
    match y {
        Resource::P(p) => match x {
            Resource::P(q) => p.contains(q),
            Resource::R(_) => false,
        },
        Resource::R(my) => match x {
            Resource::P(_) => false,
            Resource::R(mx) => {
                let mut res = true;
                let mut j: usize = 0;
                while j < mx.len()
                    invariant
                        j <= mx.len(),
                        *x == Resource::R(*mx),
                        *y == Resource::R(*my),
                        res == forall|jj: int|
                            0 <= jj < j ==> match #[trigger] first_key(my@, mx@[jj].0@) {
                                Some(i) => 0 <= i < my@.len() && covers(mx@[jj].1, my@[i].1),
                                None => false,
                            },
                    decreases mx.len() - j,
                {
                    match find_key(my, &mx[j].0) {
                        Some(i) => {
                            proof {
                                lemma_first_key_some(my@, mx@[j as int].0@);
                            }
                            proof {
                                assert((*x)->R_0 == *mx);
                                assert(decreases_to!(*x => (*x)->R_0));
                                assert(decreases_to!(*mx => mx@));
                                assert(decreases_to!(mx@ => mx@[j as int]));
                                assert(decreases_to!(mx@[j as int] => mx@[j as int].1));
                                assert(decreases_to!(*x => mx@[j as int].1));
                            }
                            let c = covers_exec(&mx[j].1, &my[i].1);
                            res = res && c;
                        },
                        None => {
                            assert(first_key(my@, mx@[j as int].0@) is None);
                            assert(!covered_by(*x, *y));
                            return false;
                        },
                    }
                    j = j + 1;
                }
                res
            },
        },
    }
}

/// A sub-scope lies below its parent in the termination order.
pub proof fn lemma_child_decreases(r: Resource, m: Vec<(String, Resource)>, i: int)
    requires
        r == Resource::R(m),
        0 <= i < m@.len(),
    ensures
        decreases_to!(r => m@[i].1),
{
    assert(r->R_0 == m);
    assert(decreases_to!(r => r->R_0));
    assert(decreases_to!(m => m@));
    assert(decreases_to!(m@ => m@[i]));
    assert(decreases_to!(m@[i] => m@[i].1));
}

/// [`covered_by`] is [`covers`] with its arguments swapped.
pub proof fn lemma_covered_by_swap(x: Resource, y: Resource)
    ensures
        covered_by(x, y) == covers(y, x),
    decreases x,
{
    if let Resource::R(mx) = x {
        if let Resource::R(my) = y {
            assert forall|j: int| 0 <= j < mx@.len() implies (match #[trigger] first_key(
                my@,
                mx@[j].0@,
            ) {
                Some(i) => 0 <= i < my@.len() && covers(mx@[j].1, my@[i].1),
                None => false,
            }) == (match first_key(my@, mx@[j].0@) {
                Some(i) => 0 <= i < my@.len() && covered_by(my@[i].1, mx@[j].1),
                None => false,
            }) by {
                if let Some(i) = first_key(my@, mx@[j].0@) {
                    if 0 <= i < my@.len() {
                        lemma_child_decreases(x, mx, j);
                        lemma_covered_by_swap_rev(my@[i].1, mx@[j].1);
                    }
                }
            }
        }
    }
}

/// [`lemma_covered_by_swap`], by recursion on the second argument.
proof fn lemma_covered_by_swap_rev(x: Resource, y: Resource)
    ensures
        covered_by(x, y) == covers(y, x),
    decreases y,
{
    if let Resource::R(mx) = x {
        if let Resource::R(my) = y {
            assert forall|j: int| 0 <= j < mx@.len() implies (match #[trigger] first_key(
                my@,
                mx@[j].0@,
            ) {
                Some(i) => 0 <= i < my@.len() && covers(mx@[j].1, my@[i].1),
                None => false,
            }) == (match first_key(my@, mx@[j].0@) {
                Some(i) => 0 <= i < my@.len() && covered_by(my@[i].1, mx@[j].1),
                None => false,
            }) by {
                if let Some(i) = first_key(my@, mx@[j].0@) {
                    if 0 <= i < my@.len() {
                        lemma_child_decreases(y, my, i);
                        lemma_covered_by_swap(my@[i].1, mx@[j].1);
                    }
                }
            }
        }
    }
}

/// Two permission sets: one is comfortable with the other exactly when
/// every bit of the other is set in it; beneath a name, the comparison
/// turns around, so a map granting `p` under a name is comfortable with a
/// map granting `q` under it exactly when every bit of `p` is set in `q`.
/// So neither of the create and update flags is comfortable with the other.
pub proof fn lemma_leaf_comfort(
    p: Per,
    q: Per,
    ma: Vec<(String, Resource)>,
    mb: Vec<(String, Resource)>,
)
    requires
        ma@.len() == 1,
        mb@.len() == 1,
        ma@[0].0@ == mb@[0].0@,
        ma@[0].1 == Resource::P(p),
        mb@[0].1 == Resource::P(q),
    ensures
        covers(Resource::P(p), Resource::P(q)) == (p@ & q@ == q@),
        covers(Resource::R(ma), Resource::R(mb)) == (q@ & p@ == p@),
        p@ == 0b0110u8 && q@ == 0b0011u8 ==> !covers(Resource::P(p), Resource::P(q)) && !covers(
            Resource::P(q),
            Resource::P(p),
        ),
{
    lemma_unique_first_key(ma@, 0);
    assert(first_key(ma@, mb@[0].0@) == Some(0int));
    lemma_covered_by_swap(ma@[0].1, mb@[0].1);
    assert(0b0110u8 & 0b0011u8 != 0b0011u8 && 0b0011u8 & 0b0110u8 != 0b0110u8) by (bit_vector);
}

/// Every well-formed scope is comfortable with itself.
pub proof fn lemma_covers_reflexive(a: Resource)
    requires
        wf(a),
    ensures
        covers(a, a),
    decreases a,
{
    match a {
        Resource::P(p) => {
            let b = p@;
            assert(b & b == b) by (bit_vector);
        },
        Resource::R(m) => {
            assert forall|j: int| 0 <= j < m@.len() implies match #[trigger] first_key(
                m@,
                m@[j].0@,
            ) {
                Some(i) => 0 <= i < m@.len() && covered_by(m@[i].1, m@[j].1),
                None => false,
            } by {
                lemma_unique_first_key(m@, j);
                lemma_child_decreases(a, m, j);
                assert(wf(m@[j].1));
                lemma_covers_reflexive(m@[j].1);
                lemma_covered_by_swap(m@[j].1, m@[j].1);
            }
        },
    }
}

/// Comfort is transitive: if `a` is comfortable with `b` and `b` with `c`,
/// then `a` is comfortable with `c`.
pub proof fn lemma_covers_transitive(a: Resource, b: Resource, c: Resource)
    requires
        covers(a, b),
        covers(b, c),
    ensures
        covers(a, c),
    decreases b,
{
    match a {
        Resource::P(pa) => {
            if let Resource::P(pb) = b {
                if let Resource::P(pc) = c {
                    let (x, y, z) = (pa@, pb@, pc@);
                    assert(x & y == y && y & z == z ==> x & z == z) by (bit_vector);
                }
            }
        },
        Resource::R(ma) => {
            if let Resource::R(mb) = b {
                if let Resource::R(mc) = c {
                    assert forall|j: int| 0 <= j < mc@.len() implies match #[trigger] first_key(
                        ma@,
                        mc@[j].0@,
                    ) {
                        Some(i) => 0 <= i < ma@.len() && covered_by(ma@[i].1, mc@[j].1),
                        None => false,
                    } by {
                        let k = mc@[j].0@;
                        // the name is found in b ...
                        assert(match first_key(mb@, k) {
                            Some(i) => 0 <= i < mb@.len() && covered_by(mb@[i].1, mc@[j].1),
                            None => false,
                        });
                        let ib = first_key(mb@, k)->0;
                        lemma_first_key_some(mb@, k);
                        assert(mb@[ib].0@ == k);
                        // ... and, through b, in a
                        assert(match first_key(ma@, mb@[ib].0@) {
                            Some(i) => 0 <= i < ma@.len() && covered_by(ma@[i].1, mb@[ib].1),
                            None => false,
                        });
                        let ia = first_key(ma@, k)->0;
                        lemma_covered_by_swap(mb@[ib].1, mc@[j].1);
                        lemma_covered_by_swap(ma@[ia].1, mb@[ib].1);
                        lemma_covered_by_swap(ma@[ia].1, mc@[j].1);
                        lemma_child_decreases(b, mb, ib);
                        lemma_covers_transitive(mc@[j].1, mb@[ib].1, ma@[ia].1);
                    }
                }
            }
        },
    }
}

/// Whether two scopes grant the same: two permission sets with the same
/// bits, or two resource maps with the same names, where the sub-scopes under
/// each name grant the same in turn (in whatever order the names come).
pub open spec fn equivalent(a: Resource, b: Resource) -> bool
    decreases a,
{
    match a {
        Resource::P(p) => match b {
            Resource::P(q) => p@ == q@,
            Resource::R(_) => false,
        },
        Resource::R(m1) => match b {
            Resource::P(_) => false,
            Resource::R(m2) => {
                &&& forall|i: int|
                    0 <= i < m1@.len() ==> match #[trigger] first_key(m2@, m1@[i].0@) {
                        Some(j) => 0 <= j < m2@.len() && equivalent(m1@[i].1, m2@[j].1),
                        None => false,
                    }
                &&& forall|j: int|
                    0 <= j < m2@.len() ==> #[trigger] first_key(m1@, m2@[j].0@) is Some
            },
        },
    }
}

/// Two well-formed scopes are comfortable with each other exactly when they
/// grant the same (see [`equivalent`]).
pub proof fn lemma_mutual_comfort(a: Resource, b: Resource)
    requires
        wf(a),
        wf(b),
    ensures
        (covers(a, b) && covers(b, a)) == equivalent(a, b),
    decreases a,
{
    match a {
        Resource::P(pa) => {
            if let Resource::P(pb) = b {
                let (x, y) = (pa@, pb@);
                assert((x & y == y && y & x == x) == (x == y)) by (bit_vector);
            }
        },
        Resource::R(m1) => {
            if let Resource::R(m2) = b {
                // every name of `a` pairs with the same name of `b`, and the
                // comparison of the pair runs both ways
                assert forall|i: int| 0 <= i < m1@.len() && first_key(m2@, m1@[i].0@) is Some
                    implies {
                    let j = first_key(m2@, m1@[i].0@)->0;
                    &&& 0 <= j < m2@.len()
                    &&& m2@[j].0@ == m1@[i].0@
                    &&& first_key(m1@, m2@[j].0@) == Some(i)
                    &&& covered_by(m2@[j].1, m1@[i].1) == covers(m1@[i].1, m2@[j].1)
                    &&& covered_by(m1@[i].1, m2@[j].1) == covers(m2@[j].1, m1@[i].1)
                    &&& (covers(m1@[i].1, m2@[j].1) && covers(m2@[j].1, m1@[i].1)) == equivalent(
                        m1@[i].1,
                        m2@[j].1,
                    )
                } by {
                    let j = first_key(m2@, m1@[i].0@)->0;
                    lemma_first_key_some(m2@, m1@[i].0@);
                    lemma_unique_first_key(m1@, i);
                    lemma_covered_by_swap(m2@[j].1, m1@[i].1);
                    lemma_covered_by_swap(m1@[i].1, m2@[j].1);
                    lemma_child_decreases(a, m1, i);
                    assert(wf(m1@[i].1));
                    assert(wf(m2@[j].1));
                    lemma_mutual_comfort(m1@[i].1, m2@[j].1);
                }
                // every name of `b` found in `a` sits at the first place of
                // that name in `b`
                assert forall|j: int| 0 <= j < m2@.len() && first_key(m1@, m2@[j].0@) is Some
                    implies {
                    let i = first_key(m1@, m2@[j].0@)->0;
                    &&& 0 <= i < m1@.len()
                    &&& m1@[i].0@ == m2@[j].0@
                    &&& first_key(m2@, m1@[i].0@) == Some(j)
                } by {
                    lemma_first_key_some(m1@, m2@[j].0@);
                    lemma_unique_first_key(m2@, j);
                }
                if covers(a, b) && covers(b, a) {
                    assert forall|j: int| 0 <= j < m2@.len() implies #[trigger] first_key(
                        m1@,
                        m2@[j].0@,
                    ) is Some by {
                        assert(match first_key(m1@, m2@[j].0@) {
                            Some(i) => 0 <= i < m1@.len() && covered_by(m1@[i].1, m2@[j].1),
                            None => false,
                        });
                    }
                    assert forall|i: int| 0 <= i < m1@.len() implies match #[trigger] first_key(
                        m2@,
                        m1@[i].0@,
                    ) {
                        Some(j) => 0 <= j < m2@.len() && equivalent(m1@[i].1, m2@[j].1),
                        None => false,
                    } by {
                        assert(match first_key(m2@, m1@[i].0@) {
                            Some(j) => 0 <= j < m2@.len() && covered_by(m2@[j].1, m1@[i].1),
                            None => false,
                        });
                        let j = first_key(m2@, m1@[i].0@)->0;
                        assert(match first_key(m1@, m2@[j].0@) {
                            Some(k) => 0 <= k < m1@.len() && covered_by(m1@[k].1, m2@[j].1),
                            None => false,
                        });
                    }
                }
                if equivalent(a, b) {
                    assert forall|i: int| 0 <= i < m1@.len() implies match #[trigger] first_key(
                        m2@,
                        m1@[i].0@,
                    ) {
                        Some(j) => 0 <= j < m2@.len() && covered_by(m2@[j].1, m1@[i].1),
                        None => false,
                    } by {
                        assert(match first_key(m2@, m1@[i].0@) {
                            Some(j) => 0 <= j < m2@.len() && equivalent(m1@[i].1, m2@[j].1),
                            None => false,
                        });
                    }
                    assert forall|j: int| 0 <= j < m2@.len() implies match #[trigger] first_key(
                        m1@,
                        m2@[j].0@,
                    ) {
                        Some(i) => 0 <= i < m1@.len() && covered_by(m1@[i].1, m2@[j].1),
                        None => false,
                    } by {
                        assert(first_key(m1@, m2@[j].0@) is Some);
                        let i = first_key(m1@, m2@[j].0@)->0;
                        assert(match first_key(m2@, m1@[i].0@) {
                            Some(jj) => 0 <= jj < m2@.len() && equivalent(m1@[i].1, m2@[jj].1),
                            None => false,
                        });
                    }
                }
            }
        },
    }
}

/// Whether two scopes have the same shape, names and permission bits.
pub open spec fn same(a: Resource, b: Resource) -> bool
    decreases a,
{
    match a {
        Resource::P(p) => match b {
            Resource::P(q) => p@ == q@,
            Resource::R(_) => false,
        },
        Resource::R(m1) => match b {
            Resource::P(_) => false,
            Resource::R(m2) => {
                &&& m1@.len() == m2@.len()
                &&& forall|i: int|
                    0 <= i < m1@.len() ==> #[trigger] m1@[i].0@ == m2@[i].0@ && same(
                        m1@[i].1,
                        m2@[i].1,
                    )
            },
        },
    }
}

/// Copies a scope.
pub fn clone_resource(r: &Resource) -> (c: Resource)
    ensures
        same(*r, c),
    decreases r,
{
    match r {
        Resource::P(p) => Resource::P(*p),
        Resource::R(m) => {
            let mut out: Vec<(String, Resource)> = Vec::new();
            let mut i: usize = 0;
            while i < m.len()
                invariant
                    i <= m.len(),
                    *r == Resource::R(*m),
                    out@.len() == i,
                    forall|k: int|
                        0 <= k < i ==> #[trigger] m@[k].0@ == out@[k].0@ && same(
                            m@[k].1,
                            out@[k].1,
                        ),
                decreases m.len() - i,
            {
                proof {
                    lemma_child_decreases(*r, *m, i as int);
                }
                let child = clone_resource(&m[i].1);
                let name = m[i].0.clone();
                out.push((name, child));
                i = i + 1;
            }
            Resource::R(out)
        },
    }
}

impl Clone for Resource {
    fn clone(&self) -> (c: Self)
        ensures
            same(*self, c),
    {
        clone_resource(self)
    }
}

/// Whether `r` is the default scope: the single resource `gateway`, readable.
pub open spec fn is_default_resource(r: Resource) -> bool {
    &&& r is R
    &&& r->R_0@.len() == 1
    &&& r->R_0@[0].0@ == "gateway"@
    &&& r->R_0@[0].1 matches Resource::P(p) && p@ == PER_R
}

impl Default for Resource {
    /// The scope given when nothing else is known: read access to `gateway`.
    fn default() -> (r: Self)
        ensures
            is_default_resource(r),
            wf(r),
    {
        let mut m: Vec<(String, Resource)> = Vec::new();
        assert(PER_R & 0b1111u8 == PER_R) by (bit_vector);
        m.push((String::from_str("gateway"), Resource::P(Per::from_bits(PER_R))));
        let r = Resource::R(m);
        assert(wf(m@[0].1));
        r
    }
}

impl PartialEq for Resource {
    /// Whether `self` is comfortable with `other`; see [`covers`].
    fn eq(&self, other: &Self) -> (r: bool) {
        covers_exec(self, other)
    }
}

impl vstd::std_specs::cmp::PartialEqSpecImpl for Resource {
    open spec fn obeys_eq_spec() -> bool {
        true
    }

    open spec fn eq_spec(&self, other: &Resource) -> bool {
        covers(*self, *other)
    }
}

impl Resource {
    /// Whether this scope is comfortable with `other`; see [`covers`].
    pub fn comfortable_with(&self, other: &Resource) -> (r: bool)
        ensures
            r == covers(*self, *other),
    {
        self.eq(other)
    }
}

} // verus!
