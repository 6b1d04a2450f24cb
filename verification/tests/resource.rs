use gateway::per::{Per, PER_C, PER_D, PER_R, PER_U};
use gateway::resource::{clone_resource, Resource};

fn p(bits: u8) -> Resource {
    Resource::P(Per::from_bits(bits))
}

fn r(entries: Vec<(&str, Resource)>) -> Resource {
    Resource::R(entries.into_iter().map(|(k, v)| (k.to_string(), v)).collect())
}

#[test]
fn permissions_compare_by_bits() {
    assert!(p(PER_C).comfortable_with(&p(PER_R)));
    assert!(!p(PER_R).comfortable_with(&p(PER_C)));
    assert!(p(PER_C | PER_U | PER_D).comfortable_with(&p(PER_U)));
    assert!(p(PER_R).comfortable_with(&p(0)));
    assert!(!p(PER_R).comfortable_with(&r(vec![])));
    assert!(!r(vec![]).comfortable_with(&p(PER_R)));
}

#[test]
fn maps_need_every_name_of_the_other() {
    let a = r(vec![("gateway", p(PER_R)), ("users", p(PER_R))]);
    let b = r(vec![("gateway", p(PER_R))]);
    assert!(a.comfortable_with(&b));
    assert!(!b.comfortable_with(&a));
    assert!(a.comfortable_with(&r(vec![])));
}

#[test]
fn comparison_turns_around_below_the_top() {
    // one level down, the other side's bits must hold the own side's bits
    let wide = r(vec![("gateway", p(PER_C))]);
    let narrow = r(vec![("gateway", p(PER_R))]);
    assert!(narrow.comfortable_with(&wide));
    assert!(!wide.comfortable_with(&narrow));
    // two levels down it turns around again
    let wide2 = r(vec![("api", r(vec![("gateway", p(PER_C))]))]);
    let narrow2 = r(vec![("api", r(vec![("gateway", p(PER_R))]))]);
    assert!(wide2.comfortable_with(&narrow2));
    assert!(!narrow2.comfortable_with(&wide2));
}

#[test]
fn comfort_is_reflexive_and_transitive_on_examples() {
    let a = r(vec![("a", p(PER_R)), ("b", r(vec![("c", p(PER_U))]))]);
    assert!(a.comfortable_with(&a));
    let b = r(vec![("a", p(PER_C))]);
    let c = r(vec![]);
    assert!(a.comfortable_with(&b));
    assert!(b.comfortable_with(&c));
    assert!(a.comfortable_with(&c));
    assert!(a == b);
}

#[test]
fn default_scope_reads_gateway() {
    let d = Resource::default();
    assert!(d.comfortable_with(&r(vec![("gateway", p(PER_R))])));
    assert!(r(vec![("gateway", p(PER_R))]).comfortable_with(&d));
    assert!(!d.comfortable_with(&r(vec![("other", p(PER_R))])));
}

#[test]
fn clones_compare_the_same() {
    let a = r(vec![("a", p(PER_D)), ("b", r(vec![("c", p(PER_U))]))]);
    let b = clone_resource(&a);
    assert!(a.comfortable_with(&b) && b.comfortable_with(&a));
    let c = a.clone();
    assert!(c == a);
}

#[test]
fn mutual_comfort_is_granting_the_same() {
    let a = r(vec![("gateway", p(PER_R)), ("users", r(vec![("x", p(PER_C))]))]);
    let b = r(vec![("users", r(vec![("x", p(PER_C))])), ("gateway", p(PER_R))]);
    assert!(a.comfortable_with(&b) && b.comfortable_with(&a));
    let c = r(vec![("users", r(vec![("x", p(PER_U))])), ("gateway", p(PER_R))]);
    assert!(!(a.comfortable_with(&c) && c.comfortable_with(&a)));
    let d = r(vec![("gateway", p(PER_R))]);
    assert!(!(a.comfortable_with(&d) && d.comfortable_with(&a)));
}
