use gateway::proxy::forward_plan;

#[test]
fn the_gateway_names_itself_only_first() {
    let p = forward_plan(true, true);
    assert!(p.append && p.by_gateway);
    let p = forward_plan(true, false);
    assert!(p.append && !p.by_gateway);
    let p = forward_plan(false, true);
    assert!(!p.append && !p.by_gateway);
}
