use libsurfer::frame_buffer::{ArrayLevel, VariableValue};
use libsurfer::frame_buffer_arrays::{
    build_cached_variable_value, build_frame_buffer_content, build_variable_frame_buffer_value,
    fit_bit_text, resolve_leaf_scopes_and_variables, sort_keyed, ScopeNode,
};
use libsurfer::wave_refs::{ScopeRef, VarId, VariableRef};

fn var(path: &[&str], name: &str, index: Option<i64>) -> VariableRef {
    VariableRef::new_with_id_and_index(
        ScopeRef::from_strs(path.iter().map(|s| s.to_string()).collect()),
        name.to_string(),
        VarId(0),
        index,
    )
}

fn leaf(parent: &str, name: &str) -> ScopeNode {
    ScopeNode {
        name: name.to_string(),
        children: vec![],
        variables: vec![
            var(&[parent, name], "[1]", None),
            var(&[parent, name], "[0]", None),
            var(&[parent, name], "valid", None),
        ],
    }
}

fn memory() -> ScopeNode {
    ScopeNode {
        name: "mem".to_string(),
        children: vec![leaf("mem", "[1]"), leaf("mem", "[0]"), leaf("mem", "[2]")],
        variables: vec![],
    }
}

fn names(vars: &[VariableRef]) -> Vec<String> {
    vars.iter().map(|v| format!("{}.{}", v.path.strs.join("."), v.name)).collect()
}

fn level(min: i64, max: i64, first: i64, last: i64) -> ArrayLevel {
    ArrayLevel { min_index: min, max_index: max, first_index: first, last_index: last }
}

#[test]
fn sort_keyed_is_stable() {
    let sorted = sort_keyed(vec![(2, "a"), (1, "b"), (2, "c"), (0, "d"), (1, "e")]);
    assert_eq!(sorted, vec![(0, "d"), (1, "b"), (1, "e"), (2, "a"), (2, "c")]);
    assert!(sort_keyed::<u8>(vec![]).is_empty());
}

#[test]
fn content_levels_span_the_array_and_list_all_leaf_variables() {
    let hierarchy = ScopeNode { name: String::new(), children: vec![memory()], variables: vec![] };
    let (levels, vars) = build_frame_buffer_content(
        hierarchy,
        &ScopeRef::from_strs(vec!["mem".to_string()]),
    )
    .unwrap();
    // the scope level spans 0..=2; the variable level ignores the name without an index
    assert_eq!(levels, vec![level(0, 2, 0, 2), level(0, 1, 0, 1)]);
    assert_eq!(vars.len(), 9);
    assert_eq!(names(&vars)[0], "mem.[1].[1]");
}

#[test]
fn content_of_a_missing_scope_is_none() {
    let hierarchy = ScopeNode { name: String::new(), children: vec![memory()], variables: vec![] };
    let missing = ScopeRef::from_strs(vec!["cpu".to_string()]);
    assert!(build_frame_buffer_content(hierarchy, &missing).is_none());
}

#[test]
fn resolve_selects_scopes_and_variables_in_index_order() {
    let levels = vec![level(0, 2, 0, 1), level(0, 1, 0, 1)];
    let vars = resolve_leaf_scopes_and_variables(memory(), &levels).unwrap();
    assert_eq!(
        names(&vars),
        vec!["mem.[0].[0]", "mem.[0].[1]", "mem.[1].[0]", "mem.[1].[1]"]
    );
    // first and last are clamped to the range
    let levels = vec![level(0, 2, 2, 9), level(0, 1, -5, 0)];
    let vars = resolve_leaf_scopes_and_variables(memory(), &levels).unwrap();
    assert_eq!(names(&vars), vec!["mem.[2].[0]"]);
}

#[test]
fn resolve_gives_none_without_scopes_or_variable_range() {
    // the chosen scope range holds no scope
    let levels = vec![level(5, 6, 5, 6), level(0, 1, 0, 1)];
    assert!(resolve_leaf_scopes_and_variables(memory(), &levels).is_none());
    // the variable range is empty after clamping
    let levels = vec![level(0, 2, 0, 2), level(0, 1, 1, 0)];
    assert!(resolve_leaf_scopes_and_variables(memory(), &levels).is_none());
    // a single level selects variables of the scope itself
    let levels = vec![level(0, 1, 0, 1)];
    let vars = resolve_leaf_scopes_and_variables(leaf("mem", "[0]"), &levels).unwrap();
    assert_eq!(names(&vars), vec!["mem.[0].[0]", "mem.[0].[1]"]);
}

#[test]
fn bit_texts_are_fitted_and_joined() {
    assert_eq!(fit_bit_text("101", 5), "00101");
    assert_eq!(fit_bit_text("101101", 4), "1101");
    assert_eq!(fit_bit_text("", 0), "");
    assert_eq!(
        build_variable_frame_buffer_value(6, &VariableValue::BigUint("5".to_string())),
        ("000101".to_string(), 6)
    );
    let entries = vec![
        (Some(4), Some(VariableValue::BigUint("3".to_string()))),
        (Some(2), Some(VariableValue::String("x1z".to_string()))),
    ];
    assert_eq!(build_cached_variable_value(&entries), Some(("00111z".to_string(), 6)));
    let missing_value = vec![(Some(4), Some(VariableValue::BigUint("3".to_string()))), (Some(2), None)];
    assert_eq!(build_cached_variable_value(&missing_value), None);
    let missing_width = vec![(None, Some(VariableValue::BigUint("3".to_string())))];
    assert_eq!(build_cached_variable_value(&missing_width), None);
    let zero_width = vec![(Some(0), Some(VariableValue::BigUint("3".to_string())))];
    assert_eq!(build_cached_variable_value(&zero_width), None);
    assert_eq!(build_cached_variable_value(&[]), None);
}
