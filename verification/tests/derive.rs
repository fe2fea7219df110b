use reverse_flat::scope::derive_scope;
use reverse_flat::value::Value;

fn entries(pairs: Vec<(&str, &str)>) -> Vec<(String, Value)> {
    pairs
        .into_iter()
        .map(|(k, v)| (k.to_string(), Value::Str(v.to_string())))
        .collect()
}

#[test]
fn derivation_selects_and_strips_matching_keys() {
    let parent = entries(vec![
        ("flatted_content", "a"),
        ("root", "b"),
        ("flatted_extra", "c"),
        ("flatted", "bare prefix, never matched"),
    ]);

    let child = derive_scope(&parent, "flatted");
    assert_eq!(child, entries(vec![("content", "a"), ("extra", "c")]));
}

#[test]
fn derivation_is_idempotent_and_leaves_the_parent_alone() {
    let parent = entries(vec![
        ("flatted_content", "a"),
        ("other_content", "b"),
        ("root", "c"),
    ]);
    let snapshot = entries(vec![
        ("flatted_content", "a"),
        ("other_content", "b"),
        ("root", "c"),
    ]);

    let first = derive_scope(&parent, "flatted");
    let second = derive_scope(&parent, "flatted");
    assert_eq!(first, second);

    let sibling = derive_scope(&parent, "other");
    assert_eq!(sibling, entries(vec![("content", "b")]));
    assert_eq!(parent, snapshot);
}

#[test]
fn derivation_strips_only_the_leading_occurrence() {
    let parent = entries(vec![("a_a_b", "doubled")]);

    let child = derive_scope(&parent, "a");
    assert_eq!(child, entries(vec![("a_b", "doubled")]));
}

#[test]
fn sibling_derivations_see_independent_views() {
    let parent = entries(vec![("left_x", "1"), ("right_x", "2")]);

    let left = derive_scope(&parent, "left");
    let right = derive_scope(&parent, "right");
    assert_eq!(left, entries(vec![("x", "1")]));
    assert_eq!(right, entries(vec![("x", "2")]));
}

#[test]
fn empty_derivation_for_unmatched_prefix() {
    let parent = entries(vec![("alpha", "1"), ("beta_x", "2")]);

    let child = derive_scope(&parent, "gamma");
    assert_eq!(child, Vec::new());
}
