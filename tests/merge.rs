use jig_cli::tree::{merge_toml_values, Tree};

fn s(v: &str) -> Tree {
    Tree::Str(v.to_string())
}

fn table(entries: Vec<(&str, Tree)>) -> Tree {
    Tree::Table(entries.into_iter().map(|(k, v)| (k.to_string(), v)).collect())
}

fn named(name: &str, v: i64) -> Tree {
    table(vec![("name", s(name)), ("v", Tree::Int(v))])
}

#[test]
fn named_sequence_reconciliation() {
    let left = Tree::Array(vec![named("a", 1)]);
    let right = Tree::Array(vec![named("a", 2), named("b", 3)]);
    let merged = merge_toml_values(left, right, 3);
    assert_eq!(merged, Tree::Array(vec![named("a", 2), named("b", 3)]));
}

#[test]
fn unmatched_left_items_stay_in_front() {
    let left = Tree::Array(vec![named("x", 1), named("a", 1), named("y", 1)]);
    let right = Tree::Array(vec![named("a", 2), Tree::Int(7)]);
    let merged = merge_toml_values(left, right, 1);
    assert_eq!(
        merged,
        Tree::Array(vec![named("x", 1), named("y", 1), named("a", 2), Tree::Int(7)])
    );
}

#[test]
fn depth_zero_replaces_containers() {
    let left = table(vec![("a", Tree::Int(1)), ("b", Tree::Int(2))]);
    let right = table(vec![("a", Tree::Int(3))]);
    assert_eq!(merge_toml_values(left, right, 0), table(vec![("a", Tree::Int(3))]));
    let left = Tree::Array(vec![Tree::Int(1)]);
    let right = Tree::Array(vec![Tree::Int(2)]);
    assert_eq!(merge_toml_values(left, right, 0), Tree::Array(vec![Tree::Int(2)]));
}

#[test]
fn scalar_is_overridden_by_table() {
    for depth in 0..4usize {
        let merged = merge_toml_values(Tree::Int(5), table(vec![("x", Tree::Int(1))]), depth);
        assert_eq!(merged, table(vec![("x", Tree::Int(1))]));
    }
}

#[test]
fn table_keeps_left_only_keys() {
    let left = table(vec![("keep", s("yes")), ("both", Tree::Int(1))]);
    let right = table(vec![("both", Tree::Int(2)), ("new", Tree::Bool(true))]);
    let merged = merge_toml_values(left, right, 3);
    assert_eq!(
        merged,
        table(vec![("keep", s("yes")), ("both", Tree::Int(2)), ("new", Tree::Bool(true))])
    );
}

#[test]
fn table_conflict_merges_one_level_down() {
    let left = table(vec![("inner", table(vec![("a", Tree::Int(1)), ("b", Tree::Int(2))]))]);
    let right = table(vec![("inner", table(vec![("b", Tree::Int(3))]))]);
    let merged = merge_toml_values(left, right, 2);
    assert_eq!(
        merged,
        table(vec![("inner", table(vec![("a", Tree::Int(1)), ("b", Tree::Int(3))]))])
    );
}

#[test]
fn conflict_at_last_level_replaces() {
    let left = table(vec![("inner", table(vec![("a", Tree::Int(1))]))]);
    let right = table(vec![("inner", table(vec![("b", Tree::Int(3))]))]);
    let merged = merge_toml_values(left, right, 1);
    assert_eq!(merged, table(vec![("inner", table(vec![("b", Tree::Int(3))]))]));
}

#[test]
fn nested_arrays_past_depth_are_replaced() {
    let left = Tree::Array(vec![table(vec![
        ("name", s("a")),
        ("args", Tree::Array(vec![s("x")])),
    ])]);
    let right = Tree::Array(vec![table(vec![
        ("name", s("a")),
        ("args", Tree::Array(vec![s("y")])),
    ])]);
    let merged = merge_toml_values(left, right, 2);
    assert_eq!(
        merged,
        Tree::Array(vec![table(vec![("name", s("a")), ("args", Tree::Array(vec![s("y")]))])])
    );
}
