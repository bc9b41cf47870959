use sk_bcl::SKCombinator;
use sk_bcl::encode::sk_tree_to_bcl;
use sk_bcl::error::SyntaxErrorKind;
use sk_bcl::parse_full;

#[test]
fn parse_builds_the_expected_tree() {
    let tree = parse_full("S K").unwrap();
    assert_eq!(tree, SKCombinator::Ap(vec![SKCombinator::S, SKCombinator::K]));
}

#[test]
fn a_lone_group_is_not_wrapped() {
    let tree = parse_full("(K)").unwrap();
    assert_eq!(tree, SKCombinator::K);
}

#[test]
fn empty_input_parses_to_s_k_k() {
    let tree = parse_full("   ").unwrap();
    assert_eq!(
        tree,
        SKCombinator::Ap(vec![SKCombinator::S, SKCombinator::K, SKCombinator::K]),
    );
}

#[test]
fn nested_groups_nest_in_the_tree() {
    let tree = parse_full("S (K S) K").unwrap();
    assert_eq!(
        tree,
        SKCombinator::Ap(vec![
            SKCombinator::S,
            SKCombinator::Ap(vec![SKCombinator::K, SKCombinator::S]),
            SKCombinator::K,
        ]),
    );
}

#[test]
fn encoder_serialises_a_hand_built_tree() {
    let tree = SKCombinator::Ap(vec![SKCombinator::S, SKCombinator::K, SKCombinator::K]);
    assert_eq!(sk_tree_to_bcl(&tree), "11010000");
    assert_eq!(sk_tree_to_bcl(&SKCombinator::S), "01");
    assert_eq!(sk_tree_to_bcl(&SKCombinator::K), "00");
}

#[test]
fn unclosed_group_is_reported_as_such() {
    let e = parse_full("(S K").unwrap_err();
    assert_eq!(e.kind, SyntaxErrorKind::UnclosedGroup);
    assert_eq!(e.pos, 0);
}

#[test]
fn empty_group_is_reported_as_such() {
    let e = parse_full("K ( ) S").unwrap_err();
    assert_eq!(e.kind, SyntaxErrorKind::EmptyGroup);
    assert_eq!(e.pos, 4);
}

#[test]
fn stray_character_is_reported_where_it_stands() {
    let e = parse_full("S K x").unwrap_err();
    assert_eq!(e.kind, SyntaxErrorKind::ExpectedItem);
    assert_eq!(e.pos, 4);
}
