use sk_bcl::sk_to_bcl;

#[test]
fn single_s() {
    assert_eq!(sk_to_bcl("S"), Ok("01".to_string()));
}

#[test]
fn single_k() {
    assert_eq!(sk_to_bcl("K"), Ok("00".to_string()));
}

#[test]
fn application_of_two() {
    assert_eq!(sk_to_bcl("S K"), Ok("10100".to_string()));
}

#[test]
fn group_of_whole_input_collapses() {
    assert_eq!(sk_to_bcl("(S K)"), Ok("10100".to_string()));
}

#[test]
fn empty_input_is_identity() {
    assert_eq!(sk_to_bcl(""), Ok("11010000".to_string()));
}

#[test]
fn whitespace_only_input_is_identity() {
    assert_eq!(sk_to_bcl("  \t \n \r "), Ok("11010000".to_string()));
}

#[test]
fn identity_matches_spelled_out_s_k_k() {
    assert_eq!(sk_to_bcl(""), sk_to_bcl("S K K"));
}

#[test]
fn whitespace_between_tokens_is_insignificant() {
    let tight = sk_to_bcl("SK(KS)").unwrap();
    assert_eq!(sk_to_bcl("S K (K S)").unwrap(), tight);
    assert_eq!(sk_to_bcl(" S\tK\n( K\rS ) ").unwrap(), tight);
}

#[test]
fn reparsing_is_deterministic() {
    let first = sk_to_bcl("S (K S) K");
    let second = sk_to_bcl("S (K S) K");
    assert_eq!(first, second);
}

#[test]
fn four_children_start_with_three_ones() {
    let bits = sk_to_bcl("S K K S").unwrap();
    assert!(bits.starts_with("111"));
    assert!(!bits.starts_with("1111"));
    assert_eq!(bits, "11101000001");
}

#[test]
fn nested_group_encodes_inside_out() {
    assert_eq!(sk_to_bcl("S (K S) K"), Ok("11011000100".to_string()));
}

#[test]
fn redundant_groups_collapse_away() {
    assert_eq!(sk_to_bcl("((((S))))"), Ok("01".to_string()));
    assert_eq!(sk_to_bcl("((S K))"), Ok("10100".to_string()));
}

#[test]
fn empty_parentheses_fail() {
    assert!(sk_to_bcl("()").is_err());
    assert!(sk_to_bcl("( )").is_err());
    assert!(sk_to_bcl("K () K").is_err());
    assert!(sk_to_bcl("(S ())").is_err());
}

#[test]
fn unbalanced_parentheses_fail() {
    assert!(sk_to_bcl("(S").is_err());
    assert!(sk_to_bcl("S)").is_err());
    assert!(sk_to_bcl("(()").is_err());
}

#[test]
fn unrecognized_character_fails() {
    assert!(sk_to_bcl("S x K").is_err());
    assert!(sk_to_bcl("s").is_err());
}

#[test]
fn diagnostics_name_a_position() {
    let msg = sk_to_bcl("S K )").unwrap_err();
    assert!(!msg.is_empty());
    assert!(msg.contains("4"));
}

#[test]
fn long_expression_converts() {
    let data = "S (S (K S) (S (K (S (K S))) (S (K (S (K K))) (S (K (S (K S))) (S (K S) K))))) (K (S (K K)))";
    let bits = sk_to_bcl(data).unwrap();
    assert!(bits.chars().all(|c| c == '0' || c == '1'));
    assert!(bits.starts_with("11"));
}
