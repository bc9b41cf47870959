use sk_bcl::SKParseResult;

#[test]
fn success_fills_bcl_and_clears_error() {
    let r = SKParseResult::parse("S K");
    assert_eq!(r.bcl(), "10100");
    assert_eq!(r.error_msg(), "");
    assert!(r.tree.is_some());
}

#[test]
fn failure_fills_error_and_clears_bcl() {
    let r = SKParseResult::parse("(S");
    assert_eq!(r.bcl(), "");
    assert!(!r.error_msg().is_empty());
    assert!(r.tree.is_none());
}

#[test]
fn exactly_one_field_is_nonempty() {
    for input in ["", "S", "K S (S K)", "(", ")", "()", "S K x"] {
        let r = SKParseResult::parse(input);
        assert!(r.bcl().is_empty() != r.error_msg().is_empty());
    }
}

#[test]
fn record_agrees_with_direct_conversion() {
    for input in ["", "S (K S) K", "(()"] {
        let r = SKParseResult::parse(input);
        match sk_bcl::sk_to_bcl(input) {
            Ok(bits) => assert_eq!(r.bcl(), bits),
            Err(msg) => assert_eq!(r.error_msg(), msg),
        }
    }
}
