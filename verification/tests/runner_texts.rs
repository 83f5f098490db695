use bitvec::report::{
    classify_hegel_failure, json_line, push_decimal, unknown_property_message, unknown_tool_message,
    HegelFailure,
};
use bitvec::runner::{apply_mutation, choose_mutation, parse_property, Mutation, Property};
use bitvec::text::{str_equal, strip_prefix};

#[test]
fn property_names_parse() {
    assert_eq!(parse_property("SplitAtMutAcceptsLen"), Some(Property::SplitAtMutAcceptsLen));
    assert_eq!(parse_property("VecInsertAcceptsEnd"), Some(Property::VecInsertAcceptsEnd));
    assert_eq!(parse_property("LeadingTrailingFallback"), Some(Property::LeadingTrailingFallback));
    assert_eq!(parse_property("BitVecPartialCmpMatches"), Some(Property::BitVecPartialCmpMatches));
    assert_eq!(parse_property("BitvecPartialCmpMatches"), Some(Property::BitVecPartialCmpMatches));
    assert_eq!(parse_property("CloneFromBitsliceCopiesSrc"), Some(Property::CloneFromBitsliceCopiesSrc));
    assert_eq!(parse_property("OctalFmtNoPanic"), Some(Property::OctalFmtNoPanic));
    assert_eq!(parse_property("All"), None);
    assert_eq!(parse_property("octalFmtNoPanic"), None);
    assert_eq!(parse_property(""), None);
}

#[test]
fn string_helpers() {
    assert!(str_equal("abc", "abc"));
    assert!(!str_equal("abc", "abd"));
    assert!(!str_equal("ab", "abc"));
    assert_eq!(strip_prefix("prefix-rest", "prefix-"), Some("rest"));
    assert_eq!(strip_prefix("pre", "prefix"), None);
    assert_eq!(strip_prefix("éa", "é"), Some("a"));
    assert_eq!(strip_prefix("abc", ""), Some("abc"));
}

#[test]
fn decimal_rendering() {
    for n in [0u128, 7, 10, 99, 100, 1234567890, u64::MAX as u128, u128::MAX] {
        let mut s = String::from("x=");
        push_decimal(&mut s, n);
        assert_eq!(s, format!("x={n}"));
    }
}

#[test]
fn json_result_lines() {
    assert_eq!(
        json_line("etna", "OctalFmtNoPanic", "passed", 1, 42, None, None),
        "{\"status\":\"passed\",\"tests\":1,\"discards\":0,\"time\":\"42us\",\"counterexample\":null,\"error\":null,\"tool\":\"etna\",\"property\":\"OctalFmtNoPanic\"}"
    );
    assert_eq!(
        json_line("quickcheck", "All", "failed", 12345, 0, Some("([true] 3)"), Some("a \"b\"")),
        "{\"status\":\"failed\",\"tests\":12345,\"discards\":0,\"time\":\"0us\",\"counterexample\":\"([true] 3)\",\"error\":\"a \\\"b\\\"\",\"tool\":\"quickcheck\",\"property\":\"All\"}"
    );
}

#[test]
fn unknown_name_messages() {
    assert_eq!(unknown_property_message(None, "Foo"), "Unknown property: Foo");
    assert_eq!(unknown_property_message(Some("proptest"), "Foo"), "Unknown property for proptest: Foo");
    assert_eq!(unknown_tool_message("cargo"), "Unknown tool: cargo");
}

#[test]
fn hegel_failure_messages() {
    match classify_hegel_failure("__unknown_property:Foo") {
        HegelFailure::UnknownProperty(m) => assert_eq!(m, "Unknown property for hegel: Foo"),
        HegelFailure::Failed(_) => panic!("expected an unknown property"),
    }
    match classify_hegel_failure("Property test failed: ([true] 1)") {
        HegelFailure::Failed(m) => assert_eq!(m, "([true] 1)"),
        HegelFailure::UnknownProperty(_) => panic!("expected a failure"),
    }
    match classify_hegel_failure("boom") {
        HegelFailure::Failed(m) => assert_eq!(m, "boom"),
        HegelFailure::UnknownProperty(_) => panic!("expected a failure"),
    }
}

#[test]
fn mutation_keeps_generated_lists_within_bound() {
    let full = vec![true; 32];
    let m = choose_mutation(1, full.len());
    assert_eq!(m, Mutation::Pop);
    let out = apply_mutation(full, m, 0, true);
    assert_eq!(out.len(), 31);
    let short = vec![false; 31];
    let m = choose_mutation(1, short.len());
    assert_eq!(m, Mutation::Push);
    assert_eq!(apply_mutation(short, m, 0, true).len(), 32);
}

#[test]
fn json_quoting_leaves_no_control_characters() {
    let q = bitvec::json::json_str("a\u{0}\u{1f}\n\"\\z");
    assert!(q.starts_with('"') && q.ends_with('"'));
    assert!(q.chars().all(|c| (c as u32) >= 0x20));
    assert_eq!(q, "\"a\\u0000\\u001f\\n\\\"\\\\z\"");
}
