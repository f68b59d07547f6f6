use tfr::resolve_path_pattern;

fn caps(values: &[&str]) -> Vec<String> {
    values.iter().map(|v| v.to_string()).collect()
}

#[test]
fn resolve_path_pattern_simple_test() {
    assert_eq!(resolve_path_pattern("", &caps(&[])), "");
    assert_eq!(resolve_path_pattern("", &caps(&["capture"])), "");
    assert_eq!(resolve_path_pattern("pattern", &caps(&[])), "pattern");
    assert_eq!(
        resolve_path_pattern("pattern", &caps(&["capture"])),
        "pattern"
    );
    assert_eq!(resolve_path_pattern("#1", &caps(&["capture"])), "capture");
    assert_eq!(resolve_path_pattern("#1", &caps(&[""])), "");
}

#[test]
fn multiple_usage_test() {
    assert_eq!(
        resolve_path_pattern("double #1 #1", &caps(&["capture"])),
        "double capture capture"
    );
    assert_eq!(
        resolve_path_pattern("double #1 #2 #1", &caps(&["capture", "double"])),
        "double capture double capture"
    );
    assert_eq!(resolve_path_pattern("#1#1", &caps(&["test"])), "testtest");
    assert_eq!(resolve_path_pattern("#1#1", &caps(&[""])), "");
}

#[test]
fn wrong_patterns_test() {
    assert_eq!(
        resolve_path_pattern("#0, #1, #2", &caps(&["ok"])),
        "#0, ok, #2"
    );
    assert_eq!(resolve_path_pattern("#0, #1", &caps(&[])), "#0, #1");
    assert_eq!(resolve_path_pattern("#0", &caps(&[])), "#0");
}

#[test]
fn oversized_index_passes_through() {
    assert_eq!(
        resolve_path_pattern("#99999999999999999999988877", &caps(&["a"])),
        "#99999999999999999999988877"
    );
}

#[test]
fn hash_without_digit_is_literal() {
    assert_eq!(resolve_path_pattern("a#b#", &caps(&["c"])), "a#b#");
}

#[test]
fn substituted_text_is_not_rescanned() {
    assert_eq!(resolve_path_pattern("#1", &caps(&["#2", "x"])), "#2");
}
