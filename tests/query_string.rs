use example::query_string::{QueryString, Value};

fn single(v: &str) -> Value {
    Value::Single(v.to_string())
}

fn multiple(vs: &[&str]) -> Value {
    Value::Multiple(vs.iter().map(|v| v.to_string()).collect())
}

fn flattened_count(q: &QueryString) -> usize {
    q.keys().iter().map(|k| q.get(k).unwrap().values().len()).sum()
}

#[test]
fn scenario_mixed_segments() {
    let q = QueryString::from("a=1&b=2&c&d=&e===&d=7&d=abc");
    assert_eq!(q.len(), 5);
    assert_eq!(q.get("a"), Some(&single("1")));
    assert_eq!(q.get("b"), Some(&single("2")));
    assert_eq!(q.get("c"), Some(&single("")));
    assert_eq!(q.get("d"), Some(&multiple(&["", "7", "abc"])));
    assert_eq!(q.get("e"), Some(&single("==")));
    assert_eq!(q.get("f"), None);
}

#[test]
fn keys_in_order_of_first_appearance() {
    let q = QueryString::from("a=1&b=2&c&d=&e===&d=7&d=abc");
    assert_eq!(q.keys(), vec!["a", "b", "c", "d", "e"]);
}

#[test]
fn empty_input_gives_one_empty_entry() {
    let q = QueryString::from("");
    assert_eq!(q.len(), 1);
    assert_eq!(q.get(""), Some(&single("")));
}

#[test]
fn bare_key_has_empty_value() {
    let q = QueryString::from("c");
    assert_eq!(q.len(), 1);
    assert_eq!(q.get("c"), Some(&single("")));
}

#[test]
fn key_with_trailing_separator_has_empty_value() {
    let q = QueryString::from("d=");
    assert_eq!(q.len(), 1);
    assert_eq!(q.get("d"), Some(&single("")));
}

#[test]
fn second_value_turns_single_into_multiple() {
    let first = QueryString::from("a=1");
    assert_eq!(first.get("a"), Some(&single("1")));
    let second = QueryString::from("a=1&a=2");
    assert_eq!(second.len(), 1);
    assert_eq!(second.get("a"), Some(&multiple(&["1", "2"])));
}

#[test]
fn flattened_values_match_segment_count() {
    for input in ["", "a", "&", "&&&", "a=1&b=2&c&d=&e===&d=7&d=abc", "x=1&x=2&x=3&=&="] {
        let q = QueryString::from(input);
        let separators = input.chars().filter(|c| *c == '&').count();
        assert_eq!(flattened_count(&q), separators + 1, "input {:?}", input);
    }
}

#[test]
fn distinct_keys_keep_text_after_first_separator() {
    let q = QueryString::from("user=name=x&pass=&flag&z==");
    assert_eq!(q.len(), 4);
    assert_eq!(q.get("user"), Some(&single("name=x")));
    assert_eq!(q.get("pass"), Some(&single("")));
    assert_eq!(q.get("flag"), Some(&single("")));
    assert_eq!(q.get("z"), Some(&single("=")));
}

#[test]
fn repeated_separators_stay_in_value() {
    let q = QueryString::from("e===x");
    assert_eq!(q.get("e"), Some(&single("==x")));
}

#[test]
fn empty_key_is_kept() {
    let q = QueryString::from("=x");
    assert_eq!(q.len(), 1);
    assert_eq!(q.get(""), Some(&single("x")));
}

#[test]
fn only_pair_separators_give_empty_values() {
    let q = QueryString::from("&&");
    assert_eq!(q.len(), 1);
    assert_eq!(q.get(""), Some(&multiple(&["", "", ""])));
}

#[test]
fn non_ascii_text_is_split_by_characters() {
    let q = QueryString::from("clé=été&clé=ü");
    assert_eq!(q.get("clé"), Some(&multiple(&["été", "ü"])));
}

#[test]
fn values_normalise_single_to_one_element() {
    assert_eq!(single("1").values(), vec!["1".to_string()]);
    assert_eq!(multiple(&["", "7"]).values(), vec!["".to_string(), "7".to_string()]);
}
