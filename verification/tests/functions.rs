use strata_core::functions::signatures;

fn ov(lists: &[&[&str]]) -> Vec<Vec<String>> {
    lists.iter().map(|l| l.iter().map(|s| s.to_string()).collect()).collect()
}

#[test]
fn overloads_are_listed_once_shortest_first_then_in_label_order() {
    let got = signatures(&ov(&[&["Int64"], &["Utf8", "Int64"], &["Int64"], &["Float64"], &[]]), None);
    assert_eq!(got, ov(&[&[], &["Float64"], &["Int64"], &["Utf8", "Int64"]]));
    let got = signatures(&ov(&[&["b", "a"], &["a", "b"], &["a"]]), None);
    assert_eq!(got, ov(&[&["a"], &["a", "b"], &["b", "a"]]));
    assert!(signatures(&[], None).is_empty());
}

#[test]
fn parameter_names_replace_the_overloads_of_their_arity() {
    let names = vec!["value".to_string(), "places".to_string()];
    let got = signatures(&ov(&[&["Float64", "Int64"], &["Float64"], &["Decimal", "Int64"]]), Some(&names));
    assert_eq!(got, ov(&[&["Float64"], &["value", "places"], &["value", "places"]]));
}
