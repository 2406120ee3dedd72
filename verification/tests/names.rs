use strata_core::names::{fold_ident, quote_ident};

#[test]
fn a_bare_word_folds_and_prints_bare() {
    assert_eq!(fold_ident("MyTable"), "mytable");
    assert_eq!(quote_ident("MyTable", false), "mytable");
    assert_eq!(quote_ident("_x1", false), "_x1");
}

#[test]
fn a_name_that_cannot_stand_bare_is_quoted_verbatim() {
    assert_eq!(fold_ident("Sales 2024"), "Sales 2024");
    assert_eq!(quote_ident("Sales 2024", false), "\"Sales 2024\"");
    assert_eq!(quote_ident("a.b", false), "\"a.b\"");
}

#[test]
fn a_reserved_word_is_quoted() {
    assert_eq!(quote_ident("Order", true), "\"order\"");
}

use datafusion_common::TableReference;

/// The words the dialect reserves where a name stands, among those these checks use.
fn quote(name: &str) -> String {
    let id = fold_ident(name);
    quote_ident(name, ["order", "select", "from"].contains(&id.as_str()))
}

#[test]
fn a_nameable_ident_is_emitted_bare_and_case_folded() {
    for name in ["daily_sales", "_scratch", "t9", "orders2024"] {
        assert_eq!(quote(name), name, "already folded — untouched");
    }
    assert_eq!(quote("DailySales"), "dailysales");
    assert_eq!(quote("Revenue"), "revenue");
    assert_eq!(quote("ORDERS"), "orders");
}

#[test]
fn only_an_unsayable_name_is_quoted_and_it_is_escaped() {
    assert_eq!(quote("Sales 2024"), "\"Sales 2024\"");
    assert_eq!(quote("2024"), "\"2024\"", "can't lead with a digit");
    assert_eq!(quote("sales-eu"), "\"sales-eu\"");
    assert_eq!(quote("say \"hi\""), "\"say \"\"hi\"\"\"", "an embedded quote is doubled, not dropped");
    assert_eq!(quote("order"), "\"order\"");
    assert_eq!(quote("Order"), "\"order\"");
}

#[test]
fn the_folded_name_is_the_one_datafusion_resolves() {
    for name in ["daily_sales", "MyView", "Order", "Sales 2024", "2024"] {
        assert_eq!(fold_ident(name), TableReference::parse_str(name).table(), "{name:?}");
    }
    assert_eq!(fold_ident("a.b"), "a.b");
}

use strata_core::names::sorted_names;

#[test]
fn names_come_back_once_each_in_order() {
    let names: Vec<String> = ["orders", "Orders", "b", "orders", "a", "é", "z"].iter().map(|s| s.to_string()).collect();
    assert_eq!(sorted_names(&names), vec!["Orders", "a", "b", "orders", "z", "é"]);
    assert!(sorted_names(&[]).is_empty());
}
