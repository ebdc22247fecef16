use uv_tool::order::sorted_names;
use uv_tool::{Error, PackageName};

fn name(text: &str) -> PackageName {
    PackageName::from_str(text).unwrap()
}

#[test]
fn names_are_normalized() {
    for text in [
        "friendly-bard", "Friendly-Bard", "FRIENDLY-BARD", "friendly.bard", "friendly_bard",
        "friendly--bard", "FrIeNdLy-._.-bArD",
    ] {
        assert_eq!(name(text).as_str(), "friendly-bard");
    }
}

#[test]
fn normalized_names_stay() {
    for text in ["friendly-bard", "1okay", "okay2", ""] {
        assert_eq!(name(text).as_str(), text);
        assert_eq!(name(name(text).as_str()).as_str(), text);
    }
}

#[test]
fn other_texts_are_no_names() {
    for text in [
        " starts-with-space", "-starts-with-dash", "ends-with-dash-", "includes!invalid-char",
        "alpha-α", ".lock", "a/b",
    ] {
        match PackageName::from_str(text) {
            Err(Error::ToolName(given)) => assert_eq!(given, text),
            other => panic!("{other:?}"),
        }
    }
}

#[test]
fn an_invalid_name_is_explained() {
    let error = PackageName::from_str("-x").unwrap_err();
    let outside = <pep508_rs::PackageName as std::str::FromStr>::from_str("-x").unwrap_err();
    assert_eq!(error.message(), outside.to_string());
}

#[test]
fn names_compare_by_their_text() {
    assert!(name("Foo").same_as(&name("foo")));
    assert!(!name("foo").same_as(&name("foo2")));
    assert_eq!(name("Foo_Bar").clone().as_str(), "foo-bar");
}

#[test]
fn sorted_names_are_in_order_and_unique() {
    let list = vec![name("ruff"), name("black"), name("Ruff"), name("a"), name("black-it")];
    let sorted: Vec<String> = sorted_names(&list).iter().map(|n| n.as_str().to_string()).collect();
    assert_eq!(sorted, vec!["a", "black", "black-it", "ruff"]);
}

#[test]
fn sorting_ignores_order_and_repetition() {
    let a = sorted_names(&vec![name("b"), name("a"), name("b")]);
    let b = sorted_names(&vec![name("a"), name("b")]);
    assert_eq!(a.len(), 2);
    assert!(a[0].same_as(&b[0]) && a[1].same_as(&b[1]));
}

#[test]
fn sorting_agrees_with_a_btree_set() {
    let texts = ["z", "a-b", "a", "a0", "ab", "0", "a-b", "b"];
    let expected: Vec<String> = texts
        .iter()
        .map(|t| <pep508_rs::PackageName as std::str::FromStr>::from_str(t).unwrap())
        .collect::<std::collections::BTreeSet<_>>()
        .into_iter()
        .map(|n| n.to_string())
        .collect();
    let list: Vec<PackageName> = texts.iter().map(|t| name(t)).collect();
    let sorted: Vec<String> = sorted_names(&list).iter().map(|n| n.as_str().to_string()).collect();
    assert_eq!(sorted, expected);
}
