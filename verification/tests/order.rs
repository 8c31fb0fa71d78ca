use nlp_stack::order::{insert_sorted, str_less};

#[test]
fn order_compares_scalar_values() {
    assert!(str_less("a", "b"));
    assert!(str_less("", "a"));
    assert!(str_less("ab", "abc"));
    assert!(!str_less("b", "a"));
    assert!(!str_less("same", "same"));
    assert!(str_less("z", "é"));
    assert_eq!(str_less("é", "😀"), "é" < "😀");
}

#[test]
fn sorted_insertion_keeps_one_copy_in_order() {
    let mut list = Vec::new();
    for item in ["pear", "apple", "pear", "fig", "apple"] {
        insert_sorted(&mut list, item.to_string());
    }
    assert_eq!(list, vec!["apple", "fig", "pear"]);
}
