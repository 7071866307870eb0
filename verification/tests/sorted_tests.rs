use shellshelf::dedup::contains_string;
use shellshelf::sorted::{insert_sorted, sorted_unique, str_less};

fn strings(values: &[&str]) -> Vec<String> {
    values.iter().map(|value| value.to_string()).collect()
}

#[test]
fn sorted_unique_orders_by_code_point() {
    assert_eq!(
        sorted_unique(&strings(&["b", "a", "B", "a", "ab"])),
        strings(&["B", "a", "ab", "b"])
    );
    assert!(sorted_unique(&Vec::new()).is_empty());
}

#[test]
fn insertion_keeps_order_without_repeats() {
    let mut v = strings(&["a", "c"]);
    insert_sorted(&mut v, "b".to_string());
    insert_sorted(&mut v, "c".to_string());
    assert_eq!(v, strings(&["a", "b", "c"]));
    assert!(str_less("a", "ab"));
    assert!(!str_less("b", "ab"));
    assert!(contains_string(&v, "b"));
    assert!(!contains_string(&v, "d"));
}
