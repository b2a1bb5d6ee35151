use doc_server::order::{chars_lt, chars_of, sort_by_keys};

fn key(s: &str) -> Vec<char> {
    s.chars().collect()
}

#[test]
fn chars_of_reads_every_character() {
    assert_eq!(chars_of("a📦b"), vec!['a', '📦', 'b']);
}

#[test]
fn order_is_that_of_str() {
    for (a, b) in [("a", "b"), ("ab", "a"), ("", "a"), ("", ""), ("B", "a"), ("é", "z"), ("abc", "abd"), ("x", "x")] {
        assert_eq!(chars_lt(&key(a), &key(b)), a < b, "{:?} < {:?}", a, b);
    }
}

#[test]
fn sort_by_keys_is_stable() {
    let items = vec![(key("b"), 1), (key("a"), 2), (key("b"), 3), (key("a"), 4), (key(""), 5)];
    assert_eq!(sort_by_keys(items), vec![5, 2, 4, 1, 3]);
}

#[test]
fn sort_by_keys_of_nothing() {
    let items: Vec<(Vec<char>, u8)> = Vec::new();
    assert!(sort_by_keys(items).is_empty());
}
