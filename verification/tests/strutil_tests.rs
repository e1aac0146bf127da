use blades::strutil::{cmp_chars_exec, cmp_paths_exec, is_subpage, last_seg_exec, dirname_exec};
use blades::types::Order;

#[test]
fn paths_compare_by_component_not_by_character() {
    // '!' sorts before '/' as a character, but "a!" is a longer first
    // component than "a", so the ancestor path "a/b" wins
    assert_eq!(cmp_chars_exec("a!", "a/b"), Order::Less);
    assert_eq!(cmp_paths_exec("a!", "a/b"), Order::Greater);
    assert_eq!(cmp_paths_exec("a", "a/b"), Order::Less);
    assert_eq!(cmp_paths_exec("a/b", "a/b"), Order::Equal);
    assert_eq!(cmp_paths_exec("a/b", "a/c"), Order::Less);
    assert_eq!(cmp_paths_exec("", "a"), Order::Less);
}

#[test]
fn immediate_child_test() {
    // the page's directory must be exactly the section's path plus slug
    assert!(is_subpage("content/a", "content", "a"));
    assert!(is_subpage("content/a/", "content", "a"));
    assert!(is_subpage("content", "", "content"));
    assert!(!is_subpage("content/a/b", "content", "a"));
    assert!(!is_subpage("content/ab", "content", "a"));
    assert!(!is_subpage("elsewhere/a", "content", "a"));
}

#[test]
fn path_tails() {
    assert_eq!(last_seg_exec("a/b/c"), "c");
    assert_eq!(last_seg_exec("plain"), "plain");
    assert_eq!(dirname_exec("a/b/c"), "a/b");
    assert_eq!(dirname_exec("plain"), "");
}
