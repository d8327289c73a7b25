use management::gate::{distinct_peers, Whitelist};
use management::order::is_before;

fn s(x: &str) -> String {
    x.to_string()
}

#[test]
fn order_is_that_of_strings() {
    let samples = ["", "a", "A", "ab", "b", "aa", "é", "z", "☃", "12D3KooW", "12D3KooX", "ab\u{0}", "𝄞"];
    for x in samples {
        for y in samples {
            assert_eq!(is_before(x, y), x < y, "{:?} {:?}", x, y);
        }
    }
}

#[test]
fn prefix_sorts_before_its_extensions() {
    assert!(is_before("abc", "abcd"));
    assert!(!is_before("abcd", "abc"));
    assert!(!is_before("abc", "abc"));
    assert!(is_before("Z", "a"));
}

#[test]
fn empty_whitelist_admits_everyone() {
    let w = Whitelist::new();
    assert!(w.admits(&s("anyone")));
    assert!(!w.contains(&s("anyone")));
}

#[test]
fn whitelist_admits_only_listed_peers() {
    let mut w = Whitelist::new();
    w.add(s("p"));
    w.add(s("q"));
    w.add(s("p"));
    assert_eq!(w.peers(), vec![s("p"), s("q")]);
    assert!(w.admits(&s("p")));
    assert!(!w.admits(&s("r")));
    w.remove(&s("p"));
    assert_eq!(w.peers(), vec![s("q")]);
    assert!(!w.admits(&s("p")));
    w.remove(&s("q"));
    assert!(w.admits(&s("p")));
}

#[test]
fn discovered_peers_are_reported_once() {
    assert_eq!(
        distinct_peers(&vec![s("b"), s("a"), s("b"), s("c"), s("a")]),
        vec![s("b"), s("a"), s("c")]
    );
    assert_eq!(distinct_peers(&vec![]), Vec::<String>::new());
}
