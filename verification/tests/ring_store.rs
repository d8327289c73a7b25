use management::dht::Dht;

fn s(x: &str) -> String {
    x.to_string()
}

#[test]
fn new_ring_holds_only_the_local_member() {
    let dht = Dht::new(s("m"));
    assert_eq!(dht.get_online_peers(), &vec![s("m")]);
    assert_eq!(dht.get_content(&s("x")), None);
}

#[test]
fn members_stay_sorted_and_distinct() {
    let mut dht = Dht::new(s("m"));
    dht.add_peer(s("z"));
    dht.add_peer(s("a"));
    dht.add_peer(s("q"));
    dht.add_peer(s("a"));
    assert_eq!(dht.get_online_peers(), &vec![s("a"), s("m"), s("q"), s("z")]);
}

#[test]
fn closest_owner_is_ring_successor_with_backup() {
    let mut dht = Dht::new(s("b"));
    dht.add_peer(s("d"));
    dht.add_peer(s("f"));
    assert_eq!(dht.get_closest_peers(&s("c")), vec![s("d"), s("f")]);
    assert_eq!(dht.get_closest_peers(&s("d")), vec![s("d"), s("f")]);
    assert_eq!(dht.get_closest_peers(&s("e")), vec![s("f"), s("b")]);
    assert_eq!(dht.get_closest_peers(&s("g")), vec![s("b"), s("d")]);
    assert_eq!(dht.get_closest_peers(&s("a")), vec![s("b"), s("d")]);
}

#[test]
fn single_member_is_returned_once() {
    let mut dht = Dht::new(s("b"));
    assert_eq!(dht.get_closest_peers(&s("z")), vec![s("b")]);
    assert_eq!(dht.get_closest_other(&s("b")), Vec::<String>::new());
}

#[test]
fn closest_other_never_names_the_target() {
    let mut dht = Dht::new(s("b"));
    dht.add_peer(s("d"));
    dht.add_peer(s("f"));
    assert_eq!(dht.get_closest_other(&s("d")), vec![s("f"), s("b")]);
    assert_eq!(dht.get_closest_other(&s("b")), vec![s("d"), s("f")]);
    assert_eq!(dht.get_closest_other(&s("f")), vec![s("b"), s("d")]);
}

#[test]
fn broadcast_supersedes_pending_unicast() {
    let mut dht = Dht::new(s("m"));
    dht.store(s("x"), s("first"));
    assert_eq!(dht.get_content(&s("x")), Some(s("first")));
    dht.store_broadcast_content(s("b"));
    assert_eq!(dht.get_content(&s("x")), Some(s("b")));
    assert_eq!(dht.get_content(&s("never stored")), Some(s("b")));
}

#[test]
fn store_overwrites_previous_payload() {
    let mut dht = Dht::new(s("m"));
    dht.store(s("x"), s("one"));
    dht.store(s("x"), s("two"));
    assert_eq!(dht.get_content(&s("x")), Some(s("two")));
    assert_eq!(dht.get_content_between(&s("a"), &s("z")), vec![(s("x"), s("two"))]);
}

#[test]
fn bootstrap_hands_over_whole_mailbox_and_broadcast() {
    let mut dht = Dht::new(s("m"));
    dht.store(s("x"), s("for x"));
    dht.store(s("c"), s("for c"));
    dht.store_broadcast_content(s("all"));
    dht.store(s("k"), s("for k"));
    let plan = dht.add_peer(s("p"));
    assert_eq!(
        plan,
        Some((
            s("p"),
            vec![
                (Some(s("c")), s("all")),
                (Some(s("k")), s("for k")),
                (Some(s("x")), s("all")),
                (None, s("all")),
            ]
        ))
    );
    assert_eq!(dht.get_content(&s("k")), Some(s("for k")));
}

// ring [A, B, C] with A local; D joins between B and C
#[test]
fn join_two_before_local_moves_backup_range() {
    let mut dht = Dht::new(s("A"));
    dht.add_peer(s("B"));
    dht.add_peer(s("C"));
    assert_eq!(dht.get_online_peers(), &vec![s("A"), s("B"), s("C")]);
    dht.store(s("B1"), s("one"));
    dht.store(s("B7"), s("two"));
    dht.store(s("Bz"), s("stays: after the new member"));
    dht.store(s("0"), s("stays: owned by the local member"));
    let plan = dht.add_peer(s("Bx"));
    assert_eq!(dht.get_online_peers(), &vec![s("A"), s("B"), s("Bx"), s("C")]);
    assert_eq!(
        plan,
        Some((s("Bx"), vec![(Some(s("B1")), s("one")), (Some(s("B7")), s("two"))]))
    );
    assert_eq!(dht.get_content(&s("B1")), None);
    assert_eq!(dht.get_content(&s("B7")), None);
    assert_eq!(dht.get_content(&s("Bz")), Some(s("stays: after the new member")));
    assert_eq!(dht.get_content(&s("0")), Some(s("stays: owned by the local member")));
}

#[test]
fn join_directly_before_local_moves_older_backup_range() {
    // ring [a, c, e] with e local; d joins as the predecessor of e
    let mut dht = Dht::new(s("e"));
    dht.add_peer(s("a"));
    dht.add_peer(s("c"));
    dht.store(s("b"), s("between a and c"));
    dht.store(s("cc"), s("between c and d"));
    dht.store(s("dd"), s("between d and e"));
    let plan = dht.add_peer(s("d"));
    // the interval from three positions back (a) to two positions back (c)
    assert_eq!(plan, Some((s("d"), vec![(Some(s("b")), s("between a and c"))])));
    assert_eq!(dht.get_content(&s("b")), None);
    assert_eq!(dht.get_content(&s("cc")), Some(s("between c and d")));
    assert_eq!(dht.get_content(&s("dd")), Some(s("between d and e")));
}

#[test]
fn join_elsewhere_changes_nothing_but_the_ring() {
    let mut dht = Dht::new(s("b"));
    dht.add_peer(s("d"));
    dht.add_peer(s("f"));
    dht.store(s("a"), s("mine"));
    assert_eq!(dht.add_peer(s("c")), None);
    assert_eq!(dht.get_online_peers(), &vec![s("b"), s("c"), s("d"), s("f")]);
    assert_eq!(dht.get_content(&s("a")), Some(s("mine")));
}

#[test]
fn wrapping_interval_is_taken_round_the_ring() {
    let mut dht = Dht::new(s("m"));
    dht.store(s("a"), s("1"));
    dht.store(s("k"), s("2"));
    dht.store(s("x"), s("3"));
    assert_eq!(
        dht.get_content_between(&s("p"), &s("b")),
        vec![(s("x"), s("3")), (s("a"), s("1"))]
    );
    assert_eq!(dht.get_content_between(&s("b"), &s("p")), vec![(s("k"), s("2"))]);
    assert_eq!(dht.get_content_between(&s("k"), &s("k")), vec![(s("k"), s("2"))]);
}

#[test]
fn predecessor_leaving_forwards_its_range_to_successor() {
    // ring [a, b, c, d, e], c local, b leaves
    let mut dht = Dht::new(s("c"));
    for p in ["a", "b", "d", "e"] {
        dht.add_peer(s(p));
    }
    dht.store(s("ab"), s("between a and b"));
    dht.store(s("bc"), s("between b and c"));
    let plan = dht.remove_peer(&s("b"));
    assert_eq!(dht.get_online_peers(), &vec![s("a"), s("c"), s("d"), s("e")]);
    assert_eq!(plan, Some((s("d"), vec![(s("ab"), s("between a and b"))])));
    assert_eq!(dht.get_content(&s("ab")), Some(s("between a and b")));
}

#[test]
fn successor_leaving_forwards_own_range_to_new_successor() {
    // ring [a, b, c, d, e], c local, d leaves
    let mut dht = Dht::new(s("c"));
    for p in ["a", "b", "d", "e"] {
        dht.add_peer(s(p));
    }
    dht.store(s("bc"), s("between b and c"));
    dht.store(s("ab"), s("between a and b"));
    let plan = dht.remove_peer(&s("d"));
    assert_eq!(plan, Some((s("e"), vec![(s("bc"), s("between b and c"))])));
}

#[test]
fn removing_absent_or_local_member_is_a_no_op() {
    let mut dht = Dht::new(s("c"));
    dht.add_peer(s("a"));
    assert_eq!(dht.remove_peer(&s("zz")), None);
    assert_eq!(dht.remove_peer(&s("c")), None);
    assert_eq!(dht.get_online_peers(), &vec![s("a"), s("c")]);
    assert_eq!(dht.remove_peer(&s("a")), None);
    assert_eq!(dht.get_online_peers(), &vec![s("c")]);
}

#[test]
fn join_on_a_ring_of_two_hands_over_the_wrapping_range() {
    // ring [n, x] with x local; o joins directly before x.
    // x then answers for the arc from n to x only: what lies after x or
    // up to n goes to the new member.
    let mut dht = Dht::new(s("x"));
    dht.add_peer(s("n"));
    dht.store(s("a"), s("before n"));
    dht.store(s("z"), s("after x"));
    dht.store(s("p"), s("between o and x"));
    dht.store(s("x"), s("for x itself"));
    let plan = dht.add_peer(s("o"));
    assert_eq!(
        plan,
        Some((
            s("o"),
            vec![
                (Some(s("x")), s("for x itself")),
                (Some(s("z")), s("after x")),
                (Some(s("a")), s("before n")),
            ]
        ))
    );
    assert_eq!(dht.get_content(&s("a")), None);
    assert_eq!(dht.get_content(&s("z")), None);
    assert_eq!(dht.get_content(&s("p")), Some(s("between o and x")));
}

#[test]
fn churn_leaves_no_stray_entries() {
    let pool = ["b", "d", "f", "h", "j", "l", "n", "p", "r", "t", "v", "x"];
    let keys = ["a", "c", "e", "g", "i", "k", "m", "o", "q", "s", "u", "w", "y", "h", "p"];
    for local in ["b", "l", "x"] {
        let mut dht = Dht::new(s(local));
        for k in keys {
            dht.store(s(k), s("held"));
        }
        let mut seed: u64 = 0x2545_f491_4f6c_dd1d;
        for _ in 0..400 {
            seed = seed.wrapping_mul(6364136223846793005).wrapping_add(1442695040888963407);
            let peer = pool[((seed >> 33) % pool.len() as u64) as usize];
            if (seed >> 20) % 3 == 0 {
                dht.remove_peer(&s(peer));
            } else {
                dht.add_peer(s(peer));
            }
            assert!(dht.get_online_peers().contains(&s(local)));
            for k in keys {
                if dht.get_content(&s(k)).is_some() {
                    let responsible = dht.get_closest_peers(&s(k));
                    assert!(
                        responsible.contains(&s(local)),
                        "{} holds {} on ring {:?}",
                        local,
                        k,
                        dht.get_online_peers()
                    );
                }
            }
        }
    }
}

#[test]
fn owner_is_always_a_current_member() {
    let mut dht = Dht::new(s("m"));
    for p in ["c", "t", "x"] {
        dht.add_peer(s(p));
    }
    dht.remove_peer(&s("t"));
    for target in ["", "a", "c", "d", "m", "s", "t", "u", "x", "zz"] {
        let closest = dht.get_closest_peers(&s(target));
        assert!(!closest.is_empty());
        assert!(dht.get_online_peers().contains(&closest[0]));
        assert_ne!(closest[0], "t");
    }
}
