use message_tracker::{Message, MessageStore, MessageTracker};

fn msg(id: &str, peer: &str, data: &[u8]) -> Message {
    Message {
        id: id.to_string(),
        peer_id: peer.to_string(),
        data: data.to_vec(),
    }
}

fn numbered(n: usize) -> Message {
    msg(&n.to_string(), "peer", &[n as u8])
}

fn ids(all: &[Message]) -> Vec<String> {
    all.iter().map(|m| m.id.clone()).collect()
}

fn id_list(ns: &[usize]) -> Vec<String> {
    ns.iter().map(|n| n.to_string()).collect()
}

#[test]
fn length_never_exceeds_capacity() {
    let mut mt = MessageStore::new(3);
    for i in 0..20 {
        mt.add(numbered(i % 7));
        assert!(mt.get_all().len() <= 3);
    }
}

#[test]
fn zero_capacity_retains_nothing() {
    let mut mt = MessageStore::new(0);
    mt.add(numbered(1));
    assert!(mt.get_all().is_empty());
    assert!(mt.get("1").is_none());
}

#[test]
fn fifo_order_within_capacity() {
    let mut mt = MessageStore::new(5);
    for i in 0..5 {
        mt.add(numbered(i));
    }
    assert_eq!(ids(&mt.get_all()), id_list(&[0, 1, 2, 3, 4]));
}

#[test]
fn delete_three_keeps_the_rest_in_order() {
    let mut mt = MessageStore::new(5);
    for i in 0..5 {
        mt.add(numbered(i));
    }
    for i in 0..3 {
        assert_eq!(mt.delete(&i.to_string()), Some(numbered(i)));
    }
    assert_eq!(ids(&mt.get_all()), id_list(&[3, 4]));
}

#[test]
fn nine_adds_into_five_slots() {
    let mut mt = MessageStore::new(5);
    for i in 0..9 {
        mt.add(numbered(i));
    }
    assert_eq!(ids(&mt.get_all()), id_list(&[4, 5, 6, 7, 8]));
}

#[test]
fn duplicate_keeps_original_content() {
    let mut mt = MessageStore::new(5);
    mt.add(msg("0", "first", &[1, 2]));
    mt.add(msg("0", "second", &[9]));
    let all = mt.get_all();
    assert_eq!(all.len(), 1);
    assert_eq!(all[0], msg("0", "first", &[1, 2]));
    assert_eq!(mt.get("0"), Some(msg("0", "first", &[1, 2])));
}

#[test]
fn duplicate_keeps_position() {
    let mut mt = MessageStore::new(5);
    mt.add(numbered(0));
    mt.add(numbered(1));
    mt.add(numbered(0));
    assert_eq!(ids(&mt.get_all()), id_list(&[0, 1]));
}

#[test]
fn overflow_evicts_oldest() {
    let mut mt = MessageStore::new(5);
    for i in 0..6 {
        mt.add(numbered(i));
    }
    assert!(mt.get("0").is_none());
    assert!(!mt.contains("0"));
    assert_eq!(ids(&mt.get_all()), id_list(&[1, 2, 3, 4, 5]));
    assert_eq!(mt.get("1"), Some(numbered(1)));
    assert_eq!(mt.get("5"), Some(numbered(5)));
}

#[test]
fn evict_delete_and_reinsert() {
    let mut mt = MessageStore::new(5);
    for i in 0..6 {
        mt.add(numbered(i));
    }
    assert_eq!(mt.delete("2"), Some(numbered(2)));
    mt.add(numbered(2));
    assert_eq!(ids(&mt.get_all()), id_list(&[1, 3, 4, 5, 2]));
    for i in 1..6 {
        assert_eq!(mt.get(&i.to_string()), Some(numbered(i)));
    }
}

#[test]
fn delete_then_lookup_is_absent() {
    let mut mt = MessageStore::new(4);
    for i in 0..4 {
        mt.add(numbered(i));
    }
    assert_eq!(mt.delete("1"), Some(numbered(1)));
    assert!(mt.get("1").is_none());
    assert_eq!(mt.delete("1"), None);
    assert_eq!(ids(&mt.get_all()), id_list(&[0, 2, 3]));
    assert_eq!(mt.get("3"), Some(numbered(3)));
}

#[test]
fn reinsert_goes_to_the_back() {
    let mut mt = MessageStore::new(4);
    for i in 0..3 {
        mt.add(numbered(i));
    }
    mt.delete("0");
    mt.add(msg("0", "again", &[]));
    assert_eq!(ids(&mt.get_all()), id_list(&[1, 2, 0]));
    assert_eq!(mt.get("0"), Some(msg("0", "again", &[])));
}

#[test]
fn empty_tracker_lookups_are_absent() {
    let mut mt = MessageStore::new(5);
    assert!(mt.delete("x").is_none());
    assert!(mt.get("x").is_none());
    assert!(!mt.contains("x"));
    assert!(mt.get_all().is_empty());
}

#[test]
fn reads_repeat_identically() {
    let mut mt = MessageStore::new(3);
    for i in 0..4 {
        mt.add(numbered(i));
    }
    assert_eq!(mt.get("2"), mt.get("2"));
    assert_eq!(mt.get("0"), mt.get("0"));
    assert_eq!(mt.get_all(), mt.get_all());
}

#[test]
fn snapshot_is_independent_of_later_changes() {
    let mut mt = MessageStore::new(3);
    mt.add(numbered(0));
    mt.add(numbered(1));
    let snapshot = mt.get_all();
    mt.delete("0");
    mt.add(numbered(2));
    assert_eq!(ids(&snapshot), id_list(&[0, 1]));
    assert_eq!(ids(&mt.get_all()), id_list(&[1, 2]));
}

#[test]
fn contains_follows_adds_and_deletes() {
    let mut mt = MessageStore::new(2);
    mt.add(numbered(7));
    assert!(mt.contains("7"));
    mt.delete("7");
    assert!(!mt.contains("7"));
}
