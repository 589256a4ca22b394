use forest_filecoin::chain::{digest_lt, ChainStore, Tipset};

fn tipset(parent_weight: u64, weight: u64, ticket: &[u8]) -> Tipset {
    Tipset {
        parent_weight,
        weight,
        min_ticket_digest: ticket.to_vec(),
    }
}

#[test]
fn head_of_three_candidates_is_the_heaviest() {
    let mut store = ChainStore::new(tipset(0, 0, &[0]));
    assert!(store.commit(tipset(9, 1, &[1])));
    assert!(store.commit(tipset(10, 2, &[2])));
    assert!(!store.commit(tipset(10, 1, &[3])));
    let head = store.head();
    assert_eq!(head.parent_weight + head.weight, 12);
    assert_eq!(head, &tipset(10, 2, &[2]));
}

#[test]
fn head_weight_never_decreases() {
    let weights: [u64; 8] = [5, 3, 9, 9, 1, 12, 11, 12];
    let mut store = ChainStore::new(tipset(0, 4, &[9]));
    let mut last: u64 = 4;
    for w in weights {
        store.commit(tipset(w / 2, w - w / 2, &[9]));
        let now = store.head().parent_weight + store.head().weight;
        assert!(now >= last);
        last = now;
    }
    assert_eq!(last, 12);
}

#[test]
fn lighter_candidate_leaves_the_head() {
    let mut store = ChainStore::new(tipset(7, 3, &[5]));
    assert!(!store.commit(tipset(4, 5, &[0])));
    assert_eq!(store.head(), &tipset(7, 3, &[5]));
}

#[test]
fn equal_weight_goes_to_the_smaller_ticket() {
    let mut store = ChainStore::new(tipset(7, 3, &[5, 5]));
    assert!(!store.commit(tipset(6, 4, &[5, 6])));
    assert_eq!(store.head(), &tipset(7, 3, &[5, 5]));
    assert!(store.commit(tipset(6, 4, &[5, 4])));
    assert_eq!(store.head(), &tipset(6, 4, &[5, 4]));
}

#[test]
fn equal_weight_and_ticket_leaves_the_head() {
    let mut store = ChainStore::new(tipset(7, 3, &[5, 5]));
    assert!(!store.commit(tipset(3, 7, &[5, 5])));
    assert_eq!(store.head(), &tipset(7, 3, &[5, 5]));
}

#[test]
fn weights_near_the_limit_do_not_wrap() {
    let mut store = ChainStore::new(tipset(u64::MAX, 1, &[1]));
    assert!(!store.commit(tipset(u64::MAX, 0, &[0])));
    assert!(store.commit(tipset(u64::MAX, u64::MAX, &[2])));
    assert!(!store.commit(tipset(1, 1, &[0])));
    assert_eq!(store.head(), &tipset(u64::MAX, u64::MAX, &[2]));
}

#[test]
fn set_head_returns_the_previous_head() {
    let mut store = ChainStore::new(tipset(1, 1, &[1]));
    let previous = store.set_head(tipset(0, 1, &[2]));
    assert_eq!(previous, tipset(1, 1, &[1]));
    assert_eq!(store.head(), &tipset(0, 1, &[2]));
}

#[test]
fn digests_are_ordered_as_in_a_dictionary() {
    assert!(digest_lt(&[], &[0]));
    assert!(!digest_lt(&[], &[]));
    assert!(!digest_lt(&[0], &[]));
    assert!(digest_lt(&[1, 2], &[1, 3]));
    assert!(!digest_lt(&[1, 3], &[1, 2]));
    assert!(digest_lt(&[1, 2], &[1, 2, 0]));
    assert!(!digest_lt(&[1, 2, 0], &[1, 2]));
    assert!(digest_lt(&[0, 255], &[1, 0]));
    assert!(!digest_lt(&[7, 7], &[7, 7]));
}
