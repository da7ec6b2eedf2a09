//! Tests of the key-value store: key-range reads with carry, and mutation
//! application.

use essential_debugger::{Mutation, PredicateAddress, SolutionData, SolutionModel, Store};

fn entry(addr: [u8; 32], muts: Vec<Mutation>) -> SolutionData {
    SolutionData {
        predicate_to_solve: PredicateAddress { contract: addr, predicate: [0u8; 32] },
        decision_variables: vec![],
        transient_data: vec![],
        state_mutations: muts,
    }
}

#[test]
fn key_range_reads_consecutive_keys() {
    let addr = [7u8; 32];
    let mut store = Store::new();
    store.set(&addr, &vec![0, 0, 0, 1], vec![5]);
    store.set(&addr, &vec![0, 0, 0, 2], vec![6]);
    let got = store.key_range(&addr, &vec![0, 0, 0, 1], 3).unwrap();
    assert_eq!(got, vec![vec![5], vec![6], vec![]]);
}

#[test]
fn key_range_carries_on_word_overflow() {
    let addr = [7u8; 32];
    let mut store = Store::new();
    store.set(&addr, &vec![0, 0, 0, i64::MAX], vec![5]);
    store.set(&addr, &vec![0, 0, 1, i64::MIN], vec![6]);
    let got = store.key_range(&addr, &vec![0, 0, 0, i64::MAX], 2).unwrap();
    assert_eq!(got, vec![vec![5], vec![6]]);
}

#[test]
fn key_range_fails_when_key_space_exhausted() {
    let addr = [7u8; 32];
    let mut store = Store::new();
    store.set(&addr, &vec![0], vec![1]);
    let all_max = vec![i64::MAX, i64::MAX, i64::MAX, i64::MAX];
    assert!(store.key_range(&addr, &all_max, 2).is_err());
}

#[test]
fn key_range_single_read_at_the_last_key_succeeds() {
    // no key follows the all-MAX key, but none is needed for a single read
    let addr = [7u8; 32];
    let mut store = Store::new();
    let all_max = vec![i64::MAX, i64::MAX, i64::MAX, i64::MAX];
    store.set(&addr, &all_max, vec![9]);
    let got = store.key_range(&addr, &all_max, 1).unwrap();
    assert_eq!(got, vec![vec![9]]);
    assert!(store.key_range(&addr, &all_max, 0).unwrap().is_empty());
}

#[test]
fn key_range_unknown_address_is_empty() {
    let store = Store::new();
    let got = store.key_range(&[9u8; 32], &vec![0], 5).unwrap();
    assert!(got.is_empty());
}

#[test]
fn mutations_apply_in_order_with_last_write_wins() {
    let addr = [1u8; 32];
    let mut store = Store::new();
    let solution = SolutionModel {
        data: vec![entry(
            addr,
            vec![
                Mutation { key: vec![3], value: vec![10] },
                Mutation { key: vec![3], value: vec![20] },
                Mutation { key: vec![4], value: vec![30] },
                Mutation { key: vec![4], value: vec![] },
            ],
        )],
    };
    store.apply_mutations(&solution);
    assert_eq!(store.get(&addr, &vec![3]), Some(&vec![20]));
    assert_eq!(store.get(&addr, &vec![4]), None);
}

#[test]
fn applying_mutations_twice_equals_once() {
    let addr = [1u8; 32];
    let solution = SolutionModel {
        data: vec![entry(
            addr,
            vec![
                Mutation { key: vec![1], value: vec![10] },
                Mutation { key: vec![2], value: vec![20] },
                Mutation { key: vec![1], value: vec![] },
            ],
        )],
    };
    let mut base = Store::new();
    base.set(&addr, &vec![1], vec![99]);
    base.set(&addr, &vec![9], vec![9]);

    let mut once = base.duplicate();
    once.apply_mutations(&solution);
    let mut twice = once.duplicate();
    twice.apply_mutations(&solution);

    for key in [vec![1i64], vec![2], vec![9]] {
        assert_eq!(once.get(&addr, &key), twice.get(&addr, &key));
    }
    assert_eq!(once.get(&addr, &vec![1]), None);
    assert_eq!(once.get(&addr, &vec![2]), Some(&vec![20]));
    assert_eq!(once.get(&addr, &vec![9]), Some(&vec![9]));
}
