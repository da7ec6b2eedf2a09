//! Tests of the fluent state builder.

use essential_debugger::builder::named_address_in;
use essential_debugger::{Directive, Predicate, StateBuilder};

#[test]
fn test_name() {
    let state = StateBuilder::new()
        .with_contract(
            "a".to_string(),
            &[Predicate {
                state_read: Default::default(),
                constraints: Default::default(),
                directive: Directive::Satisfy,
            }],
        )
        .with_contract(
            "b".to_string(),
            &[Predicate {
                state_read: Default::default(),
                constraints: vec![vec![1]],
                directive: Directive::Satisfy,
            }],
        )
        .push("a")
        .with_index(10)
        .with_b256([0; 4])
        .with_index(1)
        .with_map_int(2)
        .with_tuple(2)
        .with_map_int(3)
        .with_bool(true)
        .with_index(3)
        .with_tuple(6)
        .with_int(12)
        .pop()
        .push("b")
        .with_index(5)
        .with_bool(true);
    let a = named_address_in(&state.intents, "a").unwrap();
    let b = named_address_in(&state.intents, "b").unwrap();

    let state = state.build();

    assert_eq!(state.contracts.len(), 2);
    let state_a = state
        .contracts
        .iter()
        .find(|c| c.addr == a)
        .unwrap();
    let state_b = state
        .contracts
        .iter()
        .find(|c| c.addr == b)
        .unwrap();
    assert_eq!(state_a.entries.len(), 3);
    assert_eq!(state_b.entries.len(), 1);

    assert_eq!(state.get(&a, &vec![10]).unwrap(), &vec![0; 4]);
    assert_eq!(state.get(&a, &vec![1, 2, 2, 3]).unwrap(), &vec![1]);
    assert_eq!(state.get(&a, &vec![3, 6]).unwrap(), &vec![12]);

    assert_eq!(state.get(&b, &vec![5]).unwrap(), &vec![1]);
}

#[test]
fn reregistering_a_name_keeps_state() {
    let builder = StateBuilder::new()
        .with_contract_address("a".to_string(), [1u8; 32])
        .push("a")
        .with_key(vec![0])
        .with_int(5)
        .pop()
        .with_contract_address("a".to_string(), [2u8; 32]);
    // the name is now bound to the new address
    assert_eq!(named_address_in(&builder.intents, "a"), Some([2u8; 32]));
    let state = builder.build();
    // the state written under the first address survives
    assert_eq!(state.get(&[1u8; 32], &vec![0]).unwrap(), &vec![5]);
}
