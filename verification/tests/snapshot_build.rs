//! Tests of the snapshot builder: run sequencing, store generations, and the
//! frozen result; plus a run of a real state-read program through the
//! state-read virtual machine acting as the executor.

use essential_constraint_vm::{mut_keys_set, transient_data, Access, SolutionAccess, StateSlots};
use essential_debugger::{
    Mutation, PredicateAddress, SolutionData, SolutionModel, SnapshotBuild, Store,
};
use essential_state_asm as sasm;
use essential_state_read_vm::{GasLimit, StateRead, Vm};
use essential_types::solution::Solution as VmSolution;
use essential_types::{
    solution, ContentAddress, Key, PredicateAddress as VmPredicateAddress, Value, Word,
};

struct StoreReader(Store);

#[derive(Debug)]
struct ReadErr;

impl std::fmt::Display for ReadErr {
    fn fmt(&self, f: &mut std::fmt::Formatter<'_>) -> std::fmt::Result {
        f.write_str("key space exhausted")
    }
}

impl StateRead for StoreReader {
    type Error = ReadErr;
    type Future = std::future::Ready<Result<Vec<Value>, Self::Error>>;

    fn key_range(&self, addr: ContentAddress, key: Key, num: usize) -> Self::Future {
        std::future::ready(self.0.key_range(&addr.0, &key, num).map_err(|_| ReadErr))
    }
}

fn solution_mutating(addr: [u8; 32], key: Vec<i64>, value: Vec<i64>) -> SolutionModel {
    SolutionModel {
        data: vec![SolutionData {
            predicate_to_solve: PredicateAddress { contract: addr, predicate: [0u8; 32] },
            decision_variables: vec![vec![42]],
            transient_data: vec![],
            state_mutations: vec![Mutation { key, value }],
        }],
    }
}

#[test]
fn builder_sequences_pre_then_post_per_program() {
    let addr = [1u8; 32];
    let mut base = Store::new();
    base.set(&addr, &vec![0], vec![5]);
    let solution = solution_mutating(addr, vec![0], vec![9]);
    let programs: Vec<Vec<u8>> = vec![vec![], vec![]];
    let mut build = SnapshotBuild::new(base, &solution, programs);

    // first program: pre run against the base store
    assert_eq!(build.next_run(), Some((0, false)));
    assert_eq!(build.current_store().get(&addr, &vec![0]), Some(&vec![5]));
    build.supply(vec![vec![10]]);

    // first program: post run against the mutated store
    assert_eq!(build.next_run(), Some((0, true)));
    assert_eq!(build.current_store().get(&addr, &vec![0]), Some(&vec![9]));
    build.supply(vec![vec![20], vec![21]]);

    // second program
    assert_eq!(build.next_run(), Some((1, false)));
    build.supply(vec![vec![11]]);
    assert_eq!(build.next_run(), Some((1, true)));
    build.supply(vec![]);

    assert_eq!(build.next_run(), None);
    let slots = build.finish().ok().unwrap();
    assert_eq!(slots.pre, vec![vec![10], vec![11]]);
    assert_eq!(slots.post, vec![vec![20], vec![21]]);
}

#[test]
fn builder_refuses_to_finish_early() {
    let base = Store::new();
    let solution = solution_mutating([1u8; 32], vec![0], vec![9]);
    let build = SnapshotBuild::new(base, &solution, vec![vec![]]);
    assert!(build.finish().is_err());
}

#[test]
fn deleting_mutation_removes_the_key_from_the_post_store() {
    let addr = [1u8; 32];
    let mut base = Store::new();
    base.set(&addr, &vec![0], vec![5]);
    let solution = solution_mutating(addr, vec![0], vec![]);
    let mut build = SnapshotBuild::new(base, &solution, vec![vec![]]);
    build.supply(vec![]);
    assert_eq!(build.next_run(), Some((0, true)));
    assert_eq!(build.current_store().get(&addr, &vec![0]), None);
}

/// Run one real state-read program through the state-read virtual machine,
/// with the library's store answering its key-range reads, mirroring how a
/// front end derives the snapshot.
#[test]
fn state_read_vm_fills_the_slots() {
    let addr = [3u8; 32];
    let mut base = Store::new();
    base.set(&addr, &vec![0, 0, 0, 0], vec![42]);

    // read 1 slot: 4-word key [0,0,0,0] under this contract, 1 value
    let program: Vec<u8> = sasm::to_bytes(vec![
        sasm::Stack::Push(1).into(),
        sasm::StateSlots::AllocSlots.into(),
        sasm::Stack::Push(0).into(),
        sasm::Stack::Push(0).into(),
        sasm::Stack::Push(0).into(),
        sasm::Stack::Push(0).into(),
        sasm::Stack::Push(4).into(),
        sasm::Stack::Push(1).into(),
        sasm::Stack::Push(0).into(),
        sasm::StateRead::KeyRange.into(),
        sasm::TotalControlFlow::Halt.into(),
    ])
    .collect();

    let model = solution_mutating(addr, vec![0, 0, 0, 0], vec![43]);
    let vm_solution = VmSolution {
        data: vec![solution::SolutionData {
            predicate_to_solve: VmPredicateAddress {
                contract: ContentAddress(addr),
                predicate: ContentAddress([0u8; 32]),
            },
            decision_variables: vec![vec![42]],
            transient_data: vec![],
            state_mutations: vec![solution::Mutation { key: vec![0, 0, 0, 0], value: vec![43] }],
        }],
    };

    let mut build = SnapshotBuild::new(base, &model, vec![program]);
    let runtime = tokio::runtime::Builder::new_current_thread().build().unwrap();
    while let Some((i, _post)) = build.next_run() {
        let program = build.program(i).clone();
        let reader = StoreReader(build.current_store().duplicate());
        let mut_keys = mut_keys_set(&vm_solution, 0);
        let td = transient_data(&vm_solution);
        let access = Access {
            solution: SolutionAccess::new(&vm_solution, 0, &mut_keys, &td),
            state_slots: StateSlots {
                pre: build.pre_slots().as_slice(),
                post: build.post_slots().as_slice(),
            },
        };
        let bc: essential_constraint_vm::BytecodeMapped<sasm::Op, Vec<u8>> =
            essential_constraint_vm::BytecodeMapped::try_from_bytes(program).unwrap();
        let mut vm = Vm::default();
        runtime
            .block_on(vm.exec_bytecode(&bc, access, &reader, &|_: &sasm::Op| 1, GasLimit::UNLIMITED))
            .unwrap();
        let slots: Vec<Vec<Word>> = vm.into_state_slots();
        build.supply(slots);
    }
    let slots = build.finish().ok().unwrap();
    assert_eq!(slots.pre, vec![vec![42]]);
    assert_eq!(slots.post, vec![vec![43]]);
}
