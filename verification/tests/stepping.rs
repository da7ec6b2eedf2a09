//! Tests of the stepping engine against the real constraint virtual machine:
//! forward stepping, replay-based rewind, run-to-completion classification,
//! faults, and the frozen context.

use essential_constraint_asm as casm;
use essential_debugger::{
    ConstraintDebugger, Mutation, Outcome, Predicate, PredicateAddress, Session, SessionError,
    Slots, SolutionData, SolutionModel,
};

fn simple_solution() -> SolutionModel {
    SolutionModel {
        data: vec![SolutionData {
            predicate_to_solve: PredicateAddress { contract: [1u8; 32], predicate: [2u8; 32] },
            decision_variables: vec![vec![42]],
            transient_data: vec![
                Mutation { key: vec![0, 1], value: vec![11] },
                Mutation { key: vec![0, 1], value: vec![12] },
                Mutation { key: vec![2], value: vec![7] },
            ],
            state_mutations: vec![Mutation { key: vec![0, 0, 0, 0], value: vec![42] }],
        }],
    }
}

fn predicate_of(ops: Vec<casm::Op>) -> Predicate {
    Predicate {
        state_read: vec![],
        constraints: vec![casm::to_bytes(ops).collect()],
        directive: essential_debugger::Directive::Satisfy,
    }
}

fn session_for(ops: Vec<casm::Op>, pre: Vec<Vec<i64>>, post: Vec<Vec<i64>>) -> Session {
    let dbg = ConstraintDebugger::new(
        simple_solution(),
        0,
        predicate_of(ops),
        0,
        Slots { pre, post },
    )
    .unwrap();
    dbg.start_session()
}

/// The constraint of the reference scenario: the pre state slot is empty and
/// the post state slot holds 42.
fn pre_empty_post_42() -> Vec<casm::Op> {
    vec![
        casm::Stack::Push(0).into(),
        casm::Stack::Push(1).into(),
        casm::Stack::Push(2).into(),
        casm::Stack::Push(3).into(),
        casm::Stack::Pop.into(),
        casm::Stack::Pop.into(),
        casm::Stack::Pop.into(),
        casm::Stack::Pop.into(),
        casm::Stack::Push(0).into(),
        casm::Stack::Push(0).into(),
        casm::Access::StateLen.into(),
        casm::Stack::Push(0).into(),
        casm::Pred::Eq.into(),
        casm::Stack::Push(0).into(),
        casm::Stack::Push(1).into(),
        casm::Access::State.into(),
        casm::Stack::Push(42).into(),
        casm::Pred::Eq.into(),
        casm::Pred::And.into(),
    ]
}

#[test]
fn stepping_counts_positions() {
    let mut s = session_for(pre_empty_post_42(), vec![vec![]], vec![vec![42]]);
    assert_eq!(s.position(), 0);
    for n in 1..=4 {
        let outcome = s.step_forward().unwrap();
        assert!(matches!(outcome, Outcome::Step));
        assert_eq!(s.position(), n);
    }
    assert_eq!(s.stack_words(), &vec![0, 1, 2, 3]);
}

#[test]
fn run_ends_successfully_on_true_stack() {
    let mut s = session_for(pre_empty_post_42(), vec![vec![]], vec![vec![42]]);
    let mut out = String::new();
    s.play_till_error(&mut out).unwrap();
    assert!(out.starts_with("Program ended successfully.\n"), "unexpected: {out}");
    assert_eq!(s.stack_words(), &vec![1]);
}

#[test]
fn run_reports_explicit_false() {
    // the post slot holds 41, so the final comparison leaves [0]
    let mut s = session_for(pre_empty_post_42(), vec![vec![]], vec![vec![41]]);
    let mut out = String::new();
    s.play_till_error(&mut out).unwrap();
    assert!(out.starts_with("Program ended with false!\n"), "unexpected: {out}");
    assert_eq!(s.stack_words(), &vec![0]);
}

#[test]
fn run_reports_anomalous_stack() {
    let ops = vec![casm::Stack::Push(5).into(), casm::Stack::Push(6).into()];
    let mut s = session_for(ops, vec![], vec![]);
    let mut out = String::new();
    s.play_till_error(&mut out).unwrap();
    assert!(
        out.starts_with("Program ended with unexpected stack: Stack([5, 6])\n"),
        "unexpected: {out}"
    );
}

#[test]
fn replay_is_deterministic() {
    // seek(k), back(), seek(k) leaves the machine and position of the first seek
    let mut s = session_for(pre_empty_post_42(), vec![vec![]], vec![vec![42]]);
    let mut out = String::new();
    s.play(7, &mut out).unwrap();
    let stack_first = s.stack_words().clone();
    let pos_first = s.position();
    let render_first = s.render();

    s.back(&mut out).unwrap();
    assert_eq!(s.position(), 6);

    s.play(7, &mut out).unwrap();
    assert_eq!(s.stack_words(), &stack_first);
    assert_eq!(s.position(), pos_first);
    assert_eq!(s.render(), render_first);
}

#[test]
fn back_saturates_at_first_step() {
    let mut s = session_for(pre_empty_post_42(), vec![vec![]], vec![vec![42]]);
    let mut out = String::new();
    s.step_forward().unwrap();
    assert_eq!(s.position(), 1);
    // stepping back from the first step replays one step
    s.back(&mut out).unwrap();
    assert_eq!(s.position(), 1);
}

#[test]
fn fault_is_recoverable_session_state() {
    // popping an empty stack violates the operation's rule
    let ops = vec![casm::Stack::Pop.into(), casm::Stack::Push(1).into()];
    let mut s = session_for(ops, vec![], vec![]);
    let outcome = s.step_forward().unwrap();
    assert!(matches!(outcome, Outcome::Panic(_)));
    assert_eq!(s.position(), 1);
    // the session stays usable: the faulting instruction runs again
    let outcome = s.step_forward().unwrap();
    assert!(matches!(outcome, Outcome::Panic(_)));
    assert_eq!(s.position(), 2);
}

#[test]
fn stepping_never_mutates_state_slots() {
    let mut s = session_for(pre_empty_post_42(), vec![vec![]], vec![vec![42]]);
    let mut out = String::new();
    s.play(5, &mut out).unwrap();
    s.back(&mut out).unwrap();
    s.play_till_error(&mut out).unwrap();
    assert_eq!(s.pre_slot(0), Some(&vec![]));
    assert_eq!(s.post_slot(0), Some(&vec![42]));
    assert_eq!(s.pre_len(), 1);
    assert_eq!(s.post_len(), 1);
    assert_eq!(s.pre_slot(1), None);
}

#[test]
fn parse_type_reads_the_stack() {
    let ops = vec![casm::Stack::Push(7).into(), casm::Stack::Push(1).into()];
    let mut s = session_for(ops, vec![], vec![]);
    let mut out = String::new();
    s.play(2, &mut out).unwrap();
    assert_eq!(s.parse_type("{int, bool}"), "{ 7, true }");
    assert_eq!(s.parse_type("1 int"), "1");
}

#[test]
fn transient_payloads_are_last_write_wins() {
    let s = session_for(vec![casm::Stack::Push(1).into()], vec![], vec![]);
    assert_eq!(s.transient_value(0, &vec![0, 1]), Some(&vec![12]));
    assert_eq!(s.transient_value(0, &vec![2]), Some(&vec![7]));
    assert_eq!(s.transient_value(0, &vec![9]), None);
    assert_eq!(s.transient_value(5, &vec![2]), None);
    assert_eq!(s.data_count(), 1);
}

#[test]
fn list_marks_the_current_position() {
    let ops = vec![
        casm::Stack::Push(1).into(),
        casm::Stack::Push(2).into(),
        casm::Stack::Push(3).into(),
    ];
    let mut s = session_for(ops, vec![], vec![]);
    s.step_forward().unwrap();
    let mut out = String::new();
    s.list(-1, 2, &mut out);
    assert_eq!(out, "Op: Stack(Push(1))\n> Op: Stack(Push(2))\nOp: Stack(Push(3))\n");
    // a window past the end leaves the output untouched
    let mut out2 = String::from("untouched");
    s.list(100, 110, &mut out2);
    assert_eq!(out2, "untouched");
}

#[test]
fn construction_rejects_bad_indices_and_bytecode() {
    let sol = simple_solution();
    let pred = predicate_of(vec![casm::Stack::Push(1).into()]);
    let err = match ConstraintDebugger::new(sol.clone(), 3, pred.clone(), 0, Slots {
        pre: vec![],
        post: vec![],
    }) {
        Err(e) => e,
        Ok(_) => panic!("expected an error"),
    };
    assert_eq!(err, SessionError::MissingSolutionData);

    let err = match ConstraintDebugger::new(sol.clone(), 0, pred.clone(), 5, Slots {
        pre: vec![],
        post: vec![],
    }) {
        Err(e) => e,
        Ok(_) => panic!("expected an error"),
    };
    assert_eq!(err, SessionError::NoConstraint);

    let bad = Predicate {
        state_read: vec![],
        constraints: vec![vec![0xff, 0xff]],
        directive: essential_debugger::Directive::Satisfy,
    };
    let err = match ConstraintDebugger::new(sol, 0, bad, 0, Slots { pre: vec![], post: vec![] }) {
        Err(e) => e,
        Ok(_) => panic!("expected an error"),
    };
    assert!(matches!(err, SessionError::BytecodeDecode(_)));
}

#[test]
fn next_renders_and_marks_the_end() {
    let ops = vec![casm::Stack::Push(1).into()];
    let mut s = session_for(ops, vec![], vec![]);
    let mut out = String::new();
    s.next(&mut out).unwrap();
    assert!(out.contains("Op: Stack(Push(1))"), "unexpected: {out}");
    assert!(out.contains("Stack([1])"), "unexpected: {out}");
    // a second call steps past the last instruction
    s.next(&mut out).unwrap();
    assert!(out.ends_with("\nProgram ended"), "unexpected: {out}");
}
