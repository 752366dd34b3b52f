use mana::vm::emitter::{EmitError, Emitter};
use mana::vm::instructions::Inst;

#[test]
fn test_emit_returns_the_index() {
    let mut e = Emitter::new();
    assert_eq!(e.emit(Inst::Nop), 0);
    assert_eq!(e.emit(Inst::PushI(4)), 1);
    assert_eq!(e.previous_idx(), 1);
    assert_eq!(e.current_idx(), 2);
    let f = e.finish().unwrap();
    assert_eq!(f.instructions, vec![Inst::Nop, Inst::PushI(4)]);
    assert_eq!(f.locals, 0);
}

#[test]
fn test_local_new_counts_from_the_captured_environment() {
    let mut e = Emitter::with_env(2);
    assert_eq!(e.local_new(), 2);
    assert_eq!(e.local_new(), 3);
    let f = e.finish().unwrap();
    assert_eq!(f.locals, 2);
}

#[test]
fn test_patch_overwrites_in_range_only() {
    let mut e = Emitter::new();
    e.emit(Inst::Nop);
    e.patch(0, Inst::PushI(1));
    e.patch(7, Inst::PushI(2));
    let f = e.finish().unwrap();
    assert_eq!(f.instructions, vec![Inst::PushI(1)]);
}

#[test]
fn test_infinite_loop_backpatches_breaks() {
    let e = Emitter::new().infinite_loop(|e| e.push_int(1).break_if());
    let f = e.finish().unwrap();
    assert_eq!(
        f.instructions,
        vec![Inst::PushI(1), Inst::BranchIf(3), Inst::Branch(0)]
    );
}

#[test]
fn test_while_loop_lowers_to_branches() {
    let e = Emitter::new().while_loop(|e| e.push_int(0), |e| e.nop());
    let f = e.finish().unwrap();
    assert_eq!(
        f.instructions,
        vec![
            Inst::PushI(0),
            Inst::BranchIfNot(4),
            Inst::Nop,
            Inst::Branch(0)
        ]
    );
}

#[test]
fn test_nested_loops_consume_only_their_own_breaks() {
    let e = Emitter::new().infinite_loop(|e| {
        let e = e.break_if();
        e.infinite_loop(|e| e.break_if_not())
    });
    let f = e.finish().unwrap();
    assert_eq!(
        f.instructions,
        vec![
            // Outer loop's break, patched past the whole program.
            Inst::BranchIf(4),
            // Inner loop: its break is patched past the inner branch.
            Inst::BranchIfNot(3),
            Inst::Branch(1),
            // Outer loop's closing branch.
            Inst::Branch(0),
        ]
    );
}

#[test]
fn test_finish_reports_an_unconsumed_break() {
    let e = Emitter::new().break_if();
    assert_eq!(e.finish(), Err(EmitError::UnresolvedBreak));
}

#[test]
fn test_finish_reports_an_unconsumed_inverted_break() {
    let e = Emitter::new().nop().break_if_not();
    assert_eq!(e.finish(), Err(EmitError::UnresolvedBreak));
}
