use vstd::prelude::*;

use crate::machine::{
    continue_at, execute, feed_next, mark_pattern, arg_of, next, well_formed, Action,
    MachineState, Mode,
};
use crate::program::{lemma_decode_bounds, lemma_search, matches_at, search, spec_decode, Decoded, Instr};

verus! {

/// Every step keeps the program counter within the program and every return
/// address inside it.
pub proof fn lemma_next_keeps_well_formed(s: MachineState)
    requires
        well_formed(s),
    ensures
        well_formed(next(s).0),
{
    if s.mode == Mode::Running && s.pc < s.prog.len() {
        lemma_decode_bounds(s.prog, s.pc);
        if let Ok(d) = spec_decode(s.prog, s.pc) {
            lemma_search(s.prog, arg_of(s, d), Some(d.last as int), 0);
            lemma_search(s.prog, mark_pattern(arg_of(s, d)), None, 0);
            let t = execute(s, d).0;
            if d.instr == Instr::Call {
                assert forall|i: int| 0 <= i < t.calls.len() implies t.calls[i] < t.prog.len() by {
                    if i < s.calls.len() {
                        assert(t.calls[i] == s.calls[i]);
                    }
                }
            }
            if d.instr == Instr::Return && s.calls.len() > 0 {
                assert forall|i: int| 0 <= i < t.calls.len() implies t.calls[i] < t.prog.len() by {
                    assert(t.calls[i] == s.calls[i]);
                }
            }
        }
    }
}

/// Input never moves the program counter nor touches the return addresses.
pub proof fn lemma_feed_keeps_well_formed(s: MachineState, input: Option<u8>)
    requires
        well_formed(s),
    ensures
        well_formed(feed_next(s, input).0),
        feed_next(s, input).0.pc == s.pc,
        feed_next(s, input).0.calls == s.calls,
{
}

/// A stopped machine stays as it is, and keeps saying why it stopped.
pub proof fn lemma_stopped_stays(s: MachineState, input: Option<u8>)
    requires
        s.mode == Mode::Halted || s.mode is Failed,
    ensures
        next(s).0 == s,
        feed_next(s, input).0 == s,
        s.mode == Mode::Halted ==> next(s).1 == Action::Halt,
        s.mode matches Mode::Failed(f) ==> next(s).1 == Action::Fail(f),
{
}

/// What a store writes, a later retrieve of the same address gives back, as
/// long as the heap is unchanged in between.
pub proof fn lemma_store_then_retrieve(s: MachineState, d1: Decoded, t: MachineState, d2: Decoded)
    requires
        d1.instr == Instr::Store,
        s.stack.len() >= 2,
        d2.instr == Instr::Retrieve,
        t.heap == execute(s, d1).0.heap,
        t.stack.len() > 0,
        t.stack.last() == s.stack[s.stack.len() - 2],
    ensures
        execute(t, d2) == continue_at(
            MachineState { stack: t.stack.drop_last().push(s.stack.last()), ..t },
            d2.last + 1,
        ),
{
}

/// A store at one address leaves every other address as it was.
pub proof fn lemma_store_keeps_other(s: MachineState, d: Decoded, k: i32)
    requires
        d.instr == Instr::Store,
        s.stack.len() >= 2,
        k != s.stack[s.stack.len() - 2],
    ensures
        execute(s, d).0.heap.contains_key(k) == s.heap.contains_key(k),
        s.heap.contains_key(k) ==> execute(s, d).0.heap[k] == s.heap[k],
{
}

/// Swapping twice gives back the stack.
pub proof fn lemma_swap_twice(s: MachineState, d1: Decoded, d2: Decoded)
    requires
        d1.instr == Instr::Swap,
        d2.instr == Instr::Swap,
    ensures
        execute(execute(s, d1).0, d2).0.stack == s.stack,
{
    let n = s.stack.len();
    if n >= 2 {
        let t = execute(s, d1).0.stack;
        assert(t.drop_last().drop_last() =~= s.stack.drop_last().drop_last());
        assert(t.drop_last().drop_last().push(t.last()).push(t[n - 2]) =~= s.stack);
    }
}

/// Duplicating the top and dropping it gives back the stack.
pub proof fn lemma_dup_then_discard(s: MachineState, d1: Decoded, d2: Decoded)
    requires
        d1.instr == Instr::Dup,
        d2.instr == Instr::Discard,
    ensures
        execute(execute(s, d1).0, d2).0.stack == s.stack,
{
    if s.stack.len() > 0 {
        assert(s.stack.push(s.stack.last()).drop_last() =~= s.stack);
    }
}

/// Pushing a number and dropping it gives back the stack.
pub proof fn lemma_push_then_discard(s: MachineState, d1: Decoded, d2: Decoded)
    requires
        d1.instr == Instr::Push,
        d2.instr == Instr::Discard,
        execute(s, d1).1 == Action::Continue,
    ensures
        execute(execute(s, d1).0, d2).0.stack == s.stack,
{
    let t = execute(s, d1).0.stack;
    assert(t.drop_last() =~= s.stack);
}

/// A return after a call comes back to just after the call, and forgets the
/// call, whatever ran in between without touching the return addresses.
pub proof fn lemma_call_then_return(s: MachineState, d1: Decoded, t: MachineState, d2: Decoded)
    requires
        d1.instr == Instr::Call,
        execute(s, d1).1 == Action::Continue,
        d2.instr == Instr::Return,
        t.calls == execute(s, d1).0.calls,
    ensures
        execute(t, d2).1 == Action::Continue,
        execute(t, d2).0.pc == d1.last + 1,
        execute(t, d2).0.calls == s.calls,
{
    assert(s.calls.push(d1.last).drop_last() =~= s.calls);
}

/// A jump that is taken lands just after the first mark of its label, and a
/// jump fails only when the program holds no such mark.
pub proof fn lemma_jump_lands_after_mark(s: MachineState, d: Decoded)
    requires
        d.instr == Instr::Jump,
    ensures
        execute(s, d).1 == Action::Continue ==> {
            let j = execute(s, d).0.pc - 1;
            &&& matches_at(s.prog, mark_pattern(arg_of(s, d)), j)
            &&& forall|m: int| 0 <= m < j ==> !matches_at(s.prog, mark_pattern(arg_of(s, d)), m)
        },
        execute(s, d).1 != Action::Continue ==> forall|m: int|
            0 <= m ==> !#[trigger] matches_at(s.prog, mark_pattern(arg_of(s, d)), m),
{
    lemma_search(s.prog, mark_pattern(arg_of(s, d)), None, 0);
}

} // verus!
