use vstd::prelude::*;

use crate::fault::Fault;
use crate::machine::{feed_next, next, well_formed, Action, MachineState, Mode};
use crate::number::{
    binary_digits, binary_value, decimal_value, digits_of, first_l_from, lemma_binary_digits,
    lemma_calc_num_of_code, lemma_first_l_from, number_code,
};
use crate::program::{lemma_search, search};
use crate::token::WSC;

verus! {

/// The argument that starts at `start` ends with the line feed at `e`: no
/// line feed comes between.
pub open spec fn arg_end(p: Seq<WSC>, start: int, e: int) -> bool {
    &&& 0 <= start <= e < p.len()
    &&& p[e] == WSC::L
    &&& forall|k: int| start <= k < e ==> p[k] != WSC::L
}

/// The symbols that end at index `j` spell `pat`.
pub open spec fn window_is(p: Seq<WSC>, pat: Seq<WSC>, j: int) -> bool {
    &&& 0 <= j < p.len()
    &&& pat.len() <= j + 1
    &&& p.subrange(j + 1 - pat.len(), j + 1) == pat
}

/// `j` is the first index, other than `skip`, at which `pat` ends.
pub open spec fn first_window(p: Seq<WSC>, pat: Seq<WSC>, skip: Option<int>, j: int) -> bool {
    &&& window_is(p, pat, j)
    &&& skip != Some(j)
    &&& forall|m: int| 0 <= m < j && #[trigger] window_is(p, pat, m) ==> skip == Some(m)
}

/// `pat` ends nowhere in `p` but possibly at `skip`.
pub open spec fn no_window(p: Seq<WSC>, pat: Seq<WSC>, skip: Option<int>) -> bool {
    forall|m: int| #[trigger] window_is(p, pat, m) ==> skip == Some(m)
}

/// A running machine whose next command starts with the symbols `code`.
pub open spec fn at_command(s: MachineState, code: Seq<WSC>) -> bool {
    &&& s.mode == Mode::Running
    &&& well_formed(s)
    &&& s.pc + code.len() <= s.prog.len()
    &&& forall|i: int| 0 <= i < code.len() ==> s.prog[s.pc + i] == #[trigger] code[i]
}

/// How a jump to the label whose argument ends at `e` leaves a machine `u`:
/// just after the first mark of the label, or failed when there is none.
pub open spec fn jumped(u: MachineState, e: int, t: (MachineState, Action)) -> bool {
    let pat = seq![WSC::L, WSC::S, WSC::S] + u.prog.subrange(u.pc + 3, e + 1);
    ||| t.1 == Action::Continue && t.0 == MachineState { pc: t.0.pc, ..u } && first_window(
        u.prog,
        pat,
        None,
        t.0.pc - 1,
    )
    ||| t.1 == Action::Fail(Fault::LabelNotFound) && t.0 == MachineState {
        mode: Mode::Failed(Fault::LabelNotFound),
        ..u
    } && no_window(u.prog, pat, None)
}

/// The first line feed at or after `start` is the one `arg_end` names.
pub proof fn lemma_arg_end(p: Seq<WSC>, start: int, e: int)
    requires
        arg_end(p, start, e),
    ensures
        first_l_from(p, start) == Some(e),
{
    lemma_first_l_from(p, start);
    match first_l_from(p, start) {
        Some(j) => {
            if j < e {
                assert(p[j] != WSC::L);
            } else if j > e {
                assert(p[e] != WSC::L);
            }
        },
        None => {
            assert(p[e] != WSC::L);
        },
    }
}

/// The label search stops at the first window that spells the pattern, and
/// fails only when no window does.
pub proof fn lemma_search_windows(p: Seq<WSC>, pat: Seq<WSC>, skip: Option<int>)
    ensures
        search(p, pat, skip) matches Some(j) ==> first_window(p, pat, skip, j),
        search(p, pat, skip) is None ==> no_window(p, pat, skip),
{
    lemma_search(p, pat, skip, 0);
    if let Some(j) = search(p, pat, skip) {
        assert forall|m: int| 0 <= m < j && #[trigger] window_is(p, pat, m) implies skip == Some(m) by {
            assert(crate::program::matches_at(p, pat, m));
        }
    } else {
        assert forall|m: int| #[trigger] window_is(p, pat, m) implies skip == Some(m) by {
            assert(crate::program::matches_at(p, pat, m));
        }
    }
}

/// A program that begins with a pattern finds it at once.
pub proof fn lemma_search_at_start(p: Seq<WSC>, pat: Seq<WSC>)
    requires
        0 < pat.len() <= p.len(),
        p.subrange(0, pat.len() as int) == pat,
    ensures
        search(p, pat, None) == Some(pat.len() - 1),
{
    lemma_search_windows(p, pat, None);
    assert(window_is(p, pat, pat.len() - 1));
    match search(p, pat, None) {
        Some(j) => {
            if j > pat.len() - 1 {
                assert(None::<int> != Some(pat.len() - 1));
            }
            if j < pat.len() - 1 {
                assert(pat.len() <= j + 1);
            }
        },
        None => {
            assert(None::<int> != Some(pat.len() - 1));
        },
    }
}

/// `LTS l`: a jump if zero pops the top; it jumps only when that value is
/// zero, and otherwise goes on with the next command.
pub proof fn lemma_jump_if_zero(s: MachineState, e: int)
    requires
        at_command(s, seq![WSC::L, WSC::T, WSC::S]),
        arg_end(s.prog, s.pc + 3, e),
    ensures
        s.stack.len() == 0 ==> next(s) == (MachineState { pc: e + 1, ..s }, Action::Continue),
        s.stack.len() > 0 && s.stack.last() != 0 ==> next(s) == (
            MachineState { pc: e + 1, stack: s.stack.drop_last(), ..s },
            Action::Continue,
        ),
        s.stack.len() > 0 && s.stack.last() == 0 ==> jumped(
            MachineState { stack: s.stack.drop_last(), ..s },
            e,
            next(s),
        ),
{
    let code = seq![WSC::L, WSC::T, WSC::S];
    assert(s.prog[s.pc] == code[0] && s.prog[s.pc + 1] == code[1] && s.prog[s.pc + 2] == code[2]);
    lemma_arg_end(s.prog, s.pc + 3, e);
    let pat = seq![WSC::L, WSC::S, WSC::S] + s.prog.subrange(s.pc + 3, e + 1);
    lemma_search_windows(s.prog, pat, None);
}

/// `LTT l`: a jump if negative pops the top; it jumps only when that value is
/// below zero.
pub proof fn lemma_jump_if_negative(s: MachineState, e: int)
    requires
        at_command(s, seq![WSC::L, WSC::T, WSC::T]),
        arg_end(s.prog, s.pc + 3, e),
    ensures
        s.stack.len() == 0 ==> next(s) == (MachineState { pc: e + 1, ..s }, Action::Continue),
        s.stack.len() > 0 && s.stack.last() >= 0 ==> next(s) == (
            MachineState { pc: e + 1, stack: s.stack.drop_last(), ..s },
            Action::Continue,
        ),
        s.stack.len() > 0 && s.stack.last() < 0 ==> jumped(
            MachineState { stack: s.stack.drop_last(), ..s },
            e,
            next(s),
        ),
{
    let code = seq![WSC::L, WSC::T, WSC::T];
    assert(s.prog[s.pc] == code[0] && s.prog[s.pc + 1] == code[1] && s.prog[s.pc + 2] == code[2]);
    lemma_arg_end(s.prog, s.pc + 3, e);
    let pat = seq![WSC::L, WSC::S, WSC::S] + s.prog.subrange(s.pc + 3, e + 1);
    lemma_search_windows(s.prog, pat, None);
}

/// `LSL l`: a jump lands just after the first mark of its label.
pub proof fn lemma_jump(s: MachineState, e: int)
    requires
        at_command(s, seq![WSC::L, WSC::S, WSC::L]),
        arg_end(s.prog, s.pc + 3, e),
    ensures
        jumped(s, e, next(s)),
{
    let code = seq![WSC::L, WSC::S, WSC::L];
    assert(s.prog[s.pc] == code[0] && s.prog[s.pc + 1] == code[1] && s.prog[s.pc + 2] == code[2]);
    lemma_arg_end(s.prog, s.pc + 3, e);
    let pat = seq![WSC::L, WSC::S, WSC::S] + s.prog.subrange(s.pc + 3, e + 1);
    lemma_search_windows(s.prog, pat, None);
}


/// The magnitude of an integer.
pub open spec fn abs(x: int) -> int {
    if x < 0 {
        -x
    } else {
        x
    }
}

/// Integer division that rounds toward zero.
pub open spec fn trunc_quotient(b: int, a: int) -> int {
    let q = abs(b) / abs(a);
    if (b < 0) == (a < 0) {
        q
    } else {
        -q
    }
}

/// How an arithmetic command whose four symbols start at the program counter
/// ends, when its exact result is `r`: `r` replaces the two topmost values if it
/// fits in `i32`, else the machine fails with an overflow.
pub open spec fn arith_outcome(s: MachineState, r: int) -> (MachineState, Action) {
    if i32::MIN <= r <= i32::MAX {
        (
            MachineState { pc: s.pc + 4, stack: s.stack.drop_last().drop_last().push(r as i32), ..s },
            Action::Continue,
        )
    } else {
        (MachineState { mode: Mode::Failed(Fault::Overflow), ..s }, Action::Fail(Fault::Overflow))
    }
}

/// The machine stops with a fault, all else unchanged.
pub open spec fn failed_with(s: MachineState, f: Fault) -> (MachineState, Action) {
    (MachineState { mode: Mode::Failed(f), ..s }, Action::Fail(f))
}

/// With fewer than two values, an arithmetic command does nothing.
pub proof fn lemma_arith_short_stack(s: MachineState, c: WSC, d: WSC)
    requires
        at_command(s, seq![WSC::T, WSC::S, c, d]),
        c != WSC::L,
        !(c == WSC::T && d == WSC::L),
        s.stack.len() < 2,
    ensures
        next(s) == (MachineState { pc: s.pc + 4, ..s }, Action::Continue),
{
    let code = seq![WSC::T, WSC::S, c, d];
    assert(s.prog[s.pc] == code[0] && s.prog[s.pc + 1] == code[1] && s.prog[s.pc + 2] == code[2]
        && s.prog[s.pc + 3] == code[3]);
}

/// `TSSS`: the two topmost values `b` (below) and `a` (top) are replaced by
/// `b + a`.
pub proof fn lemma_add(s: MachineState)
    requires
        at_command(s, seq![WSC::T, WSC::S, WSC::S, WSC::S]),
        s.stack.len() >= 2,
    ensures
        next(s) == arith_outcome(s, s.stack[s.stack.len() - 2] + s.stack.last()),
{
    let code = seq![WSC::T, WSC::S, WSC::S, WSC::S];
    assert(s.prog[s.pc] == code[0] && s.prog[s.pc + 1] == code[1] && s.prog[s.pc + 2] == code[2]
        && s.prog[s.pc + 3] == code[3]);
}

/// `TSST`: `b` and `a` are replaced by `b - a`.
pub proof fn lemma_sub(s: MachineState)
    requires
        at_command(s, seq![WSC::T, WSC::S, WSC::S, WSC::T]),
        s.stack.len() >= 2,
    ensures
        next(s) == arith_outcome(s, s.stack[s.stack.len() - 2] - s.stack.last()),
{
    let code = seq![WSC::T, WSC::S, WSC::S, WSC::T];
    assert(s.prog[s.pc] == code[0] && s.prog[s.pc + 1] == code[1] && s.prog[s.pc + 2] == code[2]
        && s.prog[s.pc + 3] == code[3]);
}

/// `TSSL`: `b` and `a` are replaced by `b * a`.
pub proof fn lemma_mul(s: MachineState)
    requires
        at_command(s, seq![WSC::T, WSC::S, WSC::S, WSC::L]),
        s.stack.len() >= 2,
    ensures
        next(s) == arith_outcome(s, s.stack[s.stack.len() - 2] * s.stack.last()),
{
    let code = seq![WSC::T, WSC::S, WSC::S, WSC::L];
    assert(s.prog[s.pc] == code[0] && s.prog[s.pc + 1] == code[1] && s.prog[s.pc + 2] == code[2]
        && s.prog[s.pc + 3] == code[3]);
}

/// `TSTS`: `b` and `a` are replaced by `b / a` rounded toward zero; dividing by
/// zero fails.
pub proof fn lemma_div(s: MachineState)
    requires
        at_command(s, seq![WSC::T, WSC::S, WSC::T, WSC::S]),
        s.stack.len() >= 2,
    ensures
        s.stack.last() == 0 ==> next(s) == failed_with(s, Fault::DivisionByZero),
        s.stack.last() != 0 ==> next(s) == arith_outcome(
            s,
            trunc_quotient(s.stack[s.stack.len() - 2] as int, s.stack.last() as int),
        ),
{
    let code = seq![WSC::T, WSC::S, WSC::T, WSC::S];
    assert(s.prog[s.pc] == code[0] && s.prog[s.pc + 1] == code[1] && s.prog[s.pc + 2] == code[2]
        && s.prog[s.pc + 3] == code[3]);
}

proof fn lemma_rem_is_trunc(x: int, d: int)
    requires
        d != 0,
    ensures
        (if x == 0 {
            0
        } else if x > 0 && d > 0 {
            x % d
        } else if x < 0 && d < 0 {
            ((x * -1) % (d * -1)) * -1
        } else if x < 0 {
            ((x * -1) % d) * -1
        } else {
            x % (d * -1)
        }) == x - d * trunc_quotient(x, d),
{
    let ax = abs(x);
    let ad = abs(d);
    vstd::arithmetic::div_mod::lemma_fundamental_div_mod(ax, ad);
    let q = ax / ad;
    assert(d * q == -(d * -q)) by (nonlinear_arith);
    assert(-d * q == -(d * q)) by (nonlinear_arith);
}

/// `TSTT`: `b` and `a` are replaced by the remainder `b - a * q`, where `q` is
/// `b / a` rounded toward zero, so the remainder has the sign of `b`; a zero
/// divisor fails, and so does `i32::MIN` by `-1`.
pub proof fn lemma_mod(s: MachineState)
    requires
        at_command(s, seq![WSC::T, WSC::S, WSC::T, WSC::T]),
        s.stack.len() >= 2,
    ensures
        s.stack.last() == 0 ==> next(s) == failed_with(s, Fault::DivisionByZero),
        s.stack.last() == -1 && s.stack[s.stack.len() - 2] == i32::MIN ==> next(s) == failed_with(
            s,
            Fault::Overflow,
        ),
        s.stack.last() != 0 && !(s.stack.last() == -1 && s.stack[s.stack.len() - 2] == i32::MIN)
            ==> next(s) == arith_outcome(
            s,
            s.stack[s.stack.len() - 2] - s.stack.last() * trunc_quotient(
                s.stack[s.stack.len() - 2] as int,
                s.stack.last() as int,
            ),
        ),
{
    let code = seq![WSC::T, WSC::S, WSC::T, WSC::T];
    assert(s.prog[s.pc] == code[0] && s.prog[s.pc + 1] == code[1] && s.prog[s.pc + 2] == code[2]
        && s.prog[s.pc + 3] == code[3]);
    if s.stack.last() != 0 {
        lemma_rem_is_trunc(s.stack[s.stack.len() - 2] as int, s.stack.last() as int);
    }
}

/// Division and remainder agree: `b == a * (b / a) + b % a`, and the remainder
/// is smaller than the divisor in size.
pub proof fn lemma_div_mod_agree(b: int, a: int)
    requires
        a != 0,
    ensures
        b == a * trunc_quotient(b, a) + (b - a * trunc_quotient(b, a)),
        abs(b - a * trunc_quotient(b, a)) < abs(a),
        b - a * trunc_quotient(b, a) == 0 || (b - a * trunc_quotient(b, a) < 0) == (b < 0),
{
    let ax = abs(b);
    let ad = abs(a);
    vstd::arithmetic::div_mod::lemma_fundamental_div_mod(ax, ad);
    vstd::arithmetic::div_mod::lemma_mod_bound(ax, ad);
    let q = ax / ad;
    assert(a * q == -(a * -q)) by (nonlinear_arith);
    assert(-a * q == -(a * q)) by (nonlinear_arith);
}

/// `TLST`: printing a number pops the top and prints it.
pub proof fn lemma_print_number(s: MachineState)
    requires
        at_command(s, seq![WSC::T, WSC::L, WSC::S, WSC::T]),
    ensures
        s.stack.len() > 0 ==> next(s) == (
            MachineState { pc: s.pc + 4, stack: s.stack.drop_last(), ..s },
            Action::PrintNumber(s.stack.last()),
        ),
        s.stack.len() == 0 ==> next(s) == (MachineState { pc: s.pc + 4, ..s }, Action::Continue),
{
    let code = seq![WSC::T, WSC::L, WSC::S, WSC::T];
    assert(s.prog[s.pc] == code[0] && s.prog[s.pc + 1] == code[1] && s.prog[s.pc + 2] == code[2]
        && s.prog[s.pc + 3] == code[3]);
}

proof fn lemma_low_byte(x: i32)
    ensures
        (x as u8) as int == (x as int) % 256,
{
    assert((x as u8) as int == (x as int) % 256) by (bit_vector);
}

/// `TLSS`: printing a character pops the top and prints its low byte.
pub proof fn lemma_print_char(s: MachineState)
    requires
        at_command(s, seq![WSC::T, WSC::L, WSC::S, WSC::S]),
    ensures
        s.stack.len() > 0 ==> next(s).0 == (MachineState {
            pc: s.pc + 4,
            stack: s.stack.drop_last(),
            ..s
        }),
        s.stack.len() > 0 ==> (next(s).1 matches Action::PrintChar(c) && c as int == s.stack.last()
            % 256),
        s.stack.len() == 0 ==> next(s) == (MachineState { pc: s.pc + 4, ..s }, Action::Continue),
{
    let code = seq![WSC::T, WSC::L, WSC::S, WSC::S];
    assert(s.prog[s.pc] == code[0] && s.prog[s.pc + 1] == code[1] && s.prog[s.pc + 2] == code[2]
        && s.prog[s.pc + 3] == code[3]);
    if s.stack.len() > 0 {
        lemma_low_byte(s.stack.last());
    }
}

/// A machine waiting for a character stores any byte but a line feed at the
/// address on top of the stack (popping it) and runs on; a line feed leaves it
/// waiting.
pub proof fn lemma_feed_char(s: MachineState, b: u8)
    requires
        s.mode == Mode::AwaitChar,
    ensures
        b != 10 && s.stack.len() > 0 ==> feed_next(s, Some(b)) == (
            MachineState {
                stack: s.stack.drop_last(),
                heap: s.heap.insert(s.stack.last(), b as i32),
                mode: Mode::Running,
                ..s
            },
            Action::Continue,
        ),
        b != 10 && s.stack.len() == 0 ==> feed_next(s, Some(b)) == (
            MachineState { mode: Mode::Running, ..s },
            Action::Continue,
        ),
        b == 10 ==> feed_next(s, Some(b)) == (s, Action::ReadByte),
        feed_next(s, None) == (s, Action::ReadByte),
{
}


/// `SS n L`: pushing the literal that writes `n` puts `n` on top of the stack.
pub proof fn lemma_push(s: MachineState, e: int, n: int)
    requires
        at_command(s, seq![WSC::S, WSC::S]),
        arg_end(s.prog, s.pc + 2, e),
        s.prog.subrange(s.pc + 2, e + 1) == number_code(n),
        -i32::MAX <= n <= i32::MAX,
    ensures
        next(s) == (MachineState { pc: e + 1, stack: s.stack.push(n as i32), ..s }, Action::Continue),
{
    assert(s.prog[s.pc] == WSC::S && s.prog[s.pc + 1] == WSC::S);
    lemma_arg_end(s.prog, s.pc + 2, e);
    lemma_calc_num_of_code(n);
}

/// A literal whose magnitude exceeds `i32` makes the push fail, and so does a
/// literal without a sign symbol.
pub proof fn lemma_push_faults(s: MachineState, e: int, n: int)
    requires
        at_command(s, seq![WSC::S, WSC::S]),
        arg_end(s.prog, s.pc + 2, e),
    ensures
        e == s.pc + 2 ==> next(s) == failed_with(s, Fault::InvalidNumber),
        s.prog.subrange(s.pc + 2, e + 1) == number_code(n) && abs(n) > i32::MAX ==> next(s)
            == failed_with(s, Fault::Overflow),
{
    assert(s.prog[s.pc] == WSC::S && s.prog[s.pc + 1] == WSC::S);
    lemma_arg_end(s.prog, s.pc + 2, e);
    let c = s.prog.subrange(s.pc + 2, e + 1);
    if c == number_code(n) && abs(n) > i32::MAX {
        let mag: nat = abs(n) as nat;
        let b = binary_digits(mag);
        lemma_binary_digits(mag);
        lemma_first_l_from(c, 1);
        assert(c[b.len() as int + 1] == WSC::L);
        assert forall|k: int| 1 <= k < b.len() + 1 implies c[k] != WSC::L by {
            assert(c[k] == b[k - 1]);
        }
        assert(first_l_from(c, 1) == Some(b.len() as int + 1)) by {
            match first_l_from(c, 1) {
                Some(j) => {
                    assert(j == b.len() as int + 1);
                },
                None => {
                    assert(c[b.len() as int + 1] == WSC::L);
                },
            }
        }
        assert(digits_of(c) =~= b);
    }
}

/// `SLS`: the top is duplicated.
pub proof fn lemma_dup(s: MachineState)
    requires
        at_command(s, seq![WSC::S, WSC::L, WSC::S]),
    ensures
        s.stack.len() > 0 ==> next(s) == (
            MachineState { pc: s.pc + 3, stack: s.stack.push(s.stack.last()), ..s },
            Action::Continue,
        ),
        s.stack.len() == 0 ==> next(s) == (MachineState { pc: s.pc + 3, ..s }, Action::Continue),
{
    assert(s.prog[s.pc] == WSC::S && s.prog[s.pc + 1] == WSC::L && s.prog[s.pc + 2] == WSC::S);
}

/// `SLT`: the two topmost values trade places; everything else stays.
pub proof fn lemma_swap(s: MachineState)
    requires
        at_command(s, seq![WSC::S, WSC::L, WSC::T]),
    ensures
        s.stack.len() >= 2 ==> next(s) == (
            MachineState {
                pc: s.pc + 3,
                stack: s.stack.update(s.stack.len() - 1, s.stack[s.stack.len() - 2]).update(
                    s.stack.len() - 2,
                    s.stack.last(),
                ),
                ..s
            },
            Action::Continue,
        ),
        s.stack.len() < 2 ==> next(s) == (MachineState { pc: s.pc + 3, ..s }, Action::Continue),
{
    assert(s.prog[s.pc] == WSC::S && s.prog[s.pc + 1] == WSC::L && s.prog[s.pc + 2] == WSC::T);
    if s.stack.len() >= 2 {
        let n = s.stack.len();
        assert(s.stack.drop_last().drop_last().push(s.stack.last()).push(s.stack[n - 2])
            =~= s.stack.update(n - 1, s.stack[n - 2]).update(n - 2, s.stack.last()));
    }
}

/// `SLL`: the top is dropped.
pub proof fn lemma_discard(s: MachineState)
    requires
        at_command(s, seq![WSC::S, WSC::L, WSC::L]),
    ensures
        s.stack.len() > 0 ==> next(s) == (
            MachineState { pc: s.pc + 3, stack: s.stack.drop_last(), ..s },
            Action::Continue,
        ),
        s.stack.len() == 0 ==> next(s) == (MachineState { pc: s.pc + 3, ..s }, Action::Continue),
{
    assert(s.prog[s.pc] == WSC::S && s.prog[s.pc + 1] == WSC::L && s.prog[s.pc + 2] == WSC::L);
}

/// `TTS`: the top value is stored at the address below it; both are popped.
pub proof fn lemma_store(s: MachineState)
    requires
        at_command(s, seq![WSC::T, WSC::T, WSC::S]),
    ensures
        s.stack.len() >= 2 ==> next(s) == (
            MachineState {
                pc: s.pc + 3,
                stack: s.stack.subrange(0, s.stack.len() - 2),
                heap: s.heap.insert(s.stack[s.stack.len() - 2], s.stack.last()),
                ..s
            },
            Action::Continue,
        ),
        s.stack.len() < 2 ==> next(s) == (MachineState { pc: s.pc + 3, ..s }, Action::Continue),
{
    assert(s.prog[s.pc] == WSC::T && s.prog[s.pc + 1] == WSC::T && s.prog[s.pc + 2] == WSC::S);
    if s.stack.len() >= 2 {
        assert(s.stack.drop_last().drop_last() =~= s.stack.subrange(0, s.stack.len() - 2));
    }
}

/// `TTT`: the address on top is replaced by the value stored there; an address
/// never written makes the machine fail.
pub proof fn lemma_retrieve(s: MachineState)
    requires
        at_command(s, seq![WSC::T, WSC::T, WSC::T]),
    ensures
        s.stack.len() > 0 && s.heap.contains_key(s.stack.last()) ==> next(s) == (
            MachineState {
                pc: s.pc + 3,
                stack: s.stack.update(s.stack.len() - 1, s.heap[s.stack.last()]),
                ..s
            },
            Action::Continue,
        ),
        s.stack.len() > 0 && !s.heap.contains_key(s.stack.last()) ==> next(s) == failed_with(
            s,
            Fault::UnknownAddress(s.stack.last()),
        ),
        s.stack.len() == 0 ==> next(s) == (MachineState { pc: s.pc + 3, ..s }, Action::Continue),
{
    assert(s.prog[s.pc] == WSC::T && s.prog[s.pc + 1] == WSC::T && s.prog[s.pc + 2] == WSC::T);
    if s.stack.len() > 0 && s.heap.contains_key(s.stack.last()) {
        assert(s.stack.drop_last().push(s.heap[s.stack.last()]) =~= s.stack.update(
            s.stack.len() - 1,
            s.heap[s.stack.last()],
        ));
    }
}

/// `TLTS` and `TLTT`: reading a character or a number moves past the command
/// and waits for input.
pub proof fn lemma_read_commands(s: MachineState, c: WSC)
    requires
        at_command(s, seq![WSC::T, WSC::L, WSC::T, c]),
        c != WSC::L,
    ensures
        c == WSC::S ==> next(s) == (
            MachineState { pc: s.pc + 4, mode: Mode::AwaitChar, ..s },
            Action::ReadByte,
        ),
        c == WSC::T ==> next(s) == (
            MachineState {
                pc: s.pc + 4,
                mode: Mode::AwaitNumber,
                digits: Seq::empty(),
                seen_digit: false,
                negative: false,
                ..s
            },
            Action::ReadByte,
        ),
{
    let code = seq![WSC::T, WSC::L, WSC::T, c];
    assert(s.prog[s.pc] == code[0] && s.prog[s.pc + 1] == code[1] && s.prog[s.pc + 2] == code[2]
        && s.prog[s.pc + 3] == code[3]);
}

/// `LSS l`: a mark does nothing but move past itself.
pub proof fn lemma_mark(s: MachineState, e: int)
    requires
        at_command(s, seq![WSC::L, WSC::S, WSC::S]),
        arg_end(s.prog, s.pc + 3, e),
    ensures
        next(s) == (MachineState { pc: e + 1, ..s }, Action::Continue),
{
    assert(s.prog[s.pc] == WSC::L && s.prog[s.pc + 1] == WSC::S && s.prog[s.pc + 2] == WSC::S);
    lemma_arg_end(s.prog, s.pc + 3, e);
}

/// `LST l`: a call remembers where its label ends and lands just after the
/// first other place where the symbols of its label (with their line feed)
/// end; it fails when there is no such place.
pub proof fn lemma_call(s: MachineState, e: int)
    requires
        at_command(s, seq![WSC::L, WSC::S, WSC::T]),
        arg_end(s.prog, s.pc + 3, e),
    ensures
        next(s).1 == Action::Continue ==> next(s).0 == (MachineState {
            pc: next(s).0.pc,
            calls: s.calls.push(e as usize),
            ..s
        }) && first_window(s.prog, s.prog.subrange(s.pc + 3, e + 1), Some(e), next(s).0.pc - 1),
        next(s).1 != Action::Continue ==> next(s) == failed_with(s, Fault::LabelNotFound)
            && no_window(s.prog, s.prog.subrange(s.pc + 3, e + 1), Some(e)),
{
    assert(s.prog[s.pc] == WSC::L && s.prog[s.pc + 1] == WSC::S && s.prog[s.pc + 2] == WSC::T);
    lemma_arg_end(s.prog, s.pc + 3, e);
    lemma_search_windows(s.prog, s.prog.subrange(s.pc + 3, e + 1), Some(e));
}

/// `LTL`: a return goes to just after the last remembered call and forgets it;
/// with no call to return to, the machine fails.
pub proof fn lemma_return(s: MachineState)
    requires
        at_command(s, seq![WSC::L, WSC::T, WSC::L]),
    ensures
        s.calls.len() > 0 ==> next(s) == (
            MachineState {
                pc: s.calls.last() + 1,
                calls: s.calls.subrange(0, s.calls.len() - 1),
                ..s
            },
            Action::Continue,
        ),
        s.calls.len() == 0 ==> next(s) == failed_with(s, Fault::EmptyCallStack),
{
    assert(s.prog[s.pc] == WSC::L && s.prog[s.pc + 1] == WSC::T && s.prog[s.pc + 2] == WSC::L);
}

/// `LLL`, and running off the end of the program, halt.
pub proof fn lemma_end(s: MachineState)
    requires
        s.mode == Mode::Running,
        well_formed(s),
        s.pc == s.prog.len() || at_command(s, seq![WSC::L, WSC::L, WSC::L]),
    ensures
        next(s) == (MachineState { mode: Mode::Halted, ..s }, Action::Halt),
{
    if s.pc < s.prog.len() {
        assert(s.prog[s.pc] == WSC::L && s.prog[s.pc + 1] == WSC::L && s.prog[s.pc + 2]
            == WSC::L);
    }
}

/// The prefixes that begin no command make the machine fail, naming the
/// symbols read.
pub proof fn lemma_invalid(s: MachineState, code: Seq<WSC>)
    requires
        at_command(s, code),
        code == seq![WSC::S, WSC::T] || code == seq![WSC::T, WSC::S, WSC::T, WSC::L] || code
            == seq![WSC::T, WSC::S, WSC::L] || code == seq![WSC::T, WSC::T, WSC::L] || code
            == seq![WSC::T, WSC::L, WSC::S, WSC::L] || code == seq![WSC::T, WSC::L, WSC::T, WSC::L]
            || code == seq![WSC::T, WSC::L, WSC::L] || code == seq![WSC::L, WSC::L, WSC::S] || code
            == seq![WSC::L, WSC::L, WSC::T],
    ensures
        next(s) == failed_with(
            s,
            Fault::InvalidCommand { start: s.pc as usize, end: (s.pc + code.len() - 1) as usize },
        ),
{
    assert(s.prog[s.pc] == code[0] && s.prog[s.pc + 1] == code[1]);
    if code.len() > 2 {
        assert(s.prog[s.pc + 2] == code[2]);
    }
    if code.len() > 3 {
        assert(s.prog[s.pc + 3] == code[3]);
    }
}

/// A last symbol that begins a command stops the machine as truncated, and so
/// does a number or label with no line feed after it.
pub proof fn lemma_truncated(s: MachineState, code: Seq<WSC>)
    requires
        at_command(s, code),
        code == seq![WSC::S, WSC::S] || code == seq![WSC::L, WSC::S, WSC::S] || code == seq![
            WSC::L,
            WSC::S,
            WSC::T,
        ] || code == seq![WSC::L, WSC::S, WSC::L] || code == seq![WSC::L, WSC::T, WSC::S] || code
            == seq![WSC::L, WSC::T, WSC::T],
        forall|k: int| s.pc + code.len() <= k < s.prog.len() ==> s.prog[k] != WSC::L,
    ensures
        next(s) == failed_with(s, Fault::Truncated),
{
    assert(s.prog[s.pc] == code[0] && s.prog[s.pc + 1] == code[1]);
    if code.len() > 2 {
        assert(s.prog[s.pc + 2] == code[2]);
    }
    lemma_first_l_from(s.prog, s.pc + code.len());
}

/// A single symbol at the very end begins no complete command.
pub proof fn lemma_last_symbol_truncated(s: MachineState)
    requires
        s.mode == Mode::Running,
        well_formed(s),
        s.pc == s.prog.len() - 1,
    ensures
        next(s) == failed_with(s, Fault::Truncated),
{
}

/// The decimal digits of a natural number, most significant first.
pub open spec fn decimal_digits(n: nat) -> Seq<u8>
    decreases n,
{
    if n == 0 {
        Seq::empty()
    } else {
        decimal_digits(n / 10).push((n % 10) as u8)
    }
}

/// The digits of a number are worth that number.
pub proof fn lemma_decimal_of_digits(n: nat)
    ensures
        decimal_value(decimal_digits(n)) == n,
    decreases n,
{
    if n > 0 {
        lemma_decimal_of_digits(n / 10);
        assert(decimal_digits(n).drop_last() =~= decimal_digits(n / 10));
    }
}

/// A machine reading a number collects digits, takes a leading minus sign,
/// skips separators before the first digit, ends the number at the first
/// separator after a digit (storing the signed value at the address on top of
/// the stack, or failing when it exceeds `i32`), and fails on any other byte.
pub proof fn lemma_feed_number(s: MachineState, b: u8)
    requires
        s.mode == Mode::AwaitNumber,
    ensures
        48 <= b <= 57 ==> feed_next(s, Some(b)) == (
            MachineState { digits: s.digits.push((b - 48) as u8), seen_digit: true, ..s },
            Action::ReadByte,
        ),
        b == 45 && !s.seen_digit ==> feed_next(s, Some(b)) == (
            MachineState { negative: true, ..s },
            Action::ReadByte,
        ),
        (b == 32 || b == 10) && !s.seen_digit ==> feed_next(s, Some(b)) == (s, Action::ReadByte),
        (b == 32 || b == 10) && s.seen_digit && decimal_value(s.digits) > i32::MAX ==> feed_next(
            s,
            Some(b),
        ) == failed_with(s, Fault::Overflow),
        (b == 32 || b == 10) && s.seen_digit && decimal_value(s.digits) <= i32::MAX
            && s.stack.len() > 0 ==> feed_next(s, Some(b)) == (
            MachineState {
                stack: s.stack.drop_last(),
                heap: s.heap.insert(
                    s.stack.last(),
                    (if s.negative {
                        -decimal_value(s.digits)
                    } else {
                        decimal_value(s.digits)
                    }) as i32,
                ),
                mode: Mode::Running,
                ..s
            },
            Action::Continue,
        ),
        (b == 32 || b == 10) && s.seen_digit && decimal_value(s.digits) <= i32::MAX
            && s.stack.len() == 0 ==> feed_next(s, Some(b)) == (
            MachineState { mode: Mode::Running, ..s },
            Action::Continue,
        ),
        !(48 <= b <= 57) && !(b == 32 || b == 10) && !(b == 45 && !s.seen_digit) ==> feed_next(
            s,
            Some(b),
        ) == failed_with(s, Fault::NotANumber(b)),
        feed_next(s, None) == (s, Action::ReadByte),
{
}

} // verus!
