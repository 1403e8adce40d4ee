use vstd::prelude::*;

use crate::fault::Fault;
use crate::number::{first_l_from, lemma_first_l_from};
use crate::token::WSC;

verus! {

/// The commands of the language.
#[derive(Debug, PartialEq, Eq, Structural, Clone, Copy)]
pub enum Instr {
    /// `SS n`: push the number `n`.
    Push,
    /// `SLS`: push a copy of the top of the stack.
    Dup,
    /// `SLT`: swap the two topmost values.
    Swap,
    /// `SLL`: drop the top of the stack.
    Discard,
    /// `TSSS`: addition.
    Add,
    /// `TSST`: subtraction.
    Sub,
    /// `TSSL`: multiplication.
    Mul,
    /// `TSTS`: integer division.
    Div,
    /// `TSTT`: remainder.
    Mod,
    /// `TTS`: store a value at a heap address.
    Store,
    /// `TTT`: push the value stored at a heap address.
    Retrieve,
    /// `TLSS`: print the top of the stack as a character.
    PrintChar,
    /// `TLST`: print the top of the stack as a number.
    PrintNumber,
    /// `TLTS`: read a character into a heap address.
    ReadChar,
    /// `TLTT`: read a number into a heap address.
    ReadNumber,
    /// `LSS l`: mark a place with the label `l`.
    Mark,
    /// `LST l`: call the subroutine at the label `l`.
    Call,
    /// `LSL l`: jump to the label `l`.
    Jump,
    /// `LTS l`: jump to the label `l` if the top of the stack is zero.
    JumpIfZero,
    /// `LTT l`: jump to the label `l` if the top of the stack is negative.
    JumpIfNegative,
    /// `LTL`: return from a subroutine.
    Return,
    /// `LLL`: end the program.
    End,
}

/// A command found in a program: which command, where its argument (a number
/// or a label, ended by a line feed) starts, and the index of its last symbol.
/// A command without argument has `arg == last + 1`.
#[derive(Debug, PartialEq, Eq, Structural, Clone, Copy)]
pub struct Decoded {
    pub instr: Instr,
    pub arg: usize,
    pub last: usize,
}

/// The symbol at index `i`, if `i` is inside the program.
pub open spec fn sym(p: Seq<WSC>, i: int) -> Option<WSC> {
    if 0 <= i < p.len() {
        Some(p[i])
    } else {
        None
    }
}

/// A command of `n + 1` symbols starting at `pc`, without argument.
pub open spec fn plain(instr: Instr, pc: int, n: int) -> Result<Decoded, Fault> {
    Ok(Decoded { instr, arg: (pc + n + 1) as usize, last: (pc + n) as usize })
}

/// A command whose argument starts at `start` and ends at the next line feed.
pub open spec fn with_arg(p: Seq<WSC>, instr: Instr, start: int) -> Result<Decoded, Fault> {
    match first_l_from(p, start) {
        Some(e) => Ok(Decoded { instr, arg: start as usize, last: e as usize }),
        None => Err(Fault::Truncated),
    }
}

/// The symbols from `pc` to `pc + n` begin no command.
pub open spec fn invalid(pc: int, n: int) -> Result<Decoded, Fault> {
    Err(Fault::InvalidCommand { start: pc as usize, end: (pc + n) as usize })
}

/// The command that starts at `pc`.
pub open spec fn spec_decode(p: Seq<WSC>, pc: int) -> Result<Decoded, Fault> {
    match sym(p, pc) {
        None => Err(Fault::Truncated),
        Some(WSC::S) => match sym(p, pc + 1) {
            None => Err(Fault::Truncated),
            Some(WSC::S) => with_arg(p, Instr::Push, pc + 2),
            Some(WSC::T) => invalid(pc, 1),
            Some(WSC::L) => match sym(p, pc + 2) {
                None => Err(Fault::Truncated),
                Some(WSC::S) => plain(Instr::Dup, pc, 2),
                Some(WSC::T) => plain(Instr::Swap, pc, 2),
                Some(WSC::L) => plain(Instr::Discard, pc, 2),
            },
        },
        Some(WSC::T) => match sym(p, pc + 1) {
            None => Err(Fault::Truncated),
            Some(WSC::S) => match sym(p, pc + 2) {
                None => Err(Fault::Truncated),
                Some(WSC::S) => match sym(p, pc + 3) {
                    None => Err(Fault::Truncated),
                    Some(WSC::S) => plain(Instr::Add, pc, 3),
                    Some(WSC::T) => plain(Instr::Sub, pc, 3),
                    Some(WSC::L) => plain(Instr::Mul, pc, 3),
                },
                Some(WSC::T) => match sym(p, pc + 3) {
                    None => Err(Fault::Truncated),
                    Some(WSC::S) => plain(Instr::Div, pc, 3),
                    Some(WSC::T) => plain(Instr::Mod, pc, 3),
                    Some(WSC::L) => invalid(pc, 3),
                },
                Some(WSC::L) => invalid(pc, 2),
            },
            Some(WSC::T) => match sym(p, pc + 2) {
                None => Err(Fault::Truncated),
                Some(WSC::S) => plain(Instr::Store, pc, 2),
                Some(WSC::T) => plain(Instr::Retrieve, pc, 2),
                Some(WSC::L) => invalid(pc, 2),
            },
            Some(WSC::L) => match sym(p, pc + 2) {
                None => Err(Fault::Truncated),
                Some(WSC::S) => match sym(p, pc + 3) {
                    None => Err(Fault::Truncated),
                    Some(WSC::S) => plain(Instr::PrintChar, pc, 3),
                    Some(WSC::T) => plain(Instr::PrintNumber, pc, 3),
                    Some(WSC::L) => invalid(pc, 3),
                },
                Some(WSC::T) => match sym(p, pc + 3) {
                    None => Err(Fault::Truncated),
                    Some(WSC::S) => plain(Instr::ReadChar, pc, 3),
                    Some(WSC::T) => plain(Instr::ReadNumber, pc, 3),
                    Some(WSC::L) => invalid(pc, 3),
                },
                Some(WSC::L) => invalid(pc, 2),
            },
        },
        Some(WSC::L) => match sym(p, pc + 1) {
            None => Err(Fault::Truncated),
            Some(WSC::S) => match sym(p, pc + 2) {
                None => Err(Fault::Truncated),
                Some(WSC::S) => with_arg(p, Instr::Mark, pc + 3),
                Some(WSC::T) => with_arg(p, Instr::Call, pc + 3),
                Some(WSC::L) => with_arg(p, Instr::Jump, pc + 3),
            },
            Some(WSC::T) => match sym(p, pc + 2) {
                None => Err(Fault::Truncated),
                Some(WSC::S) => with_arg(p, Instr::JumpIfZero, pc + 3),
                Some(WSC::T) => with_arg(p, Instr::JumpIfNegative, pc + 3),
                Some(WSC::L) => plain(Instr::Return, pc, 2),
            },
            Some(WSC::L) => match sym(p, pc + 2) {
                None => Err(Fault::Truncated),
                Some(WSC::S) => invalid(pc, 2),
                Some(WSC::T) => invalid(pc, 2),
                Some(WSC::L) => plain(Instr::End, pc, 2),
            },
        },
    }
}

/// A decoded command lies inside the program, after its start.
pub proof fn lemma_decode_bounds(p: Seq<WSC>, pc: int)
    requires
        0 <= pc < p.len(),
        p.len() <= usize::MAX,
    ensures
        spec_decode(p, pc) matches Ok(d) ==> pc < d.arg <= d.last + 1 && d.last < p.len()
            && (d.arg <= d.last ==> p[d.last as int] == WSC::L),
{
    lemma_first_l_from(p, pc + 2);
    lemma_first_l_from(p, pc + 3);
}

/// The index of the first line feed at or after `start`.
pub fn find_line_feed(prog: &Vec<WSC>, start: usize) -> (r: Option<usize>)
    ensures
        match r {
            Some(j) => first_l_from(prog@, start as int) == Some(j as int),
            None => first_l_from(prog@, start as int) is None,
        },
{
    let mut k = start;
    while k < prog.len() && prog[k] != WSC::L
        invariant
            start <= k,
            first_l_from(prog@, start as int) == first_l_from(prog@, k as int),
        decreases prog.len() - k,
    {
        k += 1;
    }
    if k < prog.len() {
        Some(k)
    } else {
        None
    }
}

fn sym_at(prog: &Vec<WSC>, i: usize) -> (r: Option<WSC>)
    ensures
        r == sym(prog@, i as int),
{
    if i < prog.len() {
        Some(prog[i])
    } else {
        None
    }
}

fn exec_plain(instr: Instr, pc: usize, n: usize) -> (r: Result<Decoded, Fault>)
    requires
        pc + n + 1 <= usize::MAX,
    ensures
        r == plain(instr, pc as int, n as int),
{
    Ok(Decoded { instr, arg: pc + n + 1, last: pc + n })
}

fn exec_with_arg(prog: &Vec<WSC>, instr: Instr, start: usize) -> (r: Result<Decoded, Fault>)
    ensures
        r == with_arg(prog@, instr, start as int),
{
    match find_line_feed(prog, start) {
        Some(e) => Ok(Decoded { instr, arg: start, last: e }),
        None => Err(Fault::Truncated),
    }
}

fn exec_invalid(pc: usize, n: usize) -> (r: Result<Decoded, Fault>)
    requires
        pc + n <= usize::MAX,
    ensures
        r == invalid(pc as int, n as int),
{
    Err(Fault::InvalidCommand { start: pc, end: pc + n })
}

/// Reads the command that starts at `pc`: its kind, where its argument lies,
/// and where it ends; or why no command starts there.
pub fn decode(prog: &Vec<WSC>, pc: usize) -> (r: Result<Decoded, Fault>)
    requires
        pc < prog.len(),
    ensures
        r == spec_decode(prog@, pc as int),
{
    match sym_at(prog, pc) {
        None => Err(Fault::Truncated),
        Some(WSC::S) => match sym_at(prog, pc + 1) {
            None => Err(Fault::Truncated),
            Some(WSC::S) => exec_with_arg(prog, Instr::Push, pc + 2),
            Some(WSC::T) => exec_invalid(pc, 1),
            Some(WSC::L) => match sym_at(prog, pc + 2) {
                None => Err(Fault::Truncated),
                Some(WSC::S) => exec_plain(Instr::Dup, pc, 2),
                Some(WSC::T) => exec_plain(Instr::Swap, pc, 2),
                Some(WSC::L) => exec_plain(Instr::Discard, pc, 2),
            },
        },
        Some(WSC::T) => match sym_at(prog, pc + 1) {
            None => Err(Fault::Truncated),
            Some(WSC::S) => match sym_at(prog, pc + 2) {
                None => Err(Fault::Truncated),
                Some(WSC::S) => match sym_at(prog, pc + 3) {
                    None => Err(Fault::Truncated),
                    Some(WSC::S) => exec_plain(Instr::Add, pc, 3),
                    Some(WSC::T) => exec_plain(Instr::Sub, pc, 3),
                    Some(WSC::L) => exec_plain(Instr::Mul, pc, 3),
                },
                Some(WSC::T) => match sym_at(prog, pc + 3) {
                    None => Err(Fault::Truncated),
                    Some(WSC::S) => exec_plain(Instr::Div, pc, 3),
                    Some(WSC::T) => exec_plain(Instr::Mod, pc, 3),
                    Some(WSC::L) => exec_invalid(pc, 3),
                },
                Some(WSC::L) => exec_invalid(pc, 2),
            },
            Some(WSC::T) => match sym_at(prog, pc + 2) {
                None => Err(Fault::Truncated),
                Some(WSC::S) => exec_plain(Instr::Store, pc, 2),
                Some(WSC::T) => exec_plain(Instr::Retrieve, pc, 2),
                Some(WSC::L) => exec_invalid(pc, 2),
            },
            Some(WSC::L) => match sym_at(prog, pc + 2) {
                None => Err(Fault::Truncated),
                Some(WSC::S) => match sym_at(prog, pc + 3) {
                    None => Err(Fault::Truncated),
                    Some(WSC::S) => exec_plain(Instr::PrintChar, pc, 3),
                    Some(WSC::T) => exec_plain(Instr::PrintNumber, pc, 3),
                    Some(WSC::L) => exec_invalid(pc, 3),
                },
                Some(WSC::T) => match sym_at(prog, pc + 3) {
                    None => Err(Fault::Truncated),
                    Some(WSC::S) => exec_plain(Instr::ReadChar, pc, 3),
                    Some(WSC::T) => exec_plain(Instr::ReadNumber, pc, 3),
                    Some(WSC::L) => exec_invalid(pc, 3),
                },
                Some(WSC::L) => exec_invalid(pc, 2),
            },
        },
        Some(WSC::L) => match sym_at(prog, pc + 1) {
            None => Err(Fault::Truncated),
            Some(WSC::S) => match sym_at(prog, pc + 2) {
                None => Err(Fault::Truncated),
                Some(WSC::S) => exec_with_arg(prog, Instr::Mark, pc + 3),
                Some(WSC::T) => exec_with_arg(prog, Instr::Call, pc + 3),
                Some(WSC::L) => exec_with_arg(prog, Instr::Jump, pc + 3),
            },
            Some(WSC::T) => match sym_at(prog, pc + 2) {
                None => Err(Fault::Truncated),
                Some(WSC::S) => exec_with_arg(prog, Instr::JumpIfZero, pc + 3),
                Some(WSC::T) => exec_with_arg(prog, Instr::JumpIfNegative, pc + 3),
                Some(WSC::L) => exec_plain(Instr::Return, pc, 2),
            },
            Some(WSC::L) => match sym_at(prog, pc + 2) {
                None => Err(Fault::Truncated),
                Some(WSC::S) => exec_invalid(pc, 2),
                Some(WSC::T) => exec_invalid(pc, 2),
                Some(WSC::L) => exec_plain(Instr::End, pc, 2),
            },
        },
    }
}


/// The window of symbols ending at index `j` spells `pat`.
pub open spec fn matches_at(p: Seq<WSC>, pat: Seq<WSC>, j: int) -> bool {
    &&& 0 <= j < p.len()
    &&& pat.len() <= j + 1
    &&& p.subrange(j + 1 - pat.len(), j + 1) == pat
}

/// The first index at or after `j`, other than `skip`, at which a window
/// spelling `pat` ends.
pub open spec fn search_from(p: Seq<WSC>, pat: Seq<WSC>, skip: Option<int>, j: int) -> Option<int>
    decreases p.len() - j,
{
    if j < 0 || j >= p.len() {
        None
    } else if matches_at(p, pat, j) && skip != Some(j) {
        Some(j)
    } else {
        search_from(p, pat, skip, j + 1)
    }
}

/// The first index, other than `skip`, at which a window spelling `pat` ends.
pub open spec fn search(p: Seq<WSC>, pat: Seq<WSC>, skip: Option<int>) -> Option<int> {
    search_from(p, pat, skip, 0)
}

/// A usize index read as an integer one.
pub open spec fn opt_int(o: Option<usize>) -> Option<int> {
    match o {
        Some(j) => Some(j as int),
        None => None,
    }
}

/// `search` finds the first eligible occurrence of the pattern, and finds none
/// only when there is none.
pub proof fn lemma_search(p: Seq<WSC>, pat: Seq<WSC>, skip: Option<int>, j: int)
    requires
        0 <= j,
    ensures
        search_from(p, pat, skip, j) matches Some(k) ==> j <= k && matches_at(p, pat, k) && skip
            != Some(k) && forall|m: int| j <= m < k && matches_at(p, pat, m) ==> skip == Some(m),
        search_from(p, pat, skip, j) is None ==> forall|m: int|
            j <= m && #[trigger] matches_at(p, pat, m) ==> skip == Some(m),
    decreases p.len() - j,
{
    if j < p.len() {
        lemma_search(p, pat, skip, j + 1);
    }
}

/// Whether the window ending at `j` spells `pat`.
pub fn window_matches(prog: &Vec<WSC>, pat: &Vec<WSC>, j: usize) -> (r: bool)
    requires
        j < prog.len(),
    ensures
        r == matches_at(prog@, pat@, j as int),
        r == (pat@.len() <= j + 1 && prog@.subrange(j + 1 - pat@.len(), j + 1) == pat@),
{
    if pat.len() > j + 1 {
        return false;
    }
    let base = j + 1 - pat.len();
    let mut t: usize = 0;
    while t < pat.len()
        invariant
            base + pat.len() == j + 1,
            j < prog.len(),
            t <= pat.len(),
            forall|m: int| 0 <= m < t ==> prog@[base + m] == pat@[m],
        decreases pat.len() - t,
    {
        if prog[base + t] != pat[t] {
            assert(prog@.subrange(base as int, j + 1)[t as int] != pat@[t as int]);
            return false;
        }
        t += 1;
    }
    assert(prog@.subrange(base as int, j + 1) =~= pat@);
    true
}

/// The end of the first window, other than the one ending at `skip`, that
/// spells `pat`: where a jump or call to a label lands.
pub fn find_label(prog: &Vec<WSC>, pat: &Vec<WSC>, skip: Option<usize>) -> (r: Option<usize>)
    ensures
        opt_int(r) == search(prog@, pat@, opt_int(skip)),
        r matches Some(j) ==> j < prog@.len() && pat@.len() <= j + 1 && prog@.subrange(
            j + 1 - pat@.len(),
            j + 1,
        ) == pat@ && skip != Some(j),
        r matches Some(j) ==> forall|m: int|
            0 <= m < j && pat@.len() <= m + 1 && #[trigger] prog@.subrange(m + 1 - pat@.len(), m + 1)
                == pat@ ==> opt_int(skip) == Some(m),
        r is None ==> forall|m: int|
            0 <= m < prog@.len() && pat@.len() <= m + 1 && #[trigger] prog@.subrange(
                m + 1 - pat@.len(),
                m + 1,
            ) == pat@ ==> opt_int(skip) == Some(m),
{
    let mut j: usize = 0;
    while j < prog.len()
        invariant
            j <= prog.len(),
            search(prog@, pat@, opt_int(skip)) == search_from(prog@, pat@, opt_int(skip), j as int),
        decreases prog.len() - j,
    {
        if window_matches(prog, pat, j) && skip != Some(j) {
            proof {
                lemma_search(prog@, pat@, opt_int(skip), 0);
                assert forall|m: int|
                    0 <= m < j && pat@.len() <= m + 1 && #[trigger] prog@.subrange(
                        m + 1 - pat@.len(),
                        m + 1,
                    ) == pat@ implies opt_int(skip) == Some(m) by {
                    assert(matches_at(prog@, pat@, m));
                }
            }
            return Some(j);
        }
        j += 1;
    }
    proof {
        lemma_search(prog@, pat@, opt_int(skip), 0);
        assert forall|m: int|
            0 <= m < prog@.len() && pat@.len() <= m + 1 && #[trigger] prog@.subrange(
                m + 1 - pat@.len(),
                m + 1,
            ) == pat@ implies opt_int(skip) == Some(m) by {
            assert(matches_at(prog@, pat@, m));
        }
    }
    None
}

/// The symbols from `from` up to and including `to`.
pub fn copy_range(prog: &Vec<WSC>, from: usize, to: usize, out: &mut Vec<WSC>)
    requires
        from <= to + 1,
        to < prog.len(),
    ensures
        final(out)@ == old(out)@ + prog@.subrange(from as int, to + 1),
{
    let mut k = from;
    while k <= to
        invariant
            from <= k <= to + 1,
            to < prog.len(),
            out@ == old(out)@ + prog@.subrange(from as int, k as int),
        decreases to + 1 - k,
    {
        out.push(prog[k]);
        assert(prog@.subrange(from as int, k + 1) =~= prog@.subrange(from as int, k as int).push(
            prog@[k as int],
        ));
        k += 1;
    }
}

} // verus!
