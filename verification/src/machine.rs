use std::collections::HashMap;
use vstd::prelude::*;

use crate::fault::Fault;
use crate::number::{
    checked_calc_num, decimal_from_digits, decimal_value, lemma_decimal_nonneg, literal_result,
};
use crate::program::{
    copy_range, decode, find_label, lemma_decode_bounds, lemma_search, opt_int, search,
    spec_decode, Decoded, Instr,
};
use crate::token::WSC;

verus! {

/// What the machine is doing.
#[derive(Debug, PartialEq, Eq, Structural, Clone, Copy)]
pub enum Mode {
    /// Executing commands.
    Running,
    /// Waiting for a byte to store as a character.
    AwaitChar,
    /// Waiting for the bytes of a decimal number.
    AwaitNumber,
    /// Stopped normally.
    Halted,
    /// Stopped abnormally.
    Failed(Fault),
}

/// What the surroundings must do after a step.
#[derive(Debug, PartialEq, Eq, Structural, Clone, Copy)]
pub enum Action {
    /// Nothing; the machine can step again.
    Continue,
    /// Print this byte as a character.
    PrintChar(u8),
    /// Print this number in decimal.
    PrintNumber(i32),
    /// Read one byte of input and hand it to `feed`.
    ReadByte,
    /// The program has ended.
    Halt,
    /// The program has stopped abnormally.
    Fail(Fault),
}

/// The whole state of the machine as mathematical values.
#[verifier::ext_equal]
pub struct MachineState {
    pub prog: Seq<WSC>,
    pub pc: int,
    pub stack: Seq<i32>,
    pub heap: Map<i32, i32>,
    pub calls: Seq<usize>,
    pub mode: Mode,
    pub digits: Seq<u8>,
    pub seen_digit: bool,
    pub negative: bool,
}

/// The program counter lies within the program (or just past it), and every
/// return address points into the program.
pub open spec fn well_formed(s: MachineState) -> bool {
    &&& 0 <= s.pc <= s.prog.len() <= usize::MAX
    &&& forall|i: int| 0 <= i < s.calls.len() ==> s.calls[i] < s.prog.len()
}

/// A fresh machine for a program.
pub open spec fn initial(prog: Seq<WSC>) -> MachineState {
    MachineState {
        prog,
        pc: 0,
        stack: Seq::empty(),
        heap: Map::empty(),
        calls: Seq::empty(),
        mode: Mode::Running,
        digits: Seq::empty(),
        seen_digit: false,
        negative: false,
    }
}

/// Stop abnormally.
pub open spec fn fail(s: MachineState, f: Fault) -> (MachineState, Action) {
    (MachineState { mode: Mode::Failed(f), ..s }, Action::Fail(f))
}

/// Go on at `pc`.
pub open spec fn continue_at(s: MachineState, pc: int) -> (MachineState, Action) {
    (MachineState { pc, ..s }, Action::Continue)
}

/// The result of an arithmetic command on the second value `b` and the top
/// value `a`.
pub open spec fn arith(instr: Instr, b: i32, a: i32) -> Result<i32, Fault> {
    match instr {
        Instr::Add => if i32::MIN <= b + a <= i32::MAX {
            Ok((b + a) as i32)
        } else {
            Err(Fault::Overflow)
        },
        Instr::Sub => if i32::MIN <= b - a <= i32::MAX {
            Ok((b - a) as i32)
        } else {
            Err(Fault::Overflow)
        },
        Instr::Mul => if i32::MIN <= b * a <= i32::MAX {
            Ok((b * a) as i32)
        } else {
            Err(Fault::Overflow)
        },
        Instr::Div => if a == 0 {
            Err(Fault::DivisionByZero)
        } else {
            match b.checked_div(a) {
                Some(q) => Ok(q),
                None => Err(Fault::Overflow),
            }
        },
        _ => if a == 0 {
            Err(Fault::DivisionByZero)
        } else {
            match b.checked_rem(a) {
                Some(m) => Ok(m),
                None => Err(Fault::Overflow),
            }
        },
    }
}

/// The argument of a decoded command: its symbols up to and including the
/// line feed that ends it.
pub open spec fn arg_of(s: MachineState, d: Decoded) -> Seq<WSC> {
    s.prog.subrange(d.arg as int, d.last + 1)
}

/// The symbols that mark the place a jump to a label lands after.
pub open spec fn mark_pattern(label: Seq<WSC>) -> Seq<WSC> {
    seq![WSC::L, WSC::S, WSC::S] + label
}

/// Jump to just after the first mark of the command's label.
pub open spec fn jump(s: MachineState, d: Decoded) -> (MachineState, Action) {
    match search(s.prog, mark_pattern(arg_of(s, d)), None) {
        Some(j) => continue_at(s, j + 1),
        None => fail(s, Fault::LabelNotFound),
    }
}

/// The effect of a decoded command.
pub open spec fn execute(s: MachineState, d: Decoded) -> (MachineState, Action) {
    let next = d.last + 1;
    let st = s.stack;
    let n = st.len();
    match d.instr {
        Instr::Push => match literal_result(arg_of(s, d)) {
            Ok(v) => continue_at(MachineState { stack: st.push(v), ..s }, next),
            Err(f) => fail(s, f),
        },
        Instr::Dup => if n > 0 {
            continue_at(MachineState { stack: st.push(st.last()), ..s }, next)
        } else {
            continue_at(s, next)
        },
        Instr::Swap => if n >= 2 {
            continue_at(
                MachineState { stack: st.drop_last().drop_last().push(st.last()).push(st[n - 2]), ..s },
                next,
            )
        } else {
            continue_at(s, next)
        },
        Instr::Discard => if n > 0 {
            continue_at(MachineState { stack: st.drop_last(), ..s }, next)
        } else {
            continue_at(s, next)
        },
        Instr::Add | Instr::Sub | Instr::Mul | Instr::Div | Instr::Mod => if n >= 2 {
            match arith(d.instr, st[n - 2], st.last()) {
                Ok(r) => continue_at(
                    MachineState { stack: st.drop_last().drop_last().push(r), ..s },
                    next,
                ),
                Err(f) => fail(s, f),
            }
        } else {
            continue_at(s, next)
        },
        Instr::Store => if n >= 2 {
            continue_at(
                MachineState {
                    stack: st.drop_last().drop_last(),
                    heap: s.heap.insert(st[n - 2], st.last()),
                    ..s
                },
                next,
            )
        } else {
            continue_at(s, next)
        },
        Instr::Retrieve => if n > 0 {
            if s.heap.contains_key(st.last()) {
                continue_at(
                    MachineState { stack: st.drop_last().push(s.heap[st.last()]), ..s },
                    next,
                )
            } else {
                fail(s, Fault::UnknownAddress(st.last()))
            }
        } else {
            continue_at(s, next)
        },
        Instr::PrintChar => if n > 0 {
            (MachineState { stack: st.drop_last(), pc: next, ..s }, Action::PrintChar(st.last() as u8))
        } else {
            continue_at(s, next)
        },
        Instr::PrintNumber => if n > 0 {
            (MachineState { stack: st.drop_last(), pc: next, ..s }, Action::PrintNumber(st.last()))
        } else {
            continue_at(s, next)
        },
        Instr::ReadChar => (MachineState { pc: next, mode: Mode::AwaitChar, ..s }, Action::ReadByte),
        Instr::ReadNumber => (
            MachineState {
                pc: next,
                mode: Mode::AwaitNumber,
                digits: Seq::empty(),
                seen_digit: false,
                negative: false,
                ..s
            },
            Action::ReadByte,
        ),
        Instr::Mark => continue_at(s, next),
        Instr::Call => match search(s.prog, arg_of(s, d), Some(d.last as int)) {
            Some(j) => continue_at(MachineState { calls: s.calls.push(d.last), ..s }, j + 1),
            None => fail(s, Fault::LabelNotFound),
        },
        Instr::Jump => jump(s, d),
        Instr::JumpIfZero => if n > 0 {
            let popped = MachineState { stack: st.drop_last(), ..s };
            if st.last() == 0 {
                jump(popped, d)
            } else {
                continue_at(popped, next)
            }
        } else {
            continue_at(s, next)
        },
        Instr::JumpIfNegative => if n > 0 {
            let popped = MachineState { stack: st.drop_last(), ..s };
            if st.last() < 0 {
                jump(popped, d)
            } else {
                continue_at(popped, next)
            }
        } else {
            continue_at(s, next)
        },
        Instr::Return => if s.calls.len() > 0 {
            continue_at(MachineState { calls: s.calls.drop_last(), ..s }, s.calls.last() + 1)
        } else {
            fail(s, Fault::EmptyCallStack)
        },
        Instr::End => (MachineState { mode: Mode::Halted, ..s }, Action::Halt),
    }
}

/// One step of the machine: run the command at the program counter, or say
/// what the machine is waiting for.
pub open spec fn next(s: MachineState) -> (MachineState, Action) {
    match s.mode {
        Mode::Running => if s.pc >= s.prog.len() {
            (MachineState { mode: Mode::Halted, ..s }, Action::Halt)
        } else {
            match spec_decode(s.prog, s.pc) {
                Ok(d) => execute(s, d),
                Err(f) => fail(s, f),
            }
        },
        Mode::AwaitChar | Mode::AwaitNumber => (s, Action::ReadByte),
        Mode::Halted => (s, Action::Halt),
        Mode::Failed(f) => (s, Action::Fail(f)),
    }
}

/// Store `v` at the address on top of the stack (which is popped), if there is
/// one, and go back to running.
pub open spec fn store_input(s: MachineState, v: i32) -> (MachineState, Action) {
    if s.stack.len() > 0 {
        (
            MachineState {
                stack: s.stack.drop_last(),
                heap: s.heap.insert(s.stack.last(), v),
                mode: Mode::Running,
                ..s
            },
            Action::Continue,
        )
    } else {
        (MachineState { mode: Mode::Running, ..s }, Action::Continue)
    }
}

/// The number read so far is complete.
pub open spec fn finish_number(s: MachineState) -> (MachineState, Action) {
    let v = decimal_value(s.digits);
    if v > i32::MAX {
        fail(s, Fault::Overflow)
    } else {
        store_input(s, (if s.negative { -v } else { v }) as i32)
    }
}

/// What a byte of input (`None` at the end of input) does to a waiting
/// machine.
pub open spec fn feed_next(s: MachineState, input: Option<u8>) -> (MachineState, Action) {
    match s.mode {
        Mode::AwaitChar => match input {
            Some(b) => if b != 10 {
                store_input(s, b as i32)
            } else {
                (s, Action::ReadByte)
            },
            None => (s, Action::ReadByte),
        },
        Mode::AwaitNumber => match input {
            Some(b) => if b == 45 && !s.seen_digit {
                (MachineState { negative: true, ..s }, Action::ReadByte)
            } else if (b == 32 || b == 10) && s.seen_digit {
                finish_number(s)
            } else if b == 32 || b == 10 {
                (s, Action::ReadByte)
            } else if 48 <= b <= 57 {
                (
                    MachineState { digits: s.digits.push((b - 48) as u8), seen_digit: true, ..s },
                    Action::ReadByte,
                )
            } else {
                fail(s, Fault::NotANumber(b))
            },
            None => (s, Action::ReadByte),
        },
        Mode::Running => (s, Action::Continue),
        Mode::Halted => (s, Action::Halt),
        Mode::Failed(f) => (s, Action::Fail(f)),
    }
}

/// The program, the program counter and the return addresses.
struct Control {
    prog: Vec<WSC>,
    pc: usize,
    calls: Vec<usize>,
}

impl Control {
    #[verifier::type_invariant]
    spec fn inv(self) -> bool {
        &&& self.pc <= self.prog.len()
        &&& forall|i: int| 0 <= i < self.calls.len() ==> self.calls[i] < self.prog.len()
    }

    fn set_pc(&mut self, pc: usize)
        requires
            pc <= old(self).prog.len(),
        ensures
            final(self).prog@ == old(self).prog@,
            final(self).calls@ == old(self).calls@,
            final(self).pc == pc,
    {
        proof {
            use_type_invariant(&*self);
        }
        self.pc = pc;
    }

    fn push_call(&mut self, c: usize)
        requires
            c < old(self).prog.len(),
        ensures
            final(self).prog@ == old(self).prog@,
            final(self).calls@ == old(self).calls@.push(c),
            final(self).pc == old(self).pc,
    {
        proof {
            use_type_invariant(&*self);
        }
        let mut calls: Vec<usize> = Vec::new();
        std::mem::swap(&mut calls, &mut self.calls);
        calls.push(c);
        std::mem::swap(&mut calls, &mut self.calls);
    }

    fn pop_call(&mut self) -> (r: Option<usize>)
        ensures
            final(self).prog@ == old(self).prog@,
            final(self).pc == old(self).pc,
            old(self).calls@.len() > 0 ==> r == Some(old(self).calls@.last())
                && final(self).calls@ == old(self).calls@.drop_last(),
            old(self).calls@.len() == 0 ==> r is None && final(self).calls@ == old(self).calls@,
    {
        proof {
            use_type_invariant(&*self);
        }
        let mut calls: Vec<usize> = Vec::new();
        std::mem::swap(&mut calls, &mut self.calls);
        let r = calls.pop();
        std::mem::swap(&mut calls, &mut self.calls);
        r
    }
}

/// A Whitespace machine running one program.
pub struct Machine {
    control: Control,
    stack: Vec<i32>,
    heap: HashMap<i32, i32>,
    mode: Mode,
    digits: Vec<u8>,
    seen_digit: bool,
    negative: bool,
}

impl View for Machine {
    type V = MachineState;

    closed spec fn view(&self) -> MachineState {
        MachineState {
            prog: self.control.prog@,
            pc: self.control.pc as int,
            stack: self.stack@,
            heap: self.heap@,
            calls: self.control.calls@,
            mode: self.mode,
            digits: self.digits@,
            seen_digit: self.seen_digit,
            negative: self.negative,
        }
    }
}


/// `d` is the command at the program counter of a running machine.
pub open spec fn ready(s: MachineState, d: Decoded) -> bool {
    &&& s.mode == Mode::Running
    &&& 0 <= s.pc < s.prog.len()
    &&& spec_decode(s.prog, s.pc) == Ok::<Decoded, Fault>(d)
}

fn exec_arith(instr: Instr, b: i32, a: i32) -> (r: Result<i32, Fault>)
    ensures
        r == arith(instr, b, a),
{
    match instr {
        Instr::Add => match b.checked_add(a) {
            Some(x) => Ok(x),
            None => Err(Fault::Overflow),
        },
        Instr::Sub => match b.checked_sub(a) {
            Some(x) => Ok(x),
            None => Err(Fault::Overflow),
        },
        Instr::Mul => match b.checked_mul(a) {
            Some(x) => Ok(x),
            None => Err(Fault::Overflow),
        },
        Instr::Div => if a == 0 {
            Err(Fault::DivisionByZero)
        } else {
            match b.checked_div(a) {
                Some(x) => Ok(x),
                None => Err(Fault::Overflow),
            }
        },
        _ => if a == 0 {
            Err(Fault::DivisionByZero)
        } else {
            match b.checked_rem(a) {
                Some(x) => Ok(x),
                None => Err(Fault::Overflow),
            }
        },
    }
}

impl Machine {
    /// A machine about to run `prog` from its first symbol, with an empty
    /// stack, heap and call stack.
    pub fn new(prog: Vec<WSC>) -> (m: Machine)
        ensures
            m@ == initial(prog@),
    {
        Machine {
            control: Control { prog, pc: 0, calls: Vec::new() },
            stack: Vec::new(),
            heap: HashMap::new(),
            mode: Mode::Running,
            digits: Vec::new(),
            seen_digit: false,
            negative: false,
        }
    }

    fn stop(&mut self, f: Fault) -> (r: Action)
        ensures
            final(self)@ == fail(old(self)@, f).0,
            r == fail(old(self)@, f).1,
    {
        self.mode = Mode::Failed(f);
        Action::Fail(f)
    }

    fn go_to(&mut self, pc: usize) -> (r: Action)
        requires
            pc <= old(self)@.prog.len(),
        ensures
            final(self)@ == continue_at(old(self)@, pc as int).0,
            r == Action::Continue,
    {
        self.control.set_pc(pc);
        Action::Continue
    }

    fn exec_stack(&mut self, d: Decoded) -> (r: Action)
        requires
            ready(old(self)@, d),
            d.instr == Instr::Push || d.instr == Instr::Dup || d.instr == Instr::Swap || d.instr
                == Instr::Discard,
        ensures
            final(self)@ == execute(old(self)@, d).0,
            r == execute(old(self)@, d).1,
    {
        proof {
            use_type_invariant(&self.control);
            lemma_decode_bounds(self@.prog, self@.pc);
        }
        let next = d.last + 1;
        match d.instr {
            Instr::Push => {
                let mut lit: Vec<WSC> = Vec::new();
                copy_range(&self.control.prog, d.arg, d.last, &mut lit);
                assert(lit@ =~= arg_of(old(self)@, d));
                match checked_calc_num(lit) {
                    Ok(v) => {
                        self.stack.push(v);
                        self.go_to(next)
                    },
                    Err(f) => self.stop(f),
                }
            },
            Instr::Dup => {
                let n = self.stack.len();
                if n > 0 {
                    let x = self.stack[n - 1];
                    self.stack.push(x);
                }
                self.go_to(next)
            },
            Instr::Swap => {
                if self.stack.len() >= 2 {
                    let a = self.stack.pop().unwrap();
                    let b = self.stack.pop().unwrap();
                    self.stack.push(a);
                    self.stack.push(b);
                }
                self.go_to(next)
            },
            _ => {
                if self.stack.len() > 0 {
                    self.stack.pop();
                }
                self.go_to(next)
            },
        }
    }

    fn exec_arith_cmd(&mut self, d: Decoded) -> (r: Action)
        requires
            ready(old(self)@, d),
            d.instr == Instr::Add || d.instr == Instr::Sub || d.instr == Instr::Mul || d.instr
                == Instr::Div || d.instr == Instr::Mod,
        ensures
            final(self)@ == execute(old(self)@, d).0,
            r == execute(old(self)@, d).1,
    {
        proof {
            use_type_invariant(&self.control);
            lemma_decode_bounds(self@.prog, self@.pc);
        }
        let next = d.last + 1;
        let n = self.stack.len();
        if n >= 2 {
            let a = self.stack[n - 1];
            let b = self.stack[n - 2];
            match exec_arith(d.instr, b, a) {
                Ok(x) => {
                    self.stack.pop();
                    self.stack.pop();
                    self.stack.push(x);
                    self.go_to(next)
                },
                Err(f) => self.stop(f),
            }
        } else {
            self.go_to(next)
        }
    }

    fn exec_heap(&mut self, d: Decoded) -> (r: Action)
        requires
            ready(old(self)@, d),
            d.instr == Instr::Store || d.instr == Instr::Retrieve,
        ensures
            final(self)@ == execute(old(self)@, d).0,
            r == execute(old(self)@, d).1,
    {
        proof {
            use_type_invariant(&self.control);
            lemma_decode_bounds(self@.prog, self@.pc);
        }
        let next = d.last + 1;
        let n = self.stack.len();
        if d.instr == Instr::Store {
            if n >= 2 {
                let v = self.stack.pop().unwrap();
                let k = self.stack.pop().unwrap();
                self.heap.insert(k, v);
            }
            self.go_to(next)
        } else {
            if n > 0 {
                let k = self.stack[n - 1];
                match self.heap.get(&k) {
                    Some(v) => {
                        let v = *v;
                        self.stack.pop();
                        self.stack.push(v);
                        self.go_to(next)
                    },
                    None => self.stop(Fault::UnknownAddress(k)),
                }
            } else {
                self.go_to(next)
            }
        }
    }

    fn exec_io(&mut self, d: Decoded) -> (r: Action)
        requires
            ready(old(self)@, d),
            d.instr == Instr::PrintChar || d.instr == Instr::PrintNumber || d.instr
                == Instr::ReadChar || d.instr == Instr::ReadNumber,
        ensures
            final(self)@ == execute(old(self)@, d).0,
            r == execute(old(self)@, d).1,
    {
        proof {
            use_type_invariant(&self.control);
            lemma_decode_bounds(self@.prog, self@.pc);
        }
        let next = d.last + 1;
        self.control.set_pc(next);
        match d.instr {
            Instr::PrintChar => match self.stack.pop() {
                Some(x) => Action::PrintChar(x as u8),
                None => Action::Continue,
            },
            Instr::PrintNumber => match self.stack.pop() {
                Some(x) => Action::PrintNumber(x),
                None => Action::Continue,
            },
            Instr::ReadChar => {
                self.mode = Mode::AwaitChar;
                Action::ReadByte
            },
            _ => {
                self.mode = Mode::AwaitNumber;
                self.digits = Vec::new();
                self.seen_digit = false;
                self.negative = false;
                Action::ReadByte
            },
        }
    }

    fn do_jump(&mut self, d: Decoded) -> (r: Action)
        requires
            d.arg <= d.last + 1,
            d.last < old(self)@.prog.len() <= usize::MAX,
        ensures
            final(self)@ == jump(old(self)@, d).0,
            r == jump(old(self)@, d).1,
    {
        let mut pat: Vec<WSC> = Vec::new();
        pat.push(WSC::L);
        pat.push(WSC::S);
        pat.push(WSC::S);
        copy_range(&self.control.prog, d.arg, d.last, &mut pat);
        assert(pat@ =~= mark_pattern(arg_of(old(self)@, d)));
        let found = find_label(&self.control.prog, &pat, None);
        proof {
            lemma_search(self@.prog, pat@, None, 0);
        }
        match found {
            Some(j) => {
                assert(search(self@.prog, pat@, None) == Some(j as int));
                self.go_to(j + 1)
            },
            None => self.stop(Fault::LabelNotFound),
        }
    }

    fn exec_flow(&mut self, d: Decoded) -> (r: Action)
        requires
            ready(old(self)@, d),
            d.instr == Instr::Mark || d.instr == Instr::Call || d.instr == Instr::Jump || d.instr
                == Instr::JumpIfZero || d.instr == Instr::JumpIfNegative || d.instr
                == Instr::Return || d.instr == Instr::End,
        ensures
            final(self)@ == execute(old(self)@, d).0,
            r == execute(old(self)@, d).1,
    {
        proof {
            use_type_invariant(&self.control);
            lemma_decode_bounds(self@.prog, self@.pc);
        }
        let next = d.last + 1;
        match d.instr {
            Instr::Mark => self.go_to(next),
            Instr::Call => {
                let mut label: Vec<WSC> = Vec::new();
                copy_range(&self.control.prog, d.arg, d.last, &mut label);
                assert(label@ =~= arg_of(old(self)@, d));
                let found = find_label(&self.control.prog, &label, Some(d.last));
                proof {
                    lemma_search(self@.prog, label@, Some(d.last as int), 0);
                }
                match found {
                    Some(j) => {
                        self.control.push_call(d.last);
                        self.go_to(j + 1)
                    },
                    None => self.stop(Fault::LabelNotFound),
                }
            },
            Instr::Jump => self.do_jump(d),
            Instr::JumpIfZero => match self.stack.pop() {
                Some(x) => if x == 0 {
                    self.do_jump(d)
                } else {
                    self.go_to(next)
                },
                None => self.go_to(next),
            },
            Instr::JumpIfNegative => match self.stack.pop() {
                Some(x) => if x < 0 {
                    self.do_jump(d)
                } else {
                    self.go_to(next)
                },
                None => self.go_to(next),
            },
            Instr::Return => match self.control.pop_call() {
                Some(c) => self.go_to(c + 1),
                None => self.stop(Fault::EmptyCallStack),
            },
            _ => {
                self.mode = Mode::Halted;
                Action::Halt
            },
        }
    }

    /// Runs one command, or reports what the machine waits for: the action
    /// and the new state are those of `next`.
    pub fn step(&mut self) -> (r: Action)
        ensures
            final(self)@ == next(old(self)@).0,
            r == next(old(self)@).1,
    {
        proof {
            use_type_invariant(&self.control);
        }
        match self.mode {
            Mode::Running => {},
            Mode::AwaitChar => return Action::ReadByte,
            Mode::AwaitNumber => return Action::ReadByte,
            Mode::Halted => return Action::Halt,
            Mode::Failed(f) => return Action::Fail(f),
        }
        if self.control.pc >= self.control.prog.len() {
            self.mode = Mode::Halted;
            return Action::Halt;
        }
        match decode(&self.control.prog, self.control.pc) {
            Err(f) => self.stop(f),
            Ok(d) => match d.instr {
                Instr::Push | Instr::Dup | Instr::Swap | Instr::Discard => self.exec_stack(d),
                Instr::Add | Instr::Sub | Instr::Mul | Instr::Div | Instr::Mod => self.exec_arith_cmd(
                    d,
                ),
                Instr::Store | Instr::Retrieve => self.exec_heap(d),
                Instr::PrintChar | Instr::PrintNumber | Instr::ReadChar | Instr::ReadNumber => {
                    self.exec_io(d)
                },
                _ => self.exec_flow(d),
            },
        }
    }

    fn store_input_exec(&mut self, v: i32) -> (r: Action)
        ensures
            final(self)@ == store_input(old(self)@, v).0,
            r == store_input(old(self)@, v).1,
    {
        if let Some(k) = self.stack.pop() {
            self.heap.insert(k, v);
        }
        self.mode = Mode::Running;
        Action::Continue
    }

    /// Hands the machine one byte of input, or `None` at the end of input: the
    /// action and the new state are those of `feed_next`.
    pub fn feed(&mut self, input: Option<u8>) -> (r: Action)
        ensures
            final(self)@ == feed_next(old(self)@, input).0,
            r == feed_next(old(self)@, input).1,
    {
        match self.mode {
            Mode::AwaitChar => match input {
                Some(b) => if b != 10 {
                    self.store_input_exec(b as i32)
                } else {
                    Action::ReadByte
                },
                None => Action::ReadByte,
            },
            Mode::AwaitNumber => match input {
                Some(b) => if b == 45 && !self.seen_digit {
                    self.negative = true;
                    Action::ReadByte
                } else if (b == 32 || b == 10) && self.seen_digit {
                    proof {
                        lemma_decimal_nonneg(self.digits@);
                    }
                    match decimal_from_digits(&self.digits) {
                        Some(v) => {
                            let n = if self.negative {
                                -v
                            } else {
                                v
                            };
                            self.store_input_exec(n)
                        },
                        None => self.stop(Fault::Overflow),
                    }
                } else if b == 32 || b == 10 {
                    Action::ReadByte
                } else if 48 <= b && b <= 57 {
                    self.digits.push(b - 48);
                    self.seen_digit = true;
                    Action::ReadByte
                } else {
                    self.stop(Fault::NotANumber(b))
                },
                None => Action::ReadByte,
            },
            Mode::Running => Action::Continue,
            Mode::Halted => Action::Halt,
            Mode::Failed(f) => Action::Fail(f),
        }
    }
}


impl Machine {
    /// What the machine is doing.
    pub fn mode(&self) -> (r: Mode)
        ensures
            r == self@.mode,
    {
        self.mode
    }

    /// The index of the next command.
    pub fn pc(&self) -> (r: usize)
        ensures
            r == self@.pc,
    {
        self.control.pc
    }

    /// The program being run.
    pub fn program(&self) -> (r: &Vec<WSC>)
        ensures
            r@ == self@.prog,
    {
        &self.control.prog
    }

    /// The value stack, top last.
    pub fn stack(&self) -> (r: &Vec<i32>)
        ensures
            r@ == self@.stack,
    {
        &self.stack
    }

    /// The value stored at a heap address, if any.
    pub fn heap_value(&self, addr: i32) -> (r: Option<i32>)
        ensures
            r == (if self@.heap.contains_key(addr) {
                Some(self@.heap[addr])
            } else {
                None
            }),
    {
        match self.heap.get(&addr) {
            Some(v) => Some(*v),
            None => None,
        }
    }

    /// How many calls wait for a return.
    pub fn call_depth(&self) -> (r: usize)
        ensures
            r == self@.calls.len(),
    {
        self.control.calls.len()
    }
}

} // verus!
