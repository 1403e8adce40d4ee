use whitespace::fault::Fault;
use whitespace::machine::{Action, Machine, Mode};
use whitespace::program::{decode, find_label, Instr};
use whitespace::token::{convert, WSC};

fn text(src: &str) -> Vec<u8> {
    src.chars()
        .filter_map(|c| match c {
            'S' => Some(b' '),
            'T' => Some(b'\t'),
            'L' => Some(b'\n'),
            _ => None,
        })
        .collect()
}

fn syms(src: &str) -> Vec<WSC> {
    convert(text(src))
}

fn push(n: i64) -> String {
    let sign = if n < 0 { "T" } else { "S" };
    let mag = n.unsigned_abs();
    let bits: String = if mag == 0 {
        String::new()
    } else {
        format!("{:b}", mag).replace('0', "S").replace('1', "T")
    };
    format!("SS{}{}L", sign, bits)
}

fn run(src: &str, input: &[u8]) -> (Vec<u8>, Action, Machine) {
    let mut m = Machine::new(syms(src));
    let mut out = Vec::new();
    let mut pos = 0;
    for _ in 0..100000 {
        match m.step() {
            Action::Continue => {}
            Action::PrintChar(b) => out.push(b),
            Action::PrintNumber(n) => out.extend(n.to_string().bytes()),
            Action::ReadByte => {
                if pos >= input.len() {
                    return (out, Action::ReadByte, m);
                }
                pos += 1;
                if let Action::Fail(f) = m.feed(Some(input[pos - 1])) {
                    return (out, Action::Fail(f), m);
                }
            }
            a => return (out, a, m),
        }
    }
    panic!("the program did not stop");
}

const END: &str = "LLL";
const PRINT_CHAR: &str = "TLSS";
const PRINT_NUM: &str = "TLST";

#[test]
fn prints_characters() {
    let src = format!("{}{}{}{}{}", push(72), PRINT_CHAR, push(105), PRINT_CHAR, END);
    let (out, a, m) = run(&src, b"");
    assert_eq!(out, b"Hi".to_vec());
    assert_eq!(a, Action::Halt);
    assert_eq!(m.mode(), Mode::Halted);
}

#[test]
fn print_char_truncates_to_a_byte() {
    let src = format!("{}{}{}", push(256 + 65), PRINT_CHAR, END);
    let (out, _, _) = run(&src, b"");
    assert_eq!(out, b"A".to_vec());
}

#[test]
fn arithmetic() {
    let cases = [
        ("TSSS", 7, 3, "10"),
        ("TSST", 7, 3, "4"),
        ("TSSL", 7, 3, "21"),
        ("TSTS", 7, 3, "2"),
        ("TSTT", 7, 3, "1"),
        ("TSTS", -7, 2, "-3"),
        ("TSTT", -7, 2, "-1"),
        ("TSTT", 7, -2, "1"),
    ];
    for (op, b, a, want) in cases {
        let src = format!("{}{}{}{}{}", push(b), push(a), op, PRINT_NUM, END);
        let (out, act, _) = run(&src, b"");
        assert_eq!(String::from_utf8(out).unwrap(), want);
        assert_eq!(act, Action::Halt);
    }
}

#[test]
fn arithmetic_faults() {
    let src = format!("{}{}TSTS{}", push(1), push(0), END);
    assert_eq!(run(&src, b"").1, Action::Fail(Fault::DivisionByZero));
    let src = format!("{}{}TSTT{}", push(1), push(0), END);
    assert_eq!(run(&src, b"").1, Action::Fail(Fault::DivisionByZero));
    let src = format!("{}{}TSSS{}", push(i32::MAX as i64), push(1), END);
    assert_eq!(run(&src, b"").1, Action::Fail(Fault::Overflow));
    let src = format!("{}{}TSST{}{}TSTS{}", push(-i32::MAX as i64), push(1), "", push(-1), END);
    assert_eq!(run(&src, b"").1, Action::Fail(Fault::Overflow));
    let src = format!("{}{}TSSL{}", push(65536), push(65536), END);
    assert_eq!(run(&src, b"").1, Action::Fail(Fault::Overflow));
}

#[test]
fn arithmetic_on_short_stack_does_nothing() {
    let src = format!("{}TSSS{}{}", push(5), PRINT_NUM, END);
    let (out, act, _) = run(&src, b"");
    assert_eq!(out, b"5".to_vec());
    assert_eq!(act, Action::Halt);
}

#[test]
fn stack_commands() {
    let src = format!("{}{}SLT{}", push(1), push(2), END);
    let (_, _, m) = run(&src, b"");
    assert_eq!(m.stack(), &vec![2, 1]);
    let src = format!("{}SLS{}", push(4), END);
    assert_eq!(run(&src, b"").2.stack(), &vec![4, 4]);
    let src = format!("{}{}SLL{}", push(4), push(5), END);
    assert_eq!(run(&src, b"").2.stack(), &vec![4]);
    let src = format!("SLSSLTSLL{}", END);
    let (_, act, m) = run(&src, b"");
    assert_eq!(act, Action::Halt);
    assert_eq!(m.stack(), &Vec::<i32>::new());
}

#[test]
fn swap_twice_and_dup_discard_restore_the_stack() {
    let src = format!("{}{}SLTSLT{}", push(1), push(2), END);
    assert_eq!(run(&src, b"").2.stack(), &vec![1, 2]);
    let src = format!("{}SLSSLL{}", push(9), END);
    assert_eq!(run(&src, b"").2.stack(), &vec![9]);
}

#[test]
fn heap_store_then_retrieve() {
    let src = format!(
        "{}{}TTS{}{}TTS{}TTT{}",
        push(10),
        push(42),
        push(11),
        push(43),
        push(10),
        END
    );
    let (_, act, m) = run(&src, b"");
    assert_eq!(act, Action::Halt);
    assert_eq!(m.stack(), &vec![42]);
    assert_eq!(m.heap_value(10), Some(42));
    assert_eq!(m.heap_value(11), Some(43));
    assert_eq!(m.heap_value(12), None);
}

#[test]
fn heap_unknown_address() {
    let src = format!("{}TTT{}", push(3), END);
    assert_eq!(run(&src, b"").1, Action::Fail(Fault::UnknownAddress(3)));
}

#[test]
fn heap_store_with_one_value_keeps_it() {
    let src = format!("{}TTS{}", push(3), END);
    let (_, _, m) = run(&src, b"");
    assert_eq!(m.stack(), &vec![3]);
    assert_eq!(m.heap_value(3), None);
}

#[test]
fn countdown_loop() {
    let src = format!(
        "{}LSSSL SLS {} {} TSST SLS LTSTL LSLSL LSSTL {}",
        push(3),
        PRINT_NUM,
        push(1),
        END
    );
    let (out, act, _) = run(&src, b"");
    assert_eq!(out, b"321".to_vec());
    assert_eq!(act, Action::Halt);
}

#[test]
fn jump_if_negative() {
    let src = format!(
        "{} LTTTTL {}{} LSSTTL {}{}{}",
        push(-1),
        push(1),
        PRINT_NUM,
        push(2),
        PRINT_NUM,
        END
    );
    let (out, _, _) = run(&src, b"");
    assert_eq!(out, b"2".to_vec());
    let src = format!(
        "{} LTTTTL {}{} LSSTTL {}{}{}",
        push(0),
        push(1),
        PRINT_NUM,
        push(2),
        PRINT_NUM,
        END
    );
    let (out, _, _) = run(&src, b"");
    assert_eq!(out, b"12".to_vec());
}

#[test]
fn call_and_return() {
    let src = format!(
        "{} LSTTTTTL {}{}{} LSSTTTTL {} LTL",
        push(7),
        push(8),
        PRINT_NUM,
        END,
        PRINT_NUM
    );
    let (out, act, m) = run(&src, b"");
    assert_eq!(out, b"78".to_vec());
    assert_eq!(act, Action::Halt);
    assert_eq!(m.call_depth(), 0);
}

#[test]
fn call_lands_after_first_occurrence_of_label_symbols() {
    // The literal for 15 ends with the same symbols as the label.
    let src = format!(
        "{} LSTTTTTL {} LSSTTTTL {}{}",
        push(15),
        END,
        push(2),
        END
    );
    let mut m = Machine::new(syms(&src));
    assert_eq!(m.step(), Action::Continue);
    assert_eq!(m.step(), Action::Continue);
    assert_eq!(m.pc(), 8);
    assert_eq!(m.call_depth(), 1);
}

#[test]
fn return_without_call_fails() {
    assert_eq!(run("LTL", b"").1, Action::Fail(Fault::EmptyCallStack));
}

#[test]
fn jump_to_missing_label_fails() {
    assert_eq!(run("LSLTL", b"").1, Action::Fail(Fault::LabelNotFound));
    assert_eq!(run("LSTTSL", b"").1, Action::Fail(Fault::LabelNotFound));
}

#[test]
fn read_char_skips_line_feeds() {
    let src = format!("{}TLTS{}TTT{}{}", push(100), push(100), PRINT_CHAR, END);
    let (out, act, _) = run(&src, b"\n\nA");
    assert_eq!(out, b"A".to_vec());
    assert_eq!(act, Action::Halt);
}

#[test]
fn read_number() {
    let src = format!("{}TLTT{}TTT{}{}", push(5), push(5), PRINT_NUM, END);
    let (out, act, _) = run(&src, b"  \n-12 ");
    assert_eq!(out, b"-12".to_vec());
    assert_eq!(act, Action::Halt);
    let (out, _, _) = run(&src, b"0042\n");
    assert_eq!(out, b"42".to_vec());
}

#[test]
fn read_number_faults() {
    let src = format!("{}TLTT{}", push(5), END);
    assert_eq!(run(&src, b"12-").1, Action::Fail(Fault::NotANumber(b'-')));
    assert_eq!(run(&src, b"x").1, Action::Fail(Fault::NotANumber(b'x')));
    assert_eq!(run(&src, b"2147483648 ").1, Action::Fail(Fault::Overflow));
    let (_, act, m) = run(&src, b"2147483647 ");
    assert_eq!(act, Action::Halt);
    assert_eq!(m.heap_value(5), Some(i32::MAX));
}

#[test]
fn waiting_machine_stays_at_end_of_input() {
    let src = format!("{}TLTS{}", push(1), END);
    let mut m = Machine::new(syms(&src));
    assert_eq!(m.step(), Action::Continue);
    assert_eq!(m.step(), Action::ReadByte);
    assert_eq!(m.feed(None), Action::ReadByte);
    assert_eq!(m.step(), Action::ReadByte);
    assert_eq!(m.mode(), Mode::AwaitChar);
    assert_eq!(m.feed(Some(b'z')), Action::Continue);
    assert_eq!(m.heap_value(1), Some(122));
    assert_eq!(m.step(), Action::Halt);
}

#[test]
fn invalid_commands() {
    let cases = [
        ("ST", 0, 1),
        ("TSTL", 0, 3),
        ("TSL", 0, 2),
        ("TTL", 0, 2),
        ("TLSL", 0, 3),
        ("TLTL", 0, 3),
        ("TLL", 0, 2),
        ("LLS", 0, 2),
        ("LLT", 0, 2),
    ];
    for (src, start, end) in cases {
        assert_eq!(
            run(src, b"").1,
            Action::Fail(Fault::InvalidCommand { start, end })
        );
    }
}

#[test]
fn truncated_commands() {
    for src in ["S", "SL", "TS", "TSS", "LS", "SSSTT", "LSSTT"] {
        assert_eq!(run(src, b"").1, Action::Fail(Fault::Truncated));
    }
}

#[test]
fn push_without_sign_fails() {
    assert_eq!(run("SSL", b"").1, Action::Fail(Fault::InvalidNumber));
}

#[test]
fn running_off_the_end_halts() {
    let (_, act, m) = run(&push(1), b"");
    assert_eq!(act, Action::Halt);
    assert_eq!(m.stack(), &vec![1]);
    assert_eq!(run("", b"").1, Action::Halt);
}

#[test]
fn stopped_machine_stays_stopped() {
    let mut m = Machine::new(syms("LTL"));
    assert_eq!(m.step(), Action::Fail(Fault::EmptyCallStack));
    assert_eq!(m.step(), Action::Fail(Fault::EmptyCallStack));
    assert_eq!(m.feed(Some(b'1')), Action::Fail(Fault::EmptyCallStack));
    let mut m = Machine::new(syms(END));
    assert_eq!(m.step(), Action::Halt);
    assert_eq!(m.step(), Action::Halt);
}

#[test]
fn decode_reports_argument_and_end() {
    let p = syms("SSSTLTSSS");
    let d = decode(&p, 0).unwrap();
    assert_eq!(d.instr, Instr::Push);
    assert_eq!(d.arg, 2);
    assert_eq!(d.last, 4);
    let d = decode(&p, 5).unwrap();
    assert_eq!(d.instr, Instr::Add);
    assert_eq!(d.arg, 9);
    assert_eq!(d.last, 8);
}

#[test]
fn find_label_skips_the_excluded_place() {
    let p = syms("STLSTL");
    let pat = syms("TL");
    assert_eq!(find_label(&p, &pat, None), Some(2));
    assert_eq!(find_label(&p, &pat, Some(2)), Some(5));
    assert_eq!(find_label(&p, &syms("LL"), None), None);
}
