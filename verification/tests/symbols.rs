use whitespace::fault::Fault;
use whitespace::number::{calc_num, checked_calc_num, decimal_from_digits};
use whitespace::token::{convert, WSC};

fn syms(s: &str) -> Vec<WSC> {
    s.chars()
        .filter_map(|c| match c {
            'S' => Some(WSC::S),
            'T' => Some(WSC::T),
            'L' => Some(WSC::L),
            _ => None,
        })
        .collect()
}

#[test]
fn convert_keeps_only_whitespace() {
    let text = b"a \tb\nc\r\x0b  ".to_vec();
    assert_eq!(
        convert(text),
        vec![WSC::S, WSC::T, WSC::L, WSC::S, WSC::S]
    );
}

#[test]
fn convert_empty_and_comment_only() {
    assert_eq!(convert(Vec::new()), Vec::<WSC>::new());
    assert_eq!(convert(b"hello,world!".to_vec()), Vec::<WSC>::new());
}

#[test]
fn convert_reads_back_encoded_symbols() {
    let s = syms("STLLTSSLT");
    let text: Vec<u8> = s
        .iter()
        .map(|t| match t {
            WSC::S => b' ',
            WSC::T => b'\t',
            WSC::L => b'\n',
        })
        .collect();
    assert_eq!(convert(text), s);
}

#[test]
fn convert_of_joined_text_is_joined() {
    let a = b"x \t".to_vec();
    let b = b"\ny ".to_vec();
    let mut ab = a.clone();
    ab.extend_from_slice(&b);
    let mut joined = convert(a);
    joined.extend(convert(b));
    assert_eq!(convert(ab), joined);
}

#[test]
fn calc_num_positive() {
    assert_eq!(calc_num(syms("STSTL")), 5);
    assert_eq!(calc_num(syms("SSSSTL")), 1);
}

#[test]
fn calc_num_negative() {
    assert_eq!(calc_num(syms("TTTL")), -3);
    assert_eq!(calc_num(syms("TTSTL")), -5);
}

#[test]
fn calc_num_zero() {
    assert_eq!(calc_num(syms("SL")), 0);
    assert_eq!(calc_num(syms("TL")), 0);
    assert_eq!(calc_num(syms("S")), 0);
}

#[test]
fn calc_num_stops_at_first_line_feed() {
    assert_eq!(calc_num(syms("STTLTTTT")), 3);
}

#[test]
fn calc_num_without_line_feed_reads_to_end() {
    assert_eq!(calc_num(syms("STTS")), 6);
}

#[test]
fn calc_num_extremes() {
    let max = format!("S{}L", "T".repeat(31));
    assert_eq!(calc_num(syms(&max)), i32::MAX);
    let min = format!("T{}L", "T".repeat(31));
    assert_eq!(calc_num(syms(&min)), -i32::MAX);
}

#[test]
fn checked_calc_num_errors() {
    assert_eq!(checked_calc_num(Vec::new()), Err(Fault::InvalidNumber));
    assert_eq!(checked_calc_num(syms("LSTL")), Err(Fault::InvalidNumber));
    let big = format!("ST{}L", "S".repeat(31));
    assert_eq!(checked_calc_num(syms(&big)), Err(Fault::Overflow));
    let big_neg = format!("TT{}L", "S".repeat(31));
    assert_eq!(checked_calc_num(syms(&big_neg)), Err(Fault::Overflow));
    assert_eq!(checked_calc_num(syms("TTSTSL")), Ok(-10));
}

#[test]
fn decimal_digits() {
    assert_eq!(decimal_from_digits(&vec![1, 2, 3]), Some(123));
    assert_eq!(decimal_from_digits(&vec![]), Some(0));
    assert_eq!(decimal_from_digits(&vec![0, 0, 0, 7]), Some(7));
    assert_eq!(
        decimal_from_digits(&vec![2, 1, 4, 7, 4, 8, 3, 6, 4, 7]),
        Some(i32::MAX)
    );
    assert_eq!(decimal_from_digits(&vec![2, 1, 4, 7, 4, 8, 3, 6, 4, 8]), None);
}

#[test]
fn calc_num_reads_back_every_written_number() {
    let samples: [i64; 9] = [0, 1, -1, 2, -7, 1000, -65536, 2147483647, -2147483647];
    for n in samples {
        let sign = if n < 0 { "T" } else { "S" };
        let mag = n.unsigned_abs();
        let bits = if mag == 0 {
            String::new()
        } else {
            format!("{:b}", mag).replace('0', "S").replace('1', "T")
        };
        let literal = syms(&format!("{}{}L", sign, bits));
        assert_eq!(calc_num(literal.clone()) as i64, n);
        assert_eq!(checked_calc_num(literal), Ok(n as i32));
    }
}

#[test]
fn calc_num_sign_negates() {
    for digits in ["", "T", "TST", "TTTTSSST"] {
        let pos = calc_num(syms(&format!("S{}L", digits)));
        let neg = calc_num(syms(&format!("T{}L", digits)));
        assert_eq!(neg, -pos);
    }
}
