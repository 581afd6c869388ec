use fuzzerk::datautils::{next_token, remove_extra_whitespaces};
use fuzzerk::hex::{hex_from_vu8, vu8_from_hex, HexError};
use fuzzerk::integer::{intvalue, IntError, U8X};

#[test]
fn it_works() {
    let result = 2 + 2;
    assert_eq!(result, 4);
}

#[test]
fn test_bufhex() {
    let mut vbuf = vu8_from_hex("001122eeff00").unwrap();
    assert_eq!(vbuf, vec![0x00, 0x11, 0x22, 0xee, 0xff, 0x00]);
    vbuf[0] = 99;
    let shex = hex_from_vu8(&vbuf);
    assert_eq!(shex, "631122eeff00");
}

#[test]
fn hex_accepts_both_cases_and_rejects_the_rest() {
    assert_eq!(vu8_from_hex("aAfF09").unwrap(), vec![0xaa, 0xff, 0x09]);
    assert_eq!(vu8_from_hex("").unwrap(), Vec::<u8>::new());
    assert_eq!(vu8_from_hex("abc"), Err(HexError::OddLength));
    assert_eq!(vu8_from_hex("0g"), Err(HexError::BadDigit(1)));
    assert_eq!(vu8_from_hex("+f"), Err(HexError::BadDigit(0)));
    assert_eq!(vu8_from_hex("00zz1"), Err(HexError::OddLength));
}

#[test]
fn hex_round_trip() {
    let all: Vec<u8> = (0..=255u8).collect();
    assert_eq!(vu8_from_hex(&hex_from_vu8(&all)).unwrap(), all);
}

#[test]
fn whitespace_runs_collapse_outside_quotes() {
    assert_eq!(remove_extra_whitespaces("a   b \t\t c"), "a b c");
    assert_eq!(remove_extra_whitespaces("  lead and trail  "), " lead and trail ");
    assert_eq!(remove_extra_whitespaces("x \"a   b\"   y"), "x \"a   b\" y");
    assert_eq!(remove_extra_whitespaces("\"a \\\"  b\"   c"), "\"a \\\"  b\" c");
    assert_eq!(remove_extra_whitespaces("a\\  \"  b"), "a\\ \"  b");
    assert_eq!(remove_extra_whitespaces(""), "");
    assert_eq!(remove_extra_whitespaces("a\u{a0}\u{3000}b"), "a b");
}

#[test]
fn whitespace_removal_is_idempotent() {
    let lines = [
        "letstr   s   \"hello   world\"  ",
        "\t\tbufmerged.s dst s \" \\\"  \" s",
        "unbalanced \"quote   here",
        "  ",
        "a\\   b",
    ];
    for l in lines {
        let once = remove_extra_whitespaces(l);
        assert_eq!(remove_extra_whitespaces(&once), once);
    }
}

#[test]
fn next_token_takes_words_and_quoted_strings() {
    assert_eq!(next_token("abc def ghi").unwrap(), ("def ghi".to_string(), "abc".to_string()));
    assert_eq!(next_token("   abc").unwrap(), ("".to_string(), "abc".to_string()));
    assert_eq!(
        next_token("\"a b\" rest").unwrap(),
        (" rest".to_string(), "\"a b\"".to_string())
    );
    assert_eq!(
        next_token("\"a \\\" b\"x").unwrap(),
        ("x".to_string(), "\"a \\\" b\"".to_string())
    );
    assert_eq!(next_token("\"open").unwrap(), ("".to_string(), "\"open".to_string()));
    assert_eq!(next_token("").unwrap(), ("".to_string(), "".to_string()));
    assert_eq!(next_token("a\tb c").unwrap(), ("c".to_string(), "a\tb".to_string()));
    assert_eq!(next_token("word ").unwrap(), ("".to_string(), "word".to_string()));
}

#[test]
fn intvalue_reads_decimal_and_hex() {
    assert_eq!(intvalue("123"), Ok(123));
    assert_eq!(intvalue("  -45 "), Ok(-45));
    assert_eq!(intvalue("+7"), Ok(7));
    assert_eq!(intvalue("0x1f"), Ok(31));
    assert_eq!(intvalue("0x-1F"), Ok(-31));
    assert_eq!(intvalue("0007"), Ok(7));
    assert_eq!(intvalue(""), Err(IntError::Malformed));
    assert_eq!(intvalue("-"), Err(IntError::Malformed));
    assert_eq!(intvalue("0x"), Err(IntError::Malformed));
    assert_eq!(intvalue("12a"), Err(IntError::Malformed));
    assert_eq!(intvalue("-0x10"), Err(IntError::Malformed));
    assert_eq!(intvalue("1 2"), Err(IntError::Malformed));
}

#[test]
fn intvalue_knows_the_range_of_isize() {
    assert_eq!(intvalue(&isize::MAX.to_string()), Ok(isize::MAX));
    assert_eq!(intvalue(&isize::MIN.to_string()), Ok(isize::MIN));
    assert_eq!(intvalue("9223372036854775808000"), Err(IntError::OutOfRange));
    assert_eq!(
        intvalue("99999999999999999999999999999999999999999999999999"),
        Err(IntError::OutOfRange)
    );
    let above = (isize::MAX as i128 + 1).to_string();
    assert_eq!(intvalue(&above), Err(IntError::OutOfRange));
    let below = (isize::MIN as i128 - 1).to_string();
    assert_eq!(intvalue(&below), Err(IntError::OutOfRange));
}

#[test]
fn u8x_holds_only_what_fits() {
    assert_eq!(U8X::from_isize(0), Some(U8X(0)));
    assert_eq!(U8X::from_isize(255).unwrap().into_u8(), 255);
    assert_eq!(U8X::from_isize(256), None);
    assert_eq!(U8X::from_isize(-1), None);
}

#[test]
fn the_helpers_are_reached_through_datautils_too() {
    assert_eq!(fuzzerk::datautils::intvalue("0x20"), Ok(32));
    assert_eq!(fuzzerk::datautils::vu8_from_hex("ff").unwrap(), vec![255]);
    assert_eq!(fuzzerk::datautils::hex_from_vu8(&vec![1, 171]), "01ab");
    assert_eq!(fuzzerk::datautils::U8X::from_isize(7), Some(fuzzerk::datautils::U8X(7)));
}

fn std_intvalue(s: &str) -> Option<isize> {
    let t = s.trim();
    if let Some(h) = t.strip_prefix("0x") {
        isize::from_str_radix(h, 16).ok()
    } else {
        isize::from_str_radix(t, 10).ok()
    }
}

#[test]
fn intvalue_agrees_with_std_on_many_inputs() {
    let mut x: u64 = 0x9E37_79B9_7F4A_7C15;
    for _ in 0..5000 {
        x = x.wrapping_mul(6364136223846793005).wrapping_add(1442695040888963407);
        let i = (x >> 7) as i64 as isize;
        let j = (x as i64 as isize) >> ((x >> 58) as u32);
        for v in [i, j, -i, !j] {
            assert_eq!(intvalue(&v.to_string()), Ok(v));
            let hex = if v < 0 {
                format!("0x-{:x}", (v as i128).unsigned_abs())
            } else {
                format!("0x{:X}", v)
            };
            assert_eq!(intvalue(&hex), Ok(v), "{}", hex);
        }
    }
    let odd = [
        "", " ", "+", "-", "--1", "+-1", "1-", "0x", "0x+", "0x-", "0X10", "0x1g", "1e3", "1_000",
        " 12 ", "\t-7\n", "٣", "0x0x1", "00", "-0", "+0", "0x00ff", "9223372036854775807",
        "9223372036854775808", "-9223372036854775808", "-9223372036854775809",
        "0x7fffffffffffffff", "0x8000000000000000", "0x-8000000000000000", "0x-8000000000000001",
        "2147483647", "2147483648", "-2147483648", "-2147483649", "१२", "1 2", "a", "0xabcdef",
    ];
    for s in odd {
        assert_eq!(intvalue(s).ok(), std_intvalue(s), "{:?}", s);
    }
}

#[test]
fn next_token_and_normalisation_agree_on_quoted_text() {
    let line = "  ifeq.s   name   \"two  words \\\" and a quote\"   goto   L  ";
    let n = remove_extra_whitespaces(line);
    assert_eq!(n, " ifeq.s name \"two  words \\\" and a quote\" goto L ");
    let (rest, tok) = next_token(&n).unwrap();
    assert_eq!(tok, "ifeq.s");
    let (rest, tok) = next_token(&rest).unwrap();
    assert_eq!(tok, "name");
    let (rest, tok) = next_token(&rest).unwrap();
    assert_eq!(tok, "\"two  words \\\" and a quote\"");
    assert_eq!(rest, " goto L ");
    let (rest, tok) = next_token(&rest).unwrap();
    assert_eq!(tok, "goto");
    let (rest, tok) = next_token(&rest).unwrap();
    assert_eq!((rest.as_str(), tok.as_str()), ("", "L"));
}
