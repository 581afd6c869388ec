use fuzzerk::integer::{intvalue, IntError};
use fuzzerk::vm::datas::{int_of_stamp, millis_as_int, text_of_stamp, VDataType, Variant};
use fuzzerk::vm::error::RuntimeError;

fn word() -> usize {
    std::mem::size_of::<isize>()
}

#[test]
fn test_variant() {
    let ivar = Variant::IntValue(5);
    let svar = Variant::StrValue("666".to_string());
    let seven = 7isize.to_ne_bytes().to_vec();
    let bvar = Variant::BufValue(seven.clone());
    assert_eq!(ivar.get_isize(), Ok(5));
    assert_eq!(ivar.get_string(), Ok("5".to_string()));
    assert_eq!(ivar.get_bufvu8(), Ok(5isize.to_ne_bytes().to_vec()));
    assert_eq!(svar.get_isize(), Ok(666));
    assert_eq!(svar.get_string(), Ok("666".to_string()));
    assert_eq!(svar.get_bufvu8(), Ok(b"666".to_vec()));
    assert_eq!(bvar.get_isize(), Ok(7));
    let hex: String = seven.iter().map(|b| format!("{:02x}", b)).collect();
    assert_eq!(bvar.get_string(), Ok(hex));
    assert_eq!(bvar.get_bufvu8(), Ok(seven));
}

#[test]
fn kinds_are_reported() {
    assert_eq!(Variant::IntValue(1).get_type(), VDataType::Integer);
    assert_eq!(Variant::StrValue(String::new()).get_type(), VDataType::String);
    assert_eq!(Variant::BufValue(vec![]).get_type(), VDataType::Buffer);
    assert_eq!(Variant::XRandomBytes(3).get_type(), VDataType::Special);
    assert_eq!(Variant::XTimeStamp.get_type(), VDataType::Special);
}

#[test]
fn integer_text_round_trips_through_intvalue() {
    let values = [0isize, 1, -1, 9, 10, -10, 12345, isize::MAX, isize::MIN, isize::MAX - 1];
    for i in values {
        let text = Variant::IntValue(i).get_string().unwrap();
        assert_eq!(text, i.to_string());
        assert_eq!(intvalue(&text), Ok(i));
        assert_eq!(Variant::StrValue(text).get_isize(), Ok(i));
    }
}

#[test]
fn integer_bytes_are_the_native_image_and_decode_back() {
    let values = [0isize, 1, -1, 255, 256, -256, 0x0102_0304, isize::MAX, isize::MIN];
    for i in values {
        let bytes = Variant::IntValue(i).get_bufvu8().unwrap();
        assert_eq!(bytes, i.to_ne_bytes().to_vec());
        assert_eq!(Variant::BufValue(bytes).get_isize(), Ok(i));
    }
}

#[test]
fn buffer_as_integer_needs_exactly_one_word() {
    assert_eq!(Variant::BufValue(vec![]).get_isize(), Err(RuntimeError::BufLen));
    assert_eq!(Variant::BufValue(vec![1; word() - 1]).get_isize(), Err(RuntimeError::BufLen));
    assert_eq!(Variant::BufValue(vec![1; word() + 1]).get_isize(), Err(RuntimeError::BufLen));
    assert!(Variant::BufValue(vec![1; word()]).get_isize().is_ok());
}

#[test]
fn text_as_integer_reads_decimal_and_hex() {
    assert_eq!(Variant::StrValue(" 0x7f ".to_string()).get_isize(), Ok(127));
    assert_eq!(Variant::StrValue("-12".to_string()).get_isize(), Ok(-12));
    assert_eq!(
        Variant::StrValue("twelve".to_string()).get_isize(),
        Err(RuntimeError::BadInt(IntError::Malformed))
    );
    assert_eq!(
        Variant::StrValue("123456789012345678901234567890".to_string()).get_isize(),
        Err(RuntimeError::BadInt(IntError::OutOfRange))
    );
}

#[test]
fn get_usize_refuses_negative_integers() {
    assert_eq!(Variant::IntValue(7).get_usize(), Ok(7));
    assert_eq!(Variant::IntValue(0).get_usize(), Ok(0));
    assert_eq!(Variant::IntValue(-1).get_usize(), Err(RuntimeError::Negative));
    assert_eq!(Variant::StrValue("-3".to_string()).get_usize(), Err(RuntimeError::Negative));
    assert_eq!(
        Variant::StrValue("x".to_string()).get_usize(),
        Err(RuntimeError::BadInt(IntError::Malformed))
    );
}

#[test]
fn buffer_text_is_lower_case_hex() {
    assert_eq!(
        Variant::BufValue(vec![0x00, 0x0a, 0xAB, 0xff]).get_string(),
        Ok("000aabff".to_string())
    );
    assert_eq!(Variant::BufValue(vec![]).get_string(), Ok(String::new()));
}

#[test]
fn text_bytes_are_utf8() {
    assert_eq!(
        Variant::StrValue("h\u{e9}\u{8d8a}".to_string()).get_bufvu8(),
        Ok("h\u{e9}\u{8d8a}".as_bytes().to_vec())
    );
}

#[test]
fn coercion_leaves_the_value_alone() {
    let v = Variant::StrValue("42".to_string());
    let before = v.clone();
    let _ = v.get_isize();
    let _ = v.get_string();
    let _ = v.get_bufvu8();
    assert_eq!(v, before);
}

#[test]
fn random_bytes_are_fresh_on_every_read() {
    let v = Variant::XRandomBytes(24);
    let a = v.get_bufvu8().unwrap();
    let b = v.get_bufvu8().unwrap();
    assert_eq!(a.len(), 24);
    assert_eq!(b.len(), 24);
    assert_ne!(a, b);
    assert_eq!(Variant::XRandomBytes(0).get_bufvu8(), Ok(vec![]));
    assert_eq!(Variant::XRandomBytes(0).get_string(), Ok(String::new()));
    let mut seen = std::collections::HashSet::new();
    for _ in 0..16 {
        seen.insert(Variant::XRandomBytes(word()).get_isize().unwrap());
    }
    assert!(seen.len() > 1);
    assert_eq!(Variant::XRandomBytes(word() - 1).get_isize(), Err(RuntimeError::BufLen));
    assert!(Variant::XRandomBytes(1000).get_isize().is_ok());
}

#[test]
fn random_text_is_valid_whatever_the_bytes() {
    for _ in 0..50 {
        let t = Variant::XRandomBytes(64).get_string().unwrap();
        assert!(t.chars().count() >= 16);
        assert!(t.chars().count() <= 64);
    }
}

#[test]
fn time_stamp_follows_the_clock() {
    let now = || {
        std::time::SystemTime::now()
            .duration_since(std::time::UNIX_EPOCH)
            .unwrap()
            .as_millis()
    };
    let before = now();
    let i = Variant::XTimeStamp.get_isize().unwrap();
    let s = Variant::XTimeStamp.get_string().unwrap();
    let b = Variant::XTimeStamp.get_bufvu8().unwrap();
    let after = now();
    assert!(before <= i as u128 && i as u128 <= after);
    let sv: u128 = s.parse().unwrap();
    assert!(before <= sv && sv <= after);
    assert_eq!(b.len(), 16);
    let mut raw = [0u8; 16];
    raw.copy_from_slice(&b);
    let bv = u128::from_ne_bytes(raw);
    assert!(before <= bv && bv <= after);
}

#[test]
fn milliseconds_are_cut_to_a_word() {
    assert_eq!(millis_as_int(0), 0);
    assert_eq!(millis_as_int(1_700_000_000_000), 1_700_000_000_000u128 as isize);
    assert_eq!(millis_as_int(u128::MAX), -1);
    assert_eq!(millis_as_int(isize::MAX as u128 + 1), isize::MIN);
    assert_eq!(millis_as_int(usize::MAX as u128 + 1 + 5), 5);
}

#[test]
fn the_buffer_of_a_buffer_value_can_be_changed_in_place() {
    let mut v = Variant::BufValue(vec![1, 2, 3]);
    {
        let b = v.get_bufvu8_mut().unwrap();
        b[1] = 9;
        b.push(4);
    }
    assert_eq!(v, Variant::BufValue(vec![1, 9, 3, 4]));
    assert!(Variant::IntValue(1).get_bufvu8_mut().is_none());
    assert!(Variant::StrValue("x".to_string()).get_bufvu8_mut().is_none());
    assert!(Variant::XTimeStamp.get_bufvu8_mut().is_none());
}

#[test]
fn the_time_stamp_is_settled_by_what_the_clock_shows() {
    assert_eq!(int_of_stamp(Some(1_700_000_000_123)), Ok(1_700_000_000_123u128 as isize));
    assert_eq!(int_of_stamp(Some(0)), Ok(0));
    assert_eq!(int_of_stamp(None), Err(RuntimeError::Clock));
    assert_eq!(text_of_stamp(Some(1_700_000_000_123)), Ok("1700000000123".to_string()));
    assert_eq!(text_of_stamp(Some(u128::MAX)), Ok(u128::MAX.to_string()));
    assert_eq!(text_of_stamp(None), Err(RuntimeError::Clock));
}
