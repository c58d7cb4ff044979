use decimal::error::Error;
use decimal::{DecimalU64, U0, U1, U2, U3, U4, U5, U6, U7, U8};
use std::str::FromStr;

#[test]
fn should_not_increase_size() {
    assert_eq!(std::mem::size_of::<u64>(), std::mem::size_of::<DecimalU64<U0>>());
    assert_eq!(std::mem::size_of::<u64>(), std::mem::size_of::<DecimalU64<U4>>());
    assert_eq!(std::mem::size_of::<u64>(), std::mem::size_of::<DecimalU64<U8>>());
}

#[test]
fn should_parse_from_bytes() {
    assert_eq!(
        18446744073709551615,
        DecimalU64::<U0>::try_from("18446744073709551615".as_bytes()).unwrap().unscaled
    );
    assert_eq!(
        18446744073709551615,
        DecimalU64::<U8>::try_from("184467440737.09551615".as_bytes()).unwrap().unscaled
    );
    assert_eq!(12345000000, DecimalU64::<U8>::try_from("123.45000000".as_bytes()).unwrap().unscaled);
    assert_eq!(12300000000, DecimalU64::<U8>::try_from("123".as_bytes()).unwrap().unscaled);
    assert_eq!(12300000000, DecimalU64::<U8>::try_from("123.".as_bytes()).unwrap().unscaled);
    assert_eq!(12300000000, DecimalU64::<U8>::try_from("123.0".as_bytes()).unwrap().unscaled);
    assert_eq!(
        18446744073709551615,
        DecimalU64::<U8>::try_from("184467440737.09551615".as_bytes()).unwrap().unscaled
    );
    assert_eq!(0, DecimalU64::<U8>::try_from("0.0".as_bytes()).unwrap().unscaled);
    assert_eq!(0, DecimalU64::<U8>::try_from("0".as_bytes()).unwrap().unscaled);
}

#[test]
fn should_use_target_scale() {
    assert_eq!(12345600000, DecimalU64::<U8>::try_from("123.456".as_bytes()).unwrap().unscaled);
    assert_eq!(1234560000, DecimalU64::<U7>::try_from("123.456".as_bytes()).unwrap().unscaled);
    assert_eq!(123456000, DecimalU64::<U6>::try_from("123.456".as_bytes()).unwrap().unscaled);
    assert_eq!(12345600, DecimalU64::<U5>::try_from("123.456".as_bytes()).unwrap().unscaled);
    assert_eq!(1234560, DecimalU64::<U4>::try_from("123.456".as_bytes()).unwrap().unscaled);
    assert_eq!(123456, DecimalU64::<U3>::try_from("123.456".as_bytes()).unwrap().unscaled);
    assert!(DecimalU64::<U2>::try_from("123.456".as_bytes()).is_err());
    assert!(DecimalU64::<U1>::try_from("123.456".as_bytes()).is_err());
    assert!(DecimalU64::<U0>::try_from("123.456".as_bytes()).is_err());
}

#[test]
fn should_split() {
    assert_eq!((123, 45000000), DecimalU64::<U8>::try_from("123.45000000".as_bytes()).unwrap().split());
    assert_eq!((0, 45000000), DecimalU64::<U8>::try_from("0.45000000".as_bytes()).unwrap().split());
    assert_eq!((0, 0), DecimalU64::<U8>::try_from("0.0".as_bytes()).unwrap().split());
    assert_eq!((123, 45000001), DecimalU64::<U8>::try_from("123.45000001".as_bytes()).unwrap().split());
    assert_eq!((123, 45100000), DecimalU64::<U8>::try_from("123.451".as_bytes()).unwrap().split());
}

#[test]
fn should_compare_for_eq() {
    let one = DecimalU64::<U8>::try_from("123.45000000".as_bytes()).unwrap();
    let two = DecimalU64::<U8>::try_from("123.45000000".as_bytes()).unwrap();
    assert_eq!(one, two);
    let one = DecimalU64::<U8>::try_from("123.45000000".as_bytes()).unwrap();
    let two = DecimalU64::<U8>::try_from("123.45000001".as_bytes()).unwrap();
    assert_ne!(one, two);
    let one = DecimalU64::<U8>::try_from("0.0".as_bytes()).unwrap();
    let two = DecimalU64::<U8>::try_from("0.0".as_bytes()).unwrap();
    assert_eq!(one, two);
}

#[test]
fn should_compare_for_ord() {
    let one = DecimalU64::<U8>::try_from("123.45000001".as_bytes()).unwrap();
    let two = DecimalU64::<U8>::try_from("123.45000000".as_bytes()).unwrap();
    assert!(one > two);
    let one = DecimalU64::<U8>::try_from("123.45000000".as_bytes()).unwrap();
    let two = DecimalU64::<U8>::try_from("123.45000001".as_bytes()).unwrap();
    assert!(one < two);
    let one = DecimalU64::<U8>::try_from("0.0".as_bytes()).unwrap();
    let two = DecimalU64::<U8>::try_from("0.0".as_bytes()).unwrap();
    assert!(one >= two);
    let one = DecimalU64::<U8>::try_from("0.0".as_bytes()).unwrap();
    let two = DecimalU64::<U8>::try_from("0.0".as_bytes()).unwrap();
    assert!(one <= two);
}

#[test]
fn should_err_if_number_too_large() {
    let err = DecimalU64::<U8>::try_from("184467440737.09551616".as_bytes());
    assert!(err.is_err());
    if let Err(err) = err {
        assert_eq!("overflow: 184467440737.09551616", err.to_string());
    }
}

#[test]
fn should_create_from_str() {
    assert_eq!(12345000001, DecimalU64::<U8>::from_str("123.45000001").unwrap().unscaled);
}

#[test]
fn should_write_to_buffer() {
    let mut buf = [0u8; 1024];

    let dec = DecimalU64::<U8>::from_str("123.45000001").unwrap();
    assert_eq!(12, dec.write_to(&mut buf));
    assert_eq!("123.45000001", std::str::from_utf8(&buf[..12]).unwrap());

    let dec = DecimalU64::<U6>::from_str("123.45").unwrap();
    assert_eq!(10, dec.write_to(&mut buf));
    assert_eq!("123.450000", std::str::from_utf8(&buf[..10]).unwrap());

    let dec = DecimalU64::<U0>::from_str("12345").unwrap();
    assert_eq!(5, dec.write_to(&mut buf));
    assert_eq!("12345", std::str::from_utf8(&buf[..5]).unwrap());

    let dec = DecimalU64::<U0>::from_str("0").unwrap();
    assert_eq!(1, dec.write_to(&mut buf));
    assert_eq!("0", std::str::from_utf8(&buf[..1]).unwrap());

    let dec = DecimalU64::<U8>::from_str("0").unwrap();
    assert_eq!(10, dec.write_to(&mut buf));
    assert_eq!("0.00000000", std::str::from_utf8(&buf[..10]).unwrap());
}

#[test]
fn should_display_to_string() {
    assert_eq!("123.450000", DecimalU64::<U6>::from_str("123.45").unwrap().to_string());
    assert_eq!("123.45", DecimalU64::<U2>::from_str("123.45").unwrap().to_string());
    assert_eq!("123.45000000", DecimalU64::<U8>::from_str("123.45").unwrap().to_string());
    assert_eq!("0.00000000", DecimalU64::<U8>::from_str("0").unwrap().to_string());
    assert_eq!("0", DecimalU64::<U0>::from_str("0").unwrap().to_string());
    assert_eq!("10", DecimalU64::<U0>::from_str("10").unwrap().to_string());
}

#[test]
fn should_default_to_zero() {
    assert_eq!("0.00000000", DecimalU64::<U8>::default().to_string());
    assert_eq!("0.0000000", DecimalU64::<U7>::default().to_string());
    assert_eq!("0.000000", DecimalU64::<U6>::default().to_string());
    assert_eq!("0.00000", DecimalU64::<U5>::default().to_string());
    assert_eq!("0.0000", DecimalU64::<U4>::default().to_string());
    assert_eq!("0.000", DecimalU64::<U3>::default().to_string());
    assert_eq!("0.00", DecimalU64::<U2>::default().to_string());
    assert_eq!("0.0", DecimalU64::<U1>::default().to_string());
    assert_eq!("0", DecimalU64::<U0>::default().to_string());
}

#[test]
fn should_create_from_raw() {
    assert_eq!("0.00000123", DecimalU64::<U8>::from_raw(123).to_string());
    assert_eq!("0.0000123", DecimalU64::<U7>::from_raw(123).to_string());
    assert_eq!("123", DecimalU64::<U0>::from_raw(123).to_string());
}

#[test]
fn should_use_constant_zero() {
    assert_eq!("0.00000000", DecimalU64::<U8>::zero().to_string());
    assert_eq!("0.0000000", DecimalU64::<U7>::zero().to_string());
    assert_eq!("0.000000", DecimalU64::<U6>::zero().to_string());
    assert_eq!("0.00000", DecimalU64::<U5>::zero().to_string());
    assert_eq!("0.0000", DecimalU64::<U4>::zero().to_string());
    assert_eq!("0.000", DecimalU64::<U3>::zero().to_string());
    assert_eq!("0.00", DecimalU64::<U2>::zero().to_string());
    assert_eq!("0.0", DecimalU64::<U1>::zero().to_string());
    assert_eq!("0", DecimalU64::<U0>::zero().to_string());
}

#[test]
fn should_use_constant_one() {
    assert_eq!("1.00000000", DecimalU64::<U8>::one().to_string());
    assert_eq!("1.0000000", DecimalU64::<U7>::one().to_string());
    assert_eq!("1.000000", DecimalU64::<U6>::one().to_string());
    assert_eq!("1.00000", DecimalU64::<U5>::one().to_string());
    assert_eq!("1.0000", DecimalU64::<U4>::one().to_string());
    assert_eq!("1.000", DecimalU64::<U3>::one().to_string());
    assert_eq!("1.00", DecimalU64::<U2>::one().to_string());
    assert_eq!("1.0", DecimalU64::<U1>::one().to_string());
    assert_eq!("1", DecimalU64::<U0>::one().to_string());
}

#[test]
fn should_use_constant_three() {
    assert_eq!("3.00000000", DecimalU64::<U8>::three().to_string());
    assert_eq!("3.0000000", DecimalU64::<U7>::three().to_string());
    assert_eq!("3.000000", DecimalU64::<U6>::three().to_string());
    assert_eq!("3.00000", DecimalU64::<U5>::three().to_string());
    assert_eq!("3.0000", DecimalU64::<U4>::three().to_string());
    assert_eq!("3.000", DecimalU64::<U3>::three().to_string());
    assert_eq!("3.00", DecimalU64::<U2>::three().to_string());
    assert_eq!("3.0", DecimalU64::<U1>::three().to_string());
    assert_eq!("3", DecimalU64::<U0>::three().to_string());
}

#[test]
fn should_use_constant_max() {
    assert_eq!("184467440737.09551615", DecimalU64::<U8>::max().to_string());
    assert_eq!("1844674407370.9551615", DecimalU64::<U7>::max().to_string());
    assert_eq!("18446744073709.551615", DecimalU64::<U6>::max().to_string());
    assert_eq!("184467440737095.51615", DecimalU64::<U5>::max().to_string());
    assert_eq!("1844674407370955.1615", DecimalU64::<U4>::max().to_string());
    assert_eq!("18446744073709551.615", DecimalU64::<U3>::max().to_string());
    assert_eq!("184467440737095516.15", DecimalU64::<U2>::max().to_string());
    assert_eq!("1844674407370955161.5", DecimalU64::<U1>::max().to_string());
    assert_eq!("18446744073709551615", DecimalU64::<U0>::max().to_string());
}

#[test]
fn named_values_are_multiples_of_the_scale_factor() {
    assert_eq!(0, DecimalU64::<U4>::zero().raw());
    assert_eq!(10_000, DecimalU64::<U4>::one().raw());
    assert_eq!(20_000, DecimalU64::<U4>::two().raw());
    assert_eq!(30_000, DecimalU64::<U4>::three().raw());
    assert_eq!(40_000, DecimalU64::<U4>::four().raw());
    assert_eq!(50_000, DecimalU64::<U4>::five().raw());
    assert_eq!(60_000, DecimalU64::<U4>::six().raw());
    assert_eq!(70_000, DecimalU64::<U4>::seven().raw());
    assert_eq!(80_000, DecimalU64::<U4>::eight().raw());
    assert_eq!(90_000, DecimalU64::<U4>::nine().raw());
    assert_eq!(100_000, DecimalU64::<U4>::ten().raw());
    assert_eq!(1_000_000_000, DecimalU64::<U8>::ten().raw());
    assert_eq!(10, DecimalU64::<U0>::ten().raw());
    assert_eq!(u64::MAX, DecimalU64::<U4>::max().raw());
}

#[test]
fn every_scale_has_eight_bytes() {
    assert_eq!(8, std::mem::size_of::<DecimalU64<U0>>());
    assert_eq!(8, std::mem::size_of::<DecimalU64<U1>>());
    assert_eq!(8, std::mem::size_of::<DecimalU64<U2>>());
    assert_eq!(8, std::mem::size_of::<DecimalU64<U3>>());
    assert_eq!(8, std::mem::size_of::<DecimalU64<U4>>());
    assert_eq!(8, std::mem::size_of::<DecimalU64<U5>>());
    assert_eq!(8, std::mem::size_of::<DecimalU64<U6>>());
    assert_eq!(8, std::mem::size_of::<DecimalU64<U7>>());
    assert_eq!(8, std::mem::size_of::<DecimalU64<U8>>());
}

#[test]
fn raw_gives_back_what_from_raw_took() {
    assert_eq!(0, DecimalU64::<U8>::from_raw(0).raw());
    assert_eq!(12345, DecimalU64::<U3>::from_raw(12345).raw());
    assert_eq!(u64::MAX, DecimalU64::<U0>::from_raw(u64::MAX).raw());
    assert_eq!(12345, DecimalU64::<U3>::from_raw(12345).unscaled);
}

#[test]
fn split_at_every_scale() {
    assert_eq!((123456789, 0), DecimalU64::<U0>::from_raw(123456789).split());
    assert_eq!((12345678, 9), DecimalU64::<U1>::from_raw(123456789).split());
    assert_eq!((1234, 56789), DecimalU64::<U5>::from_raw(123456789).split());
    assert_eq!((1, 23456789), DecimalU64::<U8>::from_raw(123456789).split());
    assert_eq!((184467440737, 9551615), DecimalU64::<U8>::max().split());
}

#[test]
fn write_to_leaves_the_rest_of_the_buffer() {
    let mut buf = [b'x'; 16];
    let len = DecimalU64::<U2>::from_raw(1205).write_to(&mut buf);
    assert_eq!(5, len);
    assert_eq!(b"12.05xxxxxxxxxxx", &buf);
}

#[test]
fn write_to_fills_a_buffer_of_the_exact_length() {
    let mut buf = [0u8; 21];
    let len = DecimalU64::<U8>::max().write_to(&mut buf);
    assert_eq!(21, len);
    assert_eq!(b"184467440737.09551615", &buf);
    let mut one = [0u8; 1];
    assert_eq!(1, DecimalU64::<U0>::zero().write_to(&mut one));
    assert_eq!(b"0", &one);
}

#[test]
fn fraction_is_padded_on_the_left() {
    assert_eq!("0.00000001", DecimalU64::<U8>::from_raw(1).to_string());
    assert_eq!("0.01000000", DecimalU64::<U8>::from_raw(1_000_000).to_string());
    assert_eq!("7.0", DecimalU64::<U1>::from_raw(70).to_string());
    assert_eq!("1000.001", DecimalU64::<U3>::from_raw(1_000_001).to_string());
}

#[test]
fn empty_text_is_zero() {
    assert_eq!(0, DecimalU64::<U8>::from_str("").unwrap().unscaled);
    assert_eq!(0, DecimalU64::<U0>::try_from("".as_bytes()).unwrap().unscaled);
    assert_eq!(0, DecimalU64::<U3>::from_str(".").unwrap().unscaled);
}

#[test]
fn leading_zeros_are_read() {
    assert_eq!(700, DecimalU64::<U2>::from_str("007").unwrap().unscaled);
    assert_eq!(50, DecimalU64::<U2>::from_str(".5").unwrap().unscaled);
    assert_eq!(
        1,
        DecimalU64::<U0>::from_str("0000000000000000000000000000000001").unwrap().unscaled
    );
}

#[test]
fn a_second_separator_changes_nothing() {
    assert_eq!(123, DecimalU64::<U2>::from_str("1.2.3").unwrap().unscaled);
    assert_eq!(1200, DecimalU64::<U3>::from_str("1..2").unwrap().unscaled);
    assert!(DecimalU64::<U1>::from_str("1.2.3").is_err());
}

#[test]
fn sign_is_an_invalid_character() {
    match DecimalU64::<U8>::from_str("-1") {
        Err(Error::InvalidCharacterInput(c)) => assert_eq!('-', c),
        _ => panic!("a sign is not part of a literal"),
    }
    match DecimalU64::<U8>::from_str("+1") {
        Err(Error::InvalidCharacterInput(c)) => assert_eq!('+', c),
        _ => panic!("a sign is not part of a literal"),
    }
}

#[test]
fn invalid_character_is_reported() {
    match DecimalU64::<U8>::from_str("12a4") {
        Err(Error::InvalidCharacterInput(c)) => assert_eq!('a', c),
        _ => panic!("a letter is not part of a literal"),
    }
    match DecimalU64::<U8>::try_from(&[b'1', b' ', b'2'][..]) {
        Err(Error::InvalidCharacterInput(c)) => assert_eq!(' ', c),
        _ => panic!("a blank is not part of a literal"),
    }
    match DecimalU64::<U8>::try_from(&[b'/'][..]) {
        Err(Error::InvalidCharacterInput(c)) => assert_eq!('/', c),
        _ => panic!("the byte before the digits is not a digit"),
    }
    match DecimalU64::<U8>::try_from(&[b':'][..]) {
        Err(Error::InvalidCharacterInput(c)) => assert_eq!(':', c),
        _ => panic!("the byte behind the digits is not a digit"),
    }
    let err = DecimalU64::<U8>::from_str("1,5").unwrap_err();
    assert_eq!("invalid character in input: ,", err.to_string());
}

#[test]
fn byte_above_ascii_is_reported_as_its_character() {
    match DecimalU64::<U8>::try_from(&[b'1', 0xe9][..]) {
        Err(Error::InvalidCharacterInput(c)) => assert_eq!('\u{e9}', c),
        _ => panic!("a byte above ASCII is not part of a literal"),
    }
}

#[test]
fn first_failure_decides() {
    // The number outgrows 64 bits before the scan reaches the letter.
    match DecimalU64::<U0>::from_str("18446744073709551616x") {
        Err(Error::Overflow(text)) => assert_eq!("18446744073709551616x", text),
        _ => panic!("the number does not fit"),
    }
    // The letter comes first.
    match DecimalU64::<U0>::from_str("1x8446744073709551616") {
        Err(Error::InvalidCharacterInput(c)) => assert_eq!('x', c),
        _ => panic!("the letter comes first"),
    }
}

#[test]
fn overflow_boundary() {
    assert_eq!(
        u64::MAX,
        DecimalU64::<U8>::from_str("184467440737.09551615").unwrap().unscaled
    );
    assert!(matches!(
        DecimalU64::<U8>::from_str("184467440737.09551616"),
        Err(Error::Overflow(_))
    ));
    assert_eq!(u64::MAX, DecimalU64::<U0>::from_str("18446744073709551615").unwrap().unscaled);
    assert!(matches!(
        DecimalU64::<U0>::from_str("18446744073709551616"),
        Err(Error::Overflow(_))
    ));
}

#[test]
fn overflow_when_shifted_to_the_scale() {
    // The digits fit, the value at scale 8 does not.
    match DecimalU64::<U8>::from_str("184467440738") {
        Err(Error::Overflow(text)) => assert_eq!("184467440738", text),
        _ => panic!("the value does not fit at this scale"),
    }
    assert_eq!(
        18446744073700000000,
        DecimalU64::<U8>::from_str("184467440737").unwrap().unscaled
    );
}

#[test]
fn too_many_fraction_digits_is_overflow() {
    match DecimalU64::<U2>::from_str("123.456") {
        Err(Error::Overflow(text)) => assert_eq!("123.456", text),
        _ => panic!("three fractional digits do not fit a scale of two"),
    }
    assert!(matches!(DecimalU64::<U0>::from_str("1.0"), Err(Error::Overflow(_))));
    assert!(matches!(DecimalU64::<U8>::from_str("0.000000000"), Err(Error::Overflow(_))));
}

#[test]
fn many_fraction_digits_are_counted() {
    let mut text = String::from("0.");
    for _ in 0..256 {
        text.push('0');
    }
    assert!(matches!(DecimalU64::<U8>::from_str(&text), Err(Error::Overflow(_))));
}

#[test]
fn overflow_text_of_bytes_that_are_no_text() {
    let mut bytes = Vec::new();
    bytes.extend_from_slice(b"99999999999999999999");
    bytes.push(0xff);
    match DecimalU64::<U0>::try_from(&bytes[..]) {
        Err(Error::Overflow(text)) => assert_eq!("99999999999999999999\u{fffd}", text),
        _ => panic!("the number does not fit"),
    }
}

#[test]
fn error_messages() {
    assert_eq!(
        "invalid character in input: x",
        Error::InvalidCharacterInput('x').to_string()
    );
    assert_eq!("overflow: 1.234", Error::Overflow(String::from("1.234")).to_string());
    assert_eq!("overflow: ", Error::Overflow(String::new()).to_string());
}

#[test]
fn round_trip_pads_the_fraction() {
    assert_eq!("123.45000000", DecimalU64::<U8>::from_str("123.45").unwrap().to_string());
    assert_eq!("123.000", DecimalU64::<U3>::from_str("123").unwrap().to_string());
    assert_eq!("123.000", DecimalU64::<U3>::from_str("123.").unwrap().to_string());
    assert_eq!("7.50", DecimalU64::<U2>::from_str("007.5").unwrap().to_string());
    assert_eq!("42", DecimalU64::<U0>::from_str("42").unwrap().to_string());
}

#[test]
fn text_of_a_value_reads_back_as_the_value() {
    for raw in [0u64, 1, 9, 10, 99, 100, 12345, 100_000_000, 99_999_999, u64::MAX - 1, u64::MAX] {
        let text = DecimalU64::<U8>::from_raw(raw).to_string();
        assert_eq!(raw, DecimalU64::<U8>::from_str(&text).unwrap().raw());
        let text = DecimalU64::<U0>::from_raw(raw).to_string();
        assert_eq!(raw, DecimalU64::<U0>::from_str(&text).unwrap().raw());
        let text = DecimalU64::<U3>::from_raw(raw).to_string();
        assert_eq!(raw, DecimalU64::<U3>::from_str(&text).unwrap().raw());
    }
}

#[test]
fn values_compare_as_their_unscaled_integers() {
    let small = DecimalU64::<U2>::from_raw(199);
    let large = DecimalU64::<U2>::from_raw(200);
    assert!(small < large);
    assert!(large > small);
    assert!(small <= small);
    assert!(small != large);
    assert_eq!(small, DecimalU64::<U2>::from_raw(199));
    assert_eq!(std::cmp::Ordering::Less, small.cmp(&large));
    assert_eq!(Some(std::cmp::Ordering::Greater), large.partial_cmp(&small));
    assert_eq!(large, small.max(large));
}

#[test]
fn values_are_copied() {
    let a = DecimalU64::<U2>::from_raw(5);
    let b = a;
    let c = a.clone();
    assert_eq!(a, b);
    assert_eq!(a, c);
}
