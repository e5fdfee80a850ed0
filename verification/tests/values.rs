use substreams_database_change::scalar::{BigDecimal, BigInt, Hex, Timestamp};
use substreams_database_change::tables::ToDatabaseValue;

fn big_int(signed_bytes_be: &[u8]) -> BigInt {
    BigInt {
        signed_bytes_be: signed_bytes_be.to_vec(),
    }
}

fn big_decimal(digits: &[u8], exp: i64) -> BigDecimal {
    BigDecimal {
        digits: big_int(digits),
        exp,
    }
}

#[test]
fn to_database_value_proto_timestamp() {
    assert_eq!(
        ToDatabaseValue::to_value(Timestamp {
            seconds: 60 * 60 + 60 + 1,
            nanos: 1
        }),
        "1970-01-01T01:01:01.000000001Z"
    );
}

#[test]
fn timestamps() {
    let text = |seconds: i64, nanos: i32| (&Timestamp { seconds, nanos }).to_value();
    assert_eq!(text(0, 0), "1970-01-01T00:00:00Z");
    assert_eq!(text(-1, 500_000_000), "1969-12-31T23:59:59.500Z");
    assert_eq!(text(951_782_400, 1_000), "2000-02-29T00:00:00.000001Z");
    assert_eq!(text(0, -1), "1969-12-31T23:59:59.999999999Z");
    assert_eq!(text(i64::MAX, i32::MAX), "+292277026596-12-04T15:30:07.999999999Z");
    assert_eq!(text(i64::MIN, i32::MIN), "-292277022657-01-27T08:29:52Z");
}

#[test]
fn integers() {
    assert_eq!(0i8.to_value(), "0");
    assert_eq!(i8::MIN.to_value(), "-128");
    assert_eq!(i8::MAX.to_value(), "127");
    assert_eq!(i16::MIN.to_value(), "-32768");
    assert_eq!((-10i32).to_value(), "-10");
    assert_eq!(i32::MAX.to_value(), "2147483647");
    assert_eq!(i64::MIN.to_value(), "-9223372036854775808");
    assert_eq!(i64::MAX.to_value(), "9223372036854775807");
    assert_eq!(9u8.to_value(), "9");
    assert_eq!(10u16.to_value(), "10");
    assert_eq!(1_002_003u32.to_value(), "1002003");
    assert_eq!(u64::MAX.to_value(), "18446744073709551615");
    for n in 0u16..2000 {
        assert_eq!(n.to_value(), n.to_string());
        assert_eq!((-(n as i16)).to_value(), (-(n as i16)).to_string());
    }
}

#[test]
fn booleans_and_texts() {
    assert_eq!(true.to_value(), "true");
    assert_eq!(false.to_value(), "false");
    assert_eq!("a b".to_value(), "a b");
    assert_eq!("a b".to_string().to_value(), "a b");
    assert_eq!((&"a b".to_string()).to_value(), "a b");
}

#[test]
fn bytes_in_hexadecimal() {
    assert_eq!(vec![0xabu8, 0x01, 0xff].to_value(), "ab01ff");
    assert_eq!((&vec![0x00u8, 0x9a]).to_value(), "009a");
    assert_eq!(Vec::<u8>::new().to_value(), "");
    assert_eq!(Hex(vec![0xabu8, 0xcd]).to_value(), "abcd");
    assert_eq!((&Hex(vec![0xabu8, 0xcd])).to_value(), "abcd");
    assert_eq!(Hex(&vec![0x10u8]).to_value(), "10");
    assert_eq!(Hex([0x0fu8, 0xf0]).to_value(), "0ff0");
    assert_eq!(Hex(&[0x0fu8, 0xf0]).to_value(), "0ff0");
    assert_eq!(Hex(&[0x0fu8, 0xf0][..]).to_value(), "0ff0");
    assert_eq!((&Hex([0u8; 0])).to_value(), "");
    assert_eq!(Hex("az").to_value(), "617a");
    assert_eq!(Hex("\u{e9}".to_string()).to_value(), "c3a9");
    assert_eq!(Hex(&"az".to_string()).to_value(), "617a");
    assert_eq!(Hex(&&[0x0fu8]).to_value(), "0f");
    assert_eq!(Hex(vec![0x0fu8].into_boxed_slice()).to_value(), "0f");
    assert_eq!(Hex(std::rc::Rc::<[u8]>::from(vec![0x0f])).to_value(), "0f");
    assert_eq!(Hex(std::sync::Arc::<[u8]>::from(vec![0x0f])).to_value(), "0f");
    let owned: std::borrow::Cow<'_, [u8]> = std::borrow::Cow::Owned(vec![0x0f]);
    assert_eq!(Hex(owned).to_value(), "0f");
    let all: Vec<u8> = (0..=255).collect();
    let text: String = all.iter().map(|byte| format!("{:02x}", byte)).collect();
    assert_eq!((&all).to_value(), text);
    assert_eq!(Hex(all).to_value(), text);
}

#[test]
fn big_integers() {
    assert_eq!(big_int(&[]).to_value(), "0");
    assert_eq!(big_int(&[0]).to_value(), "0");
    assert_eq!(big_int(&[42]).to_value(), "42");
    assert_eq!((&big_int(&[42])).to_value(), "42");
    assert_eq!(big_int(&[0x7f]).to_value(), "127");
    assert_eq!(big_int(&[0x80]).to_value(), "-128");
    assert_eq!(big_int(&[0xff]).to_value(), "-1");
    assert_eq!(big_int(&[0xff, 0xff, 0xff]).to_value(), "-1");
    assert_eq!(big_int(&[0x00, 0xff]).to_value(), "255");
    assert_eq!(big_int(&[0x01, 0x00]).to_value(), "256");
    assert_eq!(big_int(&[0xff, 0x00]).to_value(), "-256");
    assert_eq!(
        big_int(&[1, 0, 0, 0, 0, 0, 0, 0, 0]).to_value(),
        "18446744073709551616"
    );
}

#[test]
fn big_decimals() {
    assert_eq!(big_decimal(&[42], 0).to_value(), "42");
    assert_eq!((&big_decimal(&[42], 0)).to_value(), "42");
    assert_eq!(big_decimal(&[42], 3).to_value(), "42000");
    assert_eq!(big_decimal(&[42], -1).to_value(), "4.2");
    assert_eq!(big_decimal(&[42], -2).to_value(), "0.42");
    assert_eq!(big_decimal(&[42], -4).to_value(), "0.0042");
    assert_eq!(big_decimal(&[0xd6], -1).to_value(), "-4.2");
    assert_eq!(big_decimal(&[0xd6], -3).to_value(), "-0.042");
    assert_eq!(big_decimal(&[0xd6], 2).to_value(), "-4200");
    assert_eq!(big_decimal(&[10], -1).to_value(), "1.0");
    assert_eq!(big_decimal(&[], 0).to_value(), "0");
    assert_eq!(big_decimal(&[], 2).to_value(), "000");
    assert_eq!(big_decimal(&[], -2).to_value(), "0.00");
}

#[test]
fn values_of_other_crates() {
    let number = substreams::scalar::BigInt::from(-123456789);
    assert_eq!(big_int(&number.to_signed_bytes_be()).to_value(), number.to_string());

    let fraction = substreams::scalar::BigDecimal::try_from("-12.5").unwrap();
    let (digits, scale) = fraction.as_bigint_and_exponent();
    assert_eq!(
        big_decimal(&digits.to_signed_bytes_be(), -scale).to_value(),
        fraction.to_string()
    );

    let time = prost_types::Timestamp {
        seconds: 1_700_000_000,
        nanos: 250_000_000,
    };
    assert_eq!(
        Timestamp {
            seconds: time.seconds,
            nanos: time.nanos
        }
        .to_value(),
        time.to_string()
    );
}
