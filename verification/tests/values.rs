use bdat_toolset::text::{
    ascii_bytes, check_real_literal, parse_hash, parse_percent, parse_signed, parse_unsigned,
    render_signed, render_unsigned,
};
use bdat_toolset::value::{Value, ValueType};

fn all_types() -> Vec<ValueType> {
    vec![
        ValueType::Unknown,
        ValueType::UnsignedByte,
        ValueType::UnsignedShort,
        ValueType::UnsignedInt,
        ValueType::SignedByte,
        ValueType::SignedShort,
        ValueType::SignedInt,
        ValueType::String,
        ValueType::Float,
        ValueType::HashRef,
        ValueType::Percent,
        ValueType::DebugString,
        ValueType::Unknown2,
        ValueType::Unknown3,
    ]
}

#[test]
fn types_are_numbered_in_order() {
    for (code, value_type) in all_types().into_iter().enumerate() {
        assert_eq!(value_type.code() as usize, code);
        assert_eq!(ValueType::from_code(code as u8), Some(value_type));
    }
    assert_eq!(ValueType::from_code(14), None);
    assert_eq!(ValueType::from_code(255), None);
}

#[test]
fn types_are_named_by_their_variant() {
    let names = [
        "Unknown",
        "UnsignedByte",
        "UnsignedShort",
        "UnsignedInt",
        "SignedByte",
        "SignedShort",
        "SignedInt",
        "String",
        "Float",
        "HashRef",
        "Percent",
        "DebugString",
        "Unknown2",
        "Unknown3",
    ];
    for (value_type, name) in all_types().into_iter().zip(names) {
        assert_eq!(value_type.name(), name);
    }
}

#[test]
fn unsigned_numbers_are_written_in_decimal() {
    assert_eq!(render_unsigned(0), "0");
    assert_eq!(render_unsigned(7), "7");
    assert_eq!(render_unsigned(10), "10");
    assert_eq!(render_unsigned(4_294_967_295), "4294967295");
    assert_eq!(render_unsigned(u64::MAX), "18446744073709551615");
}

#[test]
fn signed_numbers_are_written_with_their_sign() {
    assert_eq!(render_signed(0), "0");
    assert_eq!(render_signed(-1), "-1");
    assert_eq!(render_signed(-2_147_483_648), "-2147483648");
    assert_eq!(render_signed(i64::MIN), "-9223372036854775808");
    assert_eq!(render_signed(i64::MAX), "9223372036854775807");
}

#[test]
fn unsigned_literals_are_digits_within_the_range() {
    assert_eq!(parse_unsigned("0", 255), Some(0));
    assert_eq!(parse_unsigned("255", 255), Some(255));
    assert_eq!(parse_unsigned("256", 255), None);
    assert_eq!(parse_unsigned("007", 255), Some(7));
    assert_eq!(parse_unsigned("", 255), None);
    assert_eq!(parse_unsigned("+1", 255), None);
    assert_eq!(parse_unsigned("-1", 255), None);
    assert_eq!(parse_unsigned("1 ", 255), None);
    assert_eq!(parse_unsigned("1a", 255), None);
    assert_eq!(parse_unsigned("١", 255), None);
    assert_eq!(parse_unsigned("18446744073709551615", u64::MAX), Some(u64::MAX));
    assert_eq!(parse_unsigned("18446744073709551616", u64::MAX), None);
    assert_eq!(parse_unsigned("99999999999999999999999999", u64::MAX), None);
}

#[test]
fn signed_literals_may_start_with_a_minus() {
    assert_eq!(parse_signed("-128", 128, 127), Some(-128));
    assert_eq!(parse_signed("-129", 128, 127), None);
    assert_eq!(parse_signed("127", 128, 127), Some(127));
    assert_eq!(parse_signed("128", 128, 127), None);
    assert_eq!(parse_signed("-0", 128, 127), Some(0));
    assert_eq!(parse_signed("-", 128, 127), None);
    assert_eq!(parse_signed("", 128, 127), None);
    assert_eq!(parse_signed("--1", 128, 127), None);
    assert_eq!(parse_signed("+1", 128, 127), None);
    assert_eq!(parse_signed("-é", 128, 127), None);
    assert_eq!(
        parse_signed("-9223372036854775808", 0x8000_0000_0000_0000, 0x7fff_ffff_ffff_ffff),
        Some(i64::MIN)
    );
}

#[test]
fn hashes_are_eight_digits_in_brackets_or_up_to_eight_without() {
    assert_eq!(parse_hash("<0000ABCD>"), Some(0xABCD));
    assert_eq!(parse_hash("<0000abcd>"), Some(0xABCD));
    assert_eq!(parse_hash("<FFFFFFFF>"), Some(0xFFFF_FFFF));
    assert_eq!(parse_hash("ABCD"), Some(0xABCD));
    assert_eq!(parse_hash("0"), Some(0));
    assert_eq!(parse_hash("ffffffff"), Some(0xFFFF_FFFF));
    assert_eq!(parse_hash("123456789"), None);
    assert_eq!(parse_hash(""), None);
    assert_eq!(parse_hash("<ABCD>"), None);
    assert_eq!(parse_hash("<0000ABCD"), None);
    assert_eq!(parse_hash("<0000ABCG>"), None);
    assert_eq!(parse_hash("<+000ABCD>"), None);
    assert_eq!(parse_hash("<0000ABCDx"), None);
    assert_eq!(parse_hash("<aaaaaaaé"), None);
}

#[test]
fn percentages_may_end_with_a_percent_sign() {
    assert_eq!(parse_percent("50"), Some(50));
    assert_eq!(parse_percent("50%"), Some(50));
    assert_eq!(parse_percent("255%"), Some(255));
    assert_eq!(parse_percent("256%"), None);
    assert_eq!(parse_percent("%"), None);
    assert_eq!(parse_percent(""), None);
    assert_eq!(parse_percent("50%%"), None);
    assert_eq!(parse_percent("5 %"), None);
}

#[test]
fn real_literals_have_digits_on_both_sides_of_the_point() {
    for good in ["0", "1", "-1", "1.5", "-0.25", "100000000000000000000", "0.000001", "-0"] {
        assert!(check_real_literal(good), "{}", good);
    }
    for bad in ["", "-", ".", "1.", ".5", "-.5", "1e5", "inf", "NaN", "+1", "1.2.3", " 1", "1,5", "１"]
    {
        assert!(!check_real_literal(bad), "{}", bad);
    }
}

#[test]
fn ascii_bytes_are_given_for_ascii_text_only() {
    assert_eq!(ascii_bytes("a<1"), Some(&[97u8, 60, 49][..]));
    assert_eq!(ascii_bytes(""), Some(&[][..]));
    assert_eq!(ascii_bytes("é"), None);
}

#[test]
fn fields_are_read_by_the_type_of_their_column() {
    assert_eq!(Value::coerce("", ValueType::Unknown), Some(Value::Unknown));
    assert_eq!(Value::coerce("x", ValueType::Unknown), None);
    assert_eq!(Value::coerce("255", ValueType::UnsignedByte), Some(Value::UnsignedByte(255)));
    assert_eq!(Value::coerce("256", ValueType::UnsignedByte), None);
    assert_eq!(Value::coerce("65535", ValueType::UnsignedShort), Some(Value::UnsignedShort(65535)));
    assert_eq!(Value::coerce("65536", ValueType::UnsignedShort), None);
    assert_eq!(
        Value::coerce("4294967295", ValueType::UnsignedInt),
        Some(Value::UnsignedInt(4_294_967_295))
    );
    assert_eq!(Value::coerce("4294967296", ValueType::UnsignedInt), None);
    assert_eq!(Value::coerce("-128", ValueType::SignedByte), Some(Value::SignedByte(-128)));
    assert_eq!(Value::coerce("128", ValueType::SignedByte), None);
    assert_eq!(Value::coerce("-32768", ValueType::SignedShort), Some(Value::SignedShort(-32768)));
    assert_eq!(Value::coerce("32768", ValueType::SignedShort), None);
    assert_eq!(
        Value::coerce("-2147483648", ValueType::SignedInt),
        Some(Value::SignedInt(-2_147_483_648))
    );
    assert_eq!(Value::coerce("2147483647", ValueType::SignedInt), Some(Value::SignedInt(2_147_483_647)));
    assert_eq!(Value::coerce("2147483648", ValueType::SignedInt), None);
    assert_eq!(Value::coerce("1", ValueType::SignedInt), Some(Value::SignedInt(1)));
    assert_eq!(Value::coerce("Alice", ValueType::SignedInt), None);
    assert_eq!(Value::coerce("Alice", ValueType::String), Some(Value::String("Alice".to_string())));
    assert_eq!(Value::coerce("", ValueType::String), Some(Value::String(String::new())));
    assert_eq!(Value::coerce("1.5", ValueType::Float), Some(Value::Float("1.5".to_string())));
    assert_eq!(Value::coerce("one", ValueType::Float), None);
    assert_eq!(Value::coerce("<DEADBEEF>", ValueType::HashRef), Some(Value::HashRef(0xDEAD_BEEF)));
    assert_eq!(Value::coerce("beef", ValueType::HashRef), Some(Value::HashRef(0xBEEF)));
    assert_eq!(Value::coerce("row", ValueType::HashRef), None);
    assert_eq!(Value::coerce("75%", ValueType::Percent), Some(Value::Percent(75)));
    assert_eq!(Value::coerce("75", ValueType::Percent), Some(Value::Percent(75)));
    assert_eq!(Value::coerce("300%", ValueType::Percent), None);
    assert_eq!(
        Value::coerce("dbg", ValueType::DebugString),
        Some(Value::DebugString("dbg".to_string()))
    );
    assert_eq!(Value::coerce("12", ValueType::Unknown2), Some(Value::Unknown2(12)));
    assert_eq!(Value::coerce("1200", ValueType::Unknown2), None);
    assert_eq!(Value::coerce("1200", ValueType::Unknown3), Some(Value::Unknown3(1200)));
    assert_eq!(Value::coerce("120000", ValueType::Unknown3), None);
}

fn samples() -> Vec<Value> {
    vec![
        Value::Unknown,
        Value::UnsignedByte(0),
        Value::UnsignedByte(255),
        Value::UnsignedShort(65535),
        Value::UnsignedInt(4_294_967_295),
        Value::SignedByte(-128),
        Value::SignedByte(127),
        Value::SignedShort(-32768),
        Value::SignedInt(-2_147_483_648),
        Value::SignedInt(2_147_483_647),
        Value::String("Alice".to_string()),
        Value::String("<0000ABCD>".to_string()),
        Value::Float("-0.25".to_string()),
        Value::HashRef(0),
        Value::HashRef(0xDEAD_BEEF),
        Value::Percent(100),
        Value::DebugString(String::new()),
        Value::Unknown2(9),
        Value::Unknown3(40000),
    ]
}

#[test]
fn values_are_written_as_their_fields() {
    let fields = [
        "", "0", "255", "65535", "4294967295", "-128", "127", "-32768", "-2147483648",
        "2147483647", "Alice", "<0000ABCD>", "-0.25", "<00000000>", "<DEADBEEF>", "100%", "", "9",
        "40000",
    ];
    for (value, field) in samples().into_iter().zip(fields) {
        assert_eq!(value.to_text(), field);
    }
}

#[test]
fn a_written_value_reads_back() {
    for value in samples() {
        let field = value.to_text();
        assert_eq!(Value::coerce(&field, value.value_type()), Some(value));
    }
}

#[test]
fn a_value_knows_its_type() {
    assert_eq!(Value::Unknown.value_type(), ValueType::Unknown);
    assert_eq!(Value::SignedInt(1).value_type(), ValueType::SignedInt);
    assert_eq!(Value::String("x".to_string()).value_type(), ValueType::String);
    assert_eq!(Value::Float("1".to_string()).value_type(), ValueType::Float);
    assert_eq!(Value::HashRef(1).value_type(), ValueType::HashRef);
    assert_eq!(Value::Unknown3(1).value_type(), ValueType::Unknown3);
    for value in samples() {
        assert_eq!(value.clone(), value);
    }
}
