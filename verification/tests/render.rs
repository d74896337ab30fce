use pagestore::data::_type::Type;
use pagestore::storage::line::Line;
use pagestore::storage::value::Value;

#[test]
fn test_unsigned_renderings() {
    assert_eq!(Value::UInt8([0]).to_string(), "0");
    assert_eq!(Value::UInt8([255]).to_string(), "255");
    assert_eq!(Value::UInt16(300u16.to_be_bytes()).to_string(), "300");
    assert_eq!(Value::UInt32(4294967295u32.to_be_bytes()).to_string(), "4294967295");
    assert_eq!(Value::UInt64(10u64.to_be_bytes()).to_string(), "10");
    assert_eq!(
        Value::UInt128(u128::MAX.to_be_bytes()).to_string(),
        "340282366920938463463374607431768211455"
    );
}

#[test]
fn test_signed_renderings() {
    assert_eq!(Value::Int8(0i8.to_be_bytes()).to_string(), "0");
    assert_eq!(Value::Int8((-1i8).to_be_bytes()).to_string(), "-1");
    assert_eq!(Value::Int8(i8::MIN.to_be_bytes()).to_string(), "-128");
    assert_eq!(Value::Int8(i8::MAX.to_be_bytes()).to_string(), "127");
    assert_eq!(Value::Int16((-32768i16).to_be_bytes()).to_string(), "-32768");
    assert_eq!(Value::Int32((-2147483648i32).to_be_bytes()).to_string(), "-2147483648");
    assert_eq!(Value::Int64(i64::MIN.to_be_bytes()).to_string(), "-9223372036854775808");
    assert_eq!(
        Value::Int128(i128::MIN.to_be_bytes()).to_string(),
        "-170141183460469231731687303715884105728"
    );
    assert_eq!(Value::Int128(i128::MAX.to_be_bytes()).to_string(),
        "170141183460469231731687303715884105727"
    );
}

#[test]
fn test_bool_renderings() {
    assert_eq!(Value::Bool([0]).to_string(), "false");
    assert_eq!(Value::Bool([1]).to_string(), "true");
    assert_eq!(Value::Bool([255]).to_string(), "true");
}

#[test]
fn test_text_renderings() {
    assert_eq!(Value::String("hello".as_bytes().to_vec()).to_string(), "hello");
    assert_eq!(Value::String(Vec::new()).to_string(), "");
    // Trailing zero bytes are padding and stay out of the rendering.
    assert_eq!(Value::String(vec![b'h', b'i', 0, 0]).to_string(), "hi");
    // An interior zero byte is data, not padding.
    assert_eq!(Value::String(vec![b'a', 0, b'b']).to_string(), "a\u{0}b");
    // Invalid UTF-8 is replaced, not echoed back byte for byte.
    assert_eq!(Value::String(vec![0xFF, b'(']).to_string(), "\u{FFFD}(");
}

#[test]
fn test_type_sizes() {
    assert_eq!(Type::UInt8.size_in_bits(), 8);
    assert_eq!(Type::UInt16.size_in_bits(), 16);
    assert_eq!(Type::UInt32.size_in_bits(), 32);
    assert_eq!(Type::UInt64.size_in_bits(), 64);
    assert_eq!(Type::UInt128.size_in_bits(), 128);
    assert_eq!(Type::Int128.size_in_bits(), 128);
    assert_eq!(Type::String(255).size_in_bits(), 2040);
    assert_eq!(Type::String(10000).size_in_bits(), 80000);
    assert_eq!(Type::Bool.size_in_bits(), 1);

    assert_eq!(Type::UInt128.size_in_bytes(), 16);
    assert_eq!(Type::String(255).size_in_bytes(), 255);
    assert_eq!(Type::Bool.size_in_bytes(), 1);
}

#[test]
fn test_line_rendering() {
    let empty = Line::new();
    assert_eq!(empty.to_string(), "{}");

    let mut one = Line::new();
    one.add_field(String::from("only"), Value::UInt8([3]));
    assert_eq!(one.to_string(), "{only: 3}");

    let mut many = Line::new();
    many.add_field(String::from("a"), Value::UInt8([1]));
    many.add_field(String::from("b"), Value::Bool([0]));
    many.add_field(String::from("c"), Value::String("x".as_bytes().to_vec()));
    assert_eq!(many.to_string(), "{a: 1, b: false, c: x}");
    assert_eq!(many.fields().len(), 3);
}
