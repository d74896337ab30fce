use pagestore::data::_type::Type;
use pagestore::data::object::Object;
use pagestore::storage::line::Line;
use pagestore::storage::page::Page;
use pagestore::storage::page::PageError;
use pagestore::storage::value::Value;

#[test]
fn test_page_write() {
    let mut users = Object::new("users");
    users.add_field(String::from("id"), Type::UInt128);
    users.add_field(String::from("username"), Type::String(255));

    let mut page = Page::new(0, &users, 0);
    let mut data: Vec<u8> = Vec::new();

    let mut line = Line::new();
    let bytes = 1u128.to_be_bytes();
    line.add_field(String::from("id"), Value::UInt128(bytes));
    let bytes = "JohnDoe69420".as_bytes().to_vec();
    line.add_field(String::from("username"), Value::String(bytes));

    println!("Line: {}", page.write(line, &mut data).unwrap());

    println!("Line: {}", page.read(0, &data).unwrap());
}

#[test]
fn test_end_to_end_users() {
    let mut users = Object::new("users");
    users.add_field(String::from("id"), Type::UInt128);
    users.add_field(String::from("username"), Type::String(12));

    let mut page = Page::new(0, &users, 0);
    let mut data: Vec<u8> = Vec::new();

    let mut line = Line::new();
    line.add_field(String::from("id"), Value::UInt128(1u128.to_be_bytes()));
    line.add_field(
        String::from("username"),
        Value::String("JohnDoe69420".as_bytes().to_vec()),
    );

    let written = page.write(line, &mut data).unwrap();
    assert_eq!(data.len(), 28);
    assert_eq!(written, "{id: 1, username: JohnDoe69420}");

    let read_back = page.read(0, &data).unwrap();
    assert_eq!(read_back, "{id: 1, username: JohnDoe69420}");
}

#[test]
fn test_round_trip_numeric() {
    let mut schema = Object::new("numbers");
    schema.add_field(String::from("a"), Type::UInt8);
    schema.add_field(String::from("b"), Type::UInt16);
    schema.add_field(String::from("c"), Type::UInt32);
    schema.add_field(String::from("d"), Type::UInt64);
    schema.add_field(String::from("e"), Type::Int8);
    schema.add_field(String::from("f"), Type::Int16);
    schema.add_field(String::from("g"), Type::Int32);
    schema.add_field(String::from("h"), Type::Int64);
    schema.add_field(String::from("i"), Type::Int128);
    schema.add_field(String::from("j"), Type::Bool);

    let mut page = Page::new(0, &schema, 0);
    let mut data: Vec<u8> = Vec::new();

    let mut line = Line::new();
    line.add_field(String::from("a"), Value::UInt8(255u8.to_be_bytes()));
    line.add_field(String::from("b"), Value::UInt16(65535u16.to_be_bytes()));
    line.add_field(String::from("c"), Value::UInt32(70000u32.to_be_bytes()));
    line.add_field(String::from("d"), Value::UInt64(1u64.to_be_bytes()));
    line.add_field(String::from("e"), Value::Int8((-1i8).to_be_bytes()));
    line.add_field(String::from("f"), Value::Int16((-32768i16).to_be_bytes()));
    line.add_field(String::from("g"), Value::Int32(2147483647i32.to_be_bytes()));
    line.add_field(String::from("h"), Value::Int64((-42i64).to_be_bytes()));
    line.add_field(String::from("i"), Value::Int128((-170141183460469231731687303715884105728i128).to_be_bytes()));
    line.add_field(String::from("j"), Value::Bool([1]));

    let expected = "{a: 255, b: 65535, c: 70000, d: 1, e: -1, f: -32768, g: 2147483647, h: -42, i: -170141183460469231731687303715884105728, j: true}";
    let written = page.write(line, &mut data).unwrap();
    assert_eq!(written, expected);
    let read_back = page.read(0, &data).unwrap();
    assert_eq!(read_back, expected);
}

#[test]
fn test_two_records_consecutive_offsets() {
    let mut schema = Object::new("pair");
    schema.add_field(String::from("x"), Type::UInt16);
    schema.add_field(String::from("y"), Type::UInt8);

    let mut page = Page::new(0, &schema, 0);
    let mut data: Vec<u8> = Vec::new();

    let mut first = Line::new();
    first.add_field(String::from("x"), Value::UInt16(258u16.to_be_bytes()));
    first.add_field(String::from("y"), Value::UInt8(7u8.to_be_bytes()));
    page.write(first, &mut data).unwrap();
    assert_eq!(data.len(), 3);

    let mut second = Line::new();
    second.add_field(String::from("x"), Value::UInt16(515u16.to_be_bytes()));
    second.add_field(String::from("y"), Value::UInt8(9u8.to_be_bytes()));
    page.write(second, &mut data).unwrap();

    // The second record starts exactly one record byte width after the first.
    assert_eq!(data.len(), 6);
    assert_eq!(&data[0..3], &[1, 2, 7]);
    assert_eq!(&data[3..6], &[2, 3, 9]);

    assert_eq!(page.read(0, &data).unwrap(), "{x: 258, y: 7}");
    assert_eq!(page.read(1, &data).unwrap(), "{x: 515, y: 9}");
}

#[test]
fn test_read_out_of_range() {
    let mut schema = Object::new("solo");
    schema.add_field(String::from("x"), Type::UInt8);

    let page = Page::new(0, &schema, 0);
    let data: Vec<u8> = Vec::new();

    assert_eq!(page.read(1, &data), Err(PageError::OutOfRange));
    assert_eq!(page.read(5, &data), Err(PageError::OutOfRange));
}

#[test]
fn test_read_truncated() {
    let mut schema = Object::new("solo");
    schema.add_field(String::from("x"), Type::UInt32);

    let page = Page::new(0, &schema, 1);
    // Only two bytes on hand where the record needs four.
    let data: Vec<u8> = vec![1, 2];

    assert_eq!(page.read(0, &data), Err(PageError::TruncatedRecord));
}

#[test]
fn test_write_value_too_large() {
    let mut schema = Object::new("texts");
    schema.add_field(String::from("t"), Type::String(4));

    let mut page = Page::new(0, &schema, 0);
    let mut data: Vec<u8> = Vec::new();

    let mut line = Line::new();
    line.add_field(String::from("t"), Value::String("too long".as_bytes().to_vec()));

    assert_eq!(page.write(line, &mut data), Err(PageError::ValueTooLarge));
    assert_eq!(page.total(), 0);
    assert!(data.is_empty());
}

#[test]
fn test_write_schema_mismatch() {
    let mut schema = Object::new("typed");
    schema.add_field(String::from("n"), Type::UInt32);

    let mut page = Page::new(0, &schema, 0);
    let mut data: Vec<u8> = Vec::new();

    let mut wrong_variant = Line::new();
    wrong_variant.add_field(String::from("n"), Value::UInt16(5u16.to_be_bytes()));
    assert_eq!(page.write(wrong_variant, &mut data), Err(PageError::SchemaMismatch));

    let mut wrong_count = Line::new();
    wrong_count.add_field(String::from("n"), Value::UInt32(5u32.to_be_bytes()));
    wrong_count.add_field(String::from("m"), Value::UInt32(6u32.to_be_bytes()));
    assert_eq!(page.write(wrong_count, &mut data), Err(PageError::SchemaMismatch));

    assert_eq!(page.total(), 0);
    assert!(data.is_empty());
}

#[test]
fn test_text_padding_not_rendered() {
    let mut schema = Object::new("texts");
    schema.add_field(String::from("t"), Type::String(8));

    let mut page = Page::new(0, &schema, 0);
    let mut data: Vec<u8> = Vec::new();

    let mut line = Line::new();
    line.add_field(String::from("t"), Value::String("abc".as_bytes().to_vec()));
    page.write(line, &mut data).unwrap();

    // The field occupies its full declared length on disk...
    assert_eq!(data.len(), 8);
    assert_eq!(&data[0..3], "abc".as_bytes());
    assert_eq!(&data[3..8], &[0, 0, 0, 0, 0]);
    // ...but the padding does not reach the decoded rendering.
    assert_eq!(page.read(0, &data).unwrap(), "{t: abc}");
}

#[test]
fn test_write_preserves_bytes_after_record() {
    let mut schema = Object::new("solo");
    schema.add_field(String::from("x"), Type::UInt8);

    // The page believes it holds nothing, but the image already has bytes:
    // rewriting record zero must not clobber what lies beyond it.
    let mut page = Page::new(0, &schema, 0);
    let mut data: Vec<u8> = vec![9, 8, 7];

    let mut line = Line::new();
    line.add_field(String::from("x"), Value::UInt8(1u8.to_be_bytes()));
    page.write(line, &mut data).unwrap();

    assert_eq!(data, vec![1, 8, 7]);
}

#[test]
fn test_empty_schema() {
    let schema = Object::new("nothing");
    let mut page = Page::new(0, &schema, 0);
    let mut data: Vec<u8> = Vec::new();

    let line = Line::new();
    assert_eq!(page.write(line, &mut data).unwrap(), "{}");
    assert_eq!(data.len(), 0);
    assert_eq!(page.total(), 1);
    assert_eq!(page.read(0, &data).unwrap(), "{}");
}

#[test]
fn test_object_accumulates() {
    let mut schema = Object::new("things");
    assert_eq!(schema.name(), "things");
    assert_eq!(*schema.size_in_bits(), 0);
    assert!(schema.fields().is_empty());

    schema.add_field(String::from("id"), Type::UInt64);
    assert_eq!(*schema.size_in_bits(), 64);

    schema.add_field(String::from("flag"), Type::Bool);
    assert_eq!(*schema.size_in_bits(), 65);
    assert_eq!(*schema.size_in_bytes(), 9);

    schema.add_field(String::from("label"), Type::String(3));
    assert_eq!(*schema.size_in_bits(), 89);
    assert_eq!(*schema.size_in_bytes(), 12);

    assert_eq!(schema.fields().len(), 3);
    assert_eq!(schema.fields()[0].0, "id");
    assert_eq!(schema.fields()[2].0, "label");
    assert_eq!(schema.name(), "things");
}

#[test]
fn test_page_path() {
    let users = Object::new("users");
    let page = Page::new(0, &users, 0);
    assert_eq!(page.path(), "pages/users-0.page");

    let other = Page::new(1205, &users, 3);
    assert_eq!(other.path(), "pages/users-1205.page");
    assert_eq!(other.total(), 3);
}
