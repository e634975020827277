use ctftools::readers::Cursor;
use ctftools::readers::DecodeError;
use ctftools::readers::FieldDef;
use ctftools::readers::Section;

fn five_words() -> Vec<FieldDef> {
    vec![
        FieldDef::u32("First"),
        FieldDef::u32("Second"),
        FieldDef::u32("Third"),
        FieldDef::u32("Fourth"),
        FieldDef::u32("Fifth"),
    ]
}

#[test]
fn magic_and_size_decode_from_six_bytes() {
    let bytes: Vec<u8> = vec![0x42, 0x4d, 0x36, 0x00, 0x00, 0x00];
    let mut cursor = Cursor::new(&bytes);
    let defs = vec![FieldDef::chars("Magic", 2), FieldDef::u32("Size")];
    let section = Section::from_bytes(&mut cursor, "HEADER", defs).unwrap();
    assert_eq!(section.name(), "HEADER");
    assert_eq!(section.len(), 2);
    assert_eq!(section.get("Magic").unwrap().text(), "BM");
    assert_eq!(section.get("Size").unwrap().value(), 54);
    assert_eq!(section.get("Size").unwrap().text(), "54");
    assert_eq!(cursor.position(), 6);
    assert_eq!(cursor.remaining(), 0);
}

#[test]
fn section_consumes_the_sum_of_the_widths() {
    let bytes: Vec<u8> = (0u8..32).collect();
    let mut cursor = Cursor::new(&bytes);
    let defs = vec![
        FieldDef::u8("a"),
        FieldDef::u16("b"),
        FieldDef::u32("c"),
        FieldDef::u64("d"),
        FieldDef::i8("e"),
    ];
    let section = Section::from_bytes(&mut cursor, "S", defs).unwrap();
    assert_eq!(cursor.position(), 1 + 2 + 4 + 8 + 1);
    assert_eq!(section.len(), 5);
    assert_eq!(section.field(0).unwrap().data(), &vec![0]);
    assert_eq!(section.field(1).unwrap().data(), &vec![1, 2]);
    assert_eq!(section.field(2).unwrap().data(), &vec![3, 4, 5, 6]);
    assert_eq!(section.field(3).unwrap().data(), &vec![7, 8, 9, 10, 11, 12, 13, 14]);
    assert_eq!(section.field(4).unwrap().data(), &vec![15]);
    assert!(section.field(5).is_none());
}

#[test]
fn sections_follow_one_another_in_the_buffer() {
    let bytes: Vec<u8> = vec![1, 0, 2, 0, 3, 0, 4, 0];
    let mut cursor = Cursor::new(&bytes);
    let first =
        Section::from_bytes(&mut cursor, "A", vec![FieldDef::u16("x"), FieldDef::u16("y")])
            .unwrap();
    assert_eq!(cursor.position(), 4);
    let second =
        Section::from_bytes(&mut cursor, "B", vec![FieldDef::u16("x"), FieldDef::u16("y")])
            .unwrap();
    assert_eq!(cursor.position(), 8);
    assert_eq!(first.get("y").unwrap().value(), 2);
    assert_eq!(second.get("x").unwrap().value(), 3);
    assert_eq!(second.get("y").unwrap().value(), 4);
}

#[test]
fn decoding_twice_gives_the_same_section() {
    let bytes: Vec<u8> = (0u8..20).map(|b| b.wrapping_mul(37)).collect();
    let mut first_cursor = Cursor::new(&bytes);
    let mut second_cursor = Cursor::new(&bytes);
    let first = Section::from_bytes(&mut first_cursor, "S", five_words()).unwrap();
    let second = Section::from_bytes(&mut second_cursor, "S", five_words()).unwrap();
    assert_eq!(first, second);
    assert_eq!(first_cursor.position(), second_cursor.position());
    for index in 0..5 {
        assert_eq!(first.field(index), second.field(index));
    }
}

#[test]
fn empty_section_consumes_nothing() {
    let bytes: Vec<u8> = vec![1, 2, 3];
    let mut cursor = Cursor::new(&bytes);
    let section = Section::from_bytes(&mut cursor, "EMPTY", Vec::new()).unwrap();
    assert_eq!(section.len(), 0);
    assert_eq!(cursor.position(), 0);
    assert!(section.get("anything").is_none());
}

#[test]
fn ten_bytes_against_twenty_names_the_third_field() {
    let bytes: Vec<u8> = vec![0; 10];
    let mut cursor = Cursor::new(&bytes);
    let error = Section::from_bytes(&mut cursor, "S", five_words()).unwrap_err();
    assert_eq!(
        error,
        DecodeError::TruncatedInput { field: "Third", offset: 8, needed: 4, available: 2 }
    );
    assert_eq!(cursor.position(), 8);
}

#[test]
fn truncated_first_field_is_named() {
    let bytes: Vec<u8> = vec![0x42];
    let mut cursor = Cursor::new(&bytes);
    let defs = vec![FieldDef::chars("Magic", 2), FieldDef::u32("Size")];
    let error = Section::from_bytes(&mut cursor, "S", defs).unwrap_err();
    assert_eq!(
        error,
        DecodeError::TruncatedInput { field: "Magic", offset: 0, needed: 2, available: 1 }
    );
    assert_eq!(cursor.position(), 0);
}

#[test]
fn empty_buffer_fails_on_the_first_field() {
    let bytes: Vec<u8> = Vec::new();
    let mut cursor = Cursor::new(&bytes);
    let error = Section::from_bytes(&mut cursor, "S", five_words()).unwrap_err();
    assert_eq!(
        error,
        DecodeError::TruncatedInput { field: "First", offset: 0, needed: 4, available: 0 }
    );
}

#[test]
fn one_byte_short_fails_on_the_last_field() {
    let bytes: Vec<u8> = vec![0; 19];
    let mut cursor = Cursor::new(&bytes);
    let error = Section::from_bytes(&mut cursor, "S", five_words()).unwrap_err();
    assert_eq!(
        error,
        DecodeError::TruncatedInput { field: "Fifth", offset: 16, needed: 4, available: 3 }
    );
    assert_eq!(cursor.position(), 16);
}

#[test]
fn truncation_message_names_the_field() {
    let error = DecodeError::TruncatedInput { field: "Size", offset: 2, needed: 4, available: 1 };
    assert_eq!(error.message(), "truncated input: field Size at offset 2 needs 4 byte(s), 1 left");
    let error =
        DecodeError::TruncatedInput { field: "X", offset: 1234, needed: 8, available: 0 };
    assert_eq!(error.message(), "truncated input: field X at offset 1234 needs 8 byte(s), 0 left");
}

#[test]
fn get_returns_the_first_field_of_that_name() {
    let bytes: Vec<u8> = vec![1, 2, 3];
    let mut cursor = Cursor::new(&bytes);
    let defs = vec![FieldDef::u8("x"), FieldDef::u8("dup"), FieldDef::u8("dup")];
    let section = Section::from_bytes(&mut cursor, "S", defs).unwrap();
    assert_eq!(section.get("dup").unwrap().value(), 2);
    assert_eq!(section.get("x").unwrap().value(), 1);
}

#[test]
fn get_is_case_sensitive_and_misses_unknown_names() {
    let bytes: Vec<u8> = vec![1, 2];
    let mut cursor = Cursor::new(&bytes);
    let defs = vec![FieldDef::u8("Size"), FieldDef::u8("Width")];
    let section = Section::from_bytes(&mut cursor, "S", defs).unwrap();
    assert!(section.get("size").is_none());
    assert!(section.get("Siz").is_none());
    assert!(section.get("Sizes").is_none());
    assert!(section.get("").is_none());
    assert!(section.get("Size").is_some());
}
