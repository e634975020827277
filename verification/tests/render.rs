use ctftools::readers::style::chars_style;
use ctftools::readers::style::default_style;
use ctftools::readers::style::enum_style;
use ctftools::readers::field::field_line;
use ctftools::readers::section::field_row;
use ctftools::readers::style::int_style;
use ctftools::readers::section::section_heading;
use ctftools::readers::text::digit_str;
use ctftools::readers::text::pad_to;
use ctftools::readers::text::placeholder;
use ctftools::readers::text::push_decimal;
use ctftools::readers::text::push_hex_dump;
use ctftools::readers::text::same_text;
use ctftools::readers::style::title_style;
use ctftools::readers::Colour;
use ctftools::readers::Cursor;
use ctftools::readers::Dump;
use ctftools::readers::Field;
use ctftools::readers::FieldDef;
use ctftools::readers::Section;
use ctftools::readers::Style;

fn decode(def: FieldDef, bytes: &[u8]) -> Field {
    let mut cursor = Cursor::new(bytes);
    Field::extract(&mut cursor, def).unwrap()
}

#[test]
fn value_column_is_twelve_wide() {
    let field = decode(FieldDef::u32("Size"), &[0x36, 0, 0, 0]);
    assert_eq!(field.value_column(), "54          ");
    let field = decode(FieldDef::u64("Big"), &[0xff; 8]);
    assert_eq!(field.value_column(), "18446744073709551615");
}

#[test]
fn number_renders_in_cyan_before_its_bytes() {
    let field = decode(FieldDef::u32("Size"), &[0x36, 0, 0, 0]);
    assert_eq!(field.render(), "\u{1b}[36m54          \u{1b}[0m 36 00 00 00");
    let field = decode(FieldDef::i16("Delta"), &[0xfe, 0xff]);
    assert_eq!(field.render(), "\u{1b}[36m-2          \u{1b}[0m fe ff");
}

#[test]
fn chars_render_in_yellow() {
    let field = decode(FieldDef::chars("Magic", 2), &[0x42, 0x4d]);
    assert_eq!(field.render(), "\u{1b}[33mBM          \u{1b}[0m 42 4d");
}

#[test]
fn symbol_renders_in_blue() {
    let table = vec!["RGB", "RLE8", "RLE4", "BITFIELDS"];
    let field = decode(FieldDef::symbols("Compression", 4, table.clone()), &[3, 0, 0, 0]);
    assert_eq!(field.render(), "\u{1b}[34mBITFIELDS   \u{1b}[0m 03 00 00 00");
    let field = decode(FieldDef::symbols("Compression", 4, table.clone()), &[0, 0, 0, 0]);
    assert_eq!(field.render(), "\u{1b}[34mRGB         \u{1b}[0m 00 00 00 00");
    let field = decode(FieldDef::symbols("Compression", 4, table), &[9, 0, 0, 0]);
    assert_eq!(field.render(), "\u{1b}[34m?           \u{1b}[0m 09 00 00 00");
}

#[test]
fn malformed_text_renders_as_the_placeholder() {
    let field = decode(FieldDef::chars("Magic", 2), &[0xff, 0xfe]);
    assert_eq!(field.render(), "\u{1b}[33m?           \u{1b}[0m ff fe");
}

#[test]
fn styles_give_their_own_codes() {
    let red = Style { foreground: Some(Colour::Red), is_dimmed: false };
    let green = Style { foreground: Some(Colour::Green), is_dimmed: false };
    let white = Style { foreground: Some(Colour::White), is_dimmed: false };
    let dim_white = Style { foreground: Some(Colour::White), is_dimmed: true };
    let dim = Style { foreground: None, is_dimmed: true };
    let one = |style: Style| decode(FieldDef::new("m", 1, style, Dump::Unsigned), &[7]).render();
    assert_eq!(one(red), "\u{1b}[31m7           \u{1b}[0m 07");
    assert_eq!(one(green), "\u{1b}[32m7           \u{1b}[0m 07");
    assert_eq!(one(chars_style()), "\u{1b}[33m7           \u{1b}[0m 07");
    assert_eq!(one(enum_style()), "\u{1b}[34m7           \u{1b}[0m 07");
    assert_eq!(one(int_style()), "\u{1b}[36m7           \u{1b}[0m 07");
    assert_eq!(one(white), "\u{1b}[37m7           \u{1b}[0m 07");
    assert_eq!(one(dim_white), "\u{1b}[2;37m7           \u{1b}[0m 07");
    assert_eq!(one(dim), "\u{1b}[2m7           \u{1b}[0m 07");
    assert_eq!(one(default_style()), "7            07");
    assert_eq!(one(title_style()), one(green));
}

#[test]
fn named_styles_have_their_colours() {
    assert_eq!(default_style(), Style { foreground: None, is_dimmed: false });
    assert_eq!(enum_style(), Style { foreground: Some(Colour::Blue), is_dimmed: false });
    assert_eq!(chars_style(), Style { foreground: Some(Colour::Yellow), is_dimmed: false });
    assert_eq!(int_style(), Style { foreground: Some(Colour::Cyan), is_dimmed: false });
    assert_eq!(title_style(), Style { foreground: Some(Colour::Green), is_dimmed: false });
}

#[test]
fn mask_field_renders_in_its_own_style() {
    let red = Style { foreground: Some(Colour::Red), is_dimmed: false };
    let field = decode(FieldDef::new("RedMask", 4, red, Dump::Mask), &[0, 0, 0xff, 0]);
    assert_eq!(field.text(), "----ff--");
    assert_eq!(field.render(), "\u{1b}[31m----ff--    \u{1b}[0m 00 00 ff 00");
}

#[test]
fn section_renders_heading_and_rows() {
    let bytes: Vec<u8> = vec![0x42, 0x4d, 0x36, 0x00, 0x00, 0x00];
    let mut cursor = Cursor::new(&bytes);
    let defs = vec![FieldDef::chars("Magic", 2), FieldDef::u32("Size")];
    let section = Section::from_bytes(&mut cursor, "BITMAPFILEHEADER", defs).unwrap();
    let expected = "  \u{1b}[32mBITMAPFILEHEADER\u{1b}[0m:\n\
                    \u{20} + Magic           : \u{1b}[33mBM          \u{1b}[0m 42 4d\n\
                    \u{20} + Size            : \u{1b}[36m54          \u{1b}[0m 36 00 00 00\n";
    assert_eq!(section.render(), expected);
}

#[test]
fn empty_section_renders_its_heading_only() {
    let bytes: Vec<u8> = Vec::new();
    let mut cursor = Cursor::new(&bytes);
    let section = Section::from_bytes(&mut cursor, "NONE", Vec::new()).unwrap();
    assert_eq!(section.render(), "  \u{1b}[32mNONE\u{1b}[0m:\n");
}

#[test]
fn long_field_names_are_not_cut() {
    assert_eq!(field_row("Size", "x"), "  + Size            : x\n");
    assert_eq!(field_row("ExactlySixteen16", "x"), "  + ExactlySixteen16: x\n");
    assert_eq!(field_row("LongerThanSixteenColumns", "x"), "  + LongerThanSixteenColumns: x\n");
    assert_eq!(field_row("", ""), "  +                 : \n");
}

#[test]
fn heading_and_line_are_put_together() {
    assert_eq!(section_heading("NAME"), "  NAME:\n");
    assert_eq!(section_heading(""), "  :\n");
    assert_eq!(field_line("value", &[0x00, 0x0a, 0xff]), "value 00 0a ff");
    assert_eq!(field_line("", &[]), "");
}

#[test]
fn pad_to_counts_characters() {
    assert_eq!(pad_to("", 3), "   ");
    assert_eq!(pad_to("ab", 3), "ab ");
    assert_eq!(pad_to("abc", 3), "abc");
    assert_eq!(pad_to("abcd", 3), "abcd");
    assert_eq!(pad_to("\u{e9}\u{20ac}", 4), "\u{e9}\u{20ac}  ");
    assert_eq!(pad_to("x", 0), "x");
}

#[test]
fn digits_are_lower_case() {
    let all: Vec<&str> = (0u8..16).map(digit_str).collect();
    assert_eq!(all.concat(), "0123456789abcdef");
}

#[test]
fn hex_dump_has_two_digits_per_byte() {
    let mut out = String::from(">");
    push_hex_dump(&mut out, &[0x00, 0x01, 0x10, 0xab, 0xff]);
    assert_eq!(out, "> 00 01 10 ab ff");
}

#[test]
fn push_decimal_appends() {
    let mut out = String::from("n=");
    push_decimal(&mut out, 0);
    push_decimal(&mut out, 907);
    assert_eq!(out, "n=0907");
}

#[test]
fn same_text_compares_letter_for_letter() {
    assert!(same_text("bmp", "bmp"));
    assert!(same_text("", ""));
    assert!(!same_text("bmp", "BMP"));
    assert!(!same_text("bmp", "bm"));
    assert!(!same_text("bm", "bmp"));
    assert!(!same_text("\u{e9}", "e"));
    assert!(same_text("\u{20ac}1", "\u{20ac}1"));
}

#[test]
fn placeholder_is_a_question_mark() {
    assert_eq!(placeholder(), "?");
}
