//! The reader for Windows bitmap files: the file header, the info header
//! and, where the compression asks for them, the channel masks.
use vstd::prelude::*;

use crate::readers::bytes::le_bytes;
use crate::readers::bytes::le_value;
use crate::readers::Event;
use crate::readers::event_views;
use crate::readers::EventView;
use crate::readers::field::Dump;
use crate::readers::field::DumpView;
use crate::readers::field::FieldDef;
use crate::readers::field::FieldDefView;
use crate::readers::section::Cursor;
use crate::readers::section::decode_section;
use crate::readers::section::DecodeError;
use crate::readers::section::DecodeErrorView;
use crate::readers::section::def_views;
use crate::readers::section::lemma_decode_section;
use crate::readers::section::lemma_first_named;
use crate::readers::section::lemma_total_width_push;
use crate::readers::section::Section;
use crate::readers::section::section_at;
use crate::readers::section::SectionView;
use crate::readers::section::total_width;
use crate::readers::style::Colour;
use crate::readers::style::Style;
use crate::readers::text::digit_char;
use crate::readers::text::digit_str;

verus! {

/// The two columns that show one byte of a mask: two dashes for zero, else
/// its hexadecimal digits, with a space in front of a single digit.
pub open spec fn mask_cell(byte: u8) -> Seq<char> {
    if byte == 0 {
        seq!['-', '-']
    } else if byte < 16 {
        seq![' ', digit_char(byte as nat)]
    } else {
        seq![digit_char(byte as nat / 16), digit_char(byte as nat % 16)]
    }
}

/// The columns for a run of bytes, one cell after the other.
pub open spec fn mask_cells(bytes: Seq<u8>) -> Seq<char>
    decreases bytes.len(),
{
    if bytes.len() == 0 {
        Seq::empty()
    } else {
        mask_cell(bytes[0]) + mask_cells(bytes.drop_first())
    }
}

/// The text that shows `value` as a mask: the cells of its four low bytes,
/// least significant byte first.
pub open spec fn mask_text(value: nat) -> Seq<char> {
    mask_cells(le_bytes(value, 4))
}

/// Shows `value` as a channel mask: two columns for each of its four low
/// bytes, least significant byte first.
pub fn dump_mask(value: u64) -> (mask: String)
    ensures
        mask@ == mask_text(value as nat),
{
    let mut mask: String = String::new();
    let mut rest: u64 = value;
    let mut at: usize = 0;
    proof {
        assert(mask@ + mask_cells(le_bytes(rest as nat, 4)) =~= mask_text(value as nat));
    }
    while at < 4
        invariant
            at <= 4,
            mask_text(value as nat) == mask@ + mask_cells(le_bytes(rest as nat, (4 - at) as nat)),
        decreases 4 - at,
    {
        let byte: u8 = (rest % 256) as u8;
        let ghost tail = le_bytes(rest as nat, (4 - at) as nat);
        let ghost shorter = le_bytes(rest as nat / 256, (4 - at - 1) as nat);
        let ghost before = mask@;
        proof {
            assert(tail =~= seq![byte] + shorter);
            assert(tail.drop_first() =~= shorter);
            reveal_strlit("--");
            reveal_strlit(" ");
        }
        if byte == 0 {
            mask.append("--");
        } else if byte < 16 {
            mask.append(" ");
            mask.append(digit_str(byte));
        } else {
            mask.append(digit_str(byte / 16));
            mask.append(digit_str(byte % 16));
        }
        rest = rest / 256;
        at = at + 1;
        proof {
            assert(mask@ =~= before + mask_cell(byte));
            assert(mask@ + mask_cells(shorter) =~= before + mask_cells(tail));
        }
    }
    proof {
        assert(le_bytes(rest as nat, 0) =~= Seq::<u8>::empty());
        assert(mask@ + mask_cells(le_bytes(rest as nat, 0)) =~= mask@);
    }
    mask
}

/// The value of the compression field that says that channel masks follow
/// the info header.
pub const BITFIELDS: u64 = 3;

/// What is reported when the channel masks are left out.
pub open spec fn skipped_note() -> Seq<char> {
    "Skipping bitfields since the BITFIELDS flag wasn't set"@
}

/// The names of the compression methods, each at the index that is its
/// number. The numbers between the two groups name no method and show as the
/// placeholder.
pub open spec fn compression_names() -> Seq<Seq<char>> {
    seq![
        "RGB"@,
        "RLE8"@,
        "RLE4"@,
        "BITFIELDS"@,
        "JPEG"@,
        "PNG"@,
        "ALPHABITFIELDS"@,
        "?"@,
        "?"@,
        "?"@,
        "?"@,
        "CMYK"@,
        "CMYKRLE8"@,
        "CMYKRLE4"@,
    ]
}

/// A mask field of four bytes in the colour of its channel.
pub open spec fn mask_def(name: Seq<char>, style: Style) -> FieldDefView {
    FieldDefView { name, size: 4, style, dump: DumpView::Mask }
}

/// The fields of the file header.
pub open spec fn file_header_layout() -> Seq<FieldDefView> {
    seq![
        FieldDefView::chars("Magic"@, 2),
        FieldDefView::unsigned("Size"@, 4),
        FieldDefView::unsigned("Reserved1"@, 2),
        FieldDefView::unsigned("Reserved2"@, 2),
        FieldDefView::unsigned("OffsetToBits"@, 4),
    ]
}

/// The fields of the info header.
pub open spec fn info_header_layout() -> Seq<FieldDefView> {
    seq![
        FieldDefView::unsigned("Size"@, 4),
        FieldDefView::signed("Width"@, 4),
        FieldDefView::signed("Height"@, 4),
        FieldDefView::unsigned("Planes"@, 2),
        FieldDefView::unsigned("BitCount"@, 2),
        FieldDefView::symbols("Compression"@, 4, compression_names()),
        FieldDefView::unsigned("SizeImage"@, 4),
        FieldDefView::signed("XPelsPerMeter"@, 4),
        FieldDefView::signed("YPelsPerMeter"@, 4),
        FieldDefView::unsigned("ClrUsed"@, 4),
        FieldDefView::unsigned("ClrImportant"@, 4),
    ]
}

/// The fields of the channel masks.
pub open spec fn masks_layout() -> Seq<FieldDefView> {
    seq![
        mask_def("RedMask"@, Style::coloured(Colour::Red)),
        mask_def("GreenMask"@, Style::coloured(Colour::Green)),
        mask_def("BlueMask"@, Style::coloured(Colour::Blue)),
        mask_def("AlphaMask"@, Style { foreground: Some(Colour::White), is_dimmed: true }),
    ]
}

/// Whether an info header asks for channel masks: its compression field
/// holds `BITFIELDS`.
pub open spec fn wants_masks(info: SectionView) -> bool {
    match info.index_of("Compression"@) {
        Some(index) => info.fields[index].value() == BITFIELDS,
        None => false,
    }
}

/// What reading a bitmap reports and how it ends. The file header and the
/// info header are decoded one after the other from the start of the buffer,
/// and the channel masks after them where the info header asks for them;
/// each section that could be decoded is reported, and so is the fact that
/// the masks were left out. The reading ends with the range of the bytes
/// that were decoded, from offset zero up to the end of the last section, or
/// with the error of the first section that the buffer is too short for.
pub open spec fn bitmap_reading(bytes: Seq<u8>) -> (Seq<EventView>, Result<(nat, nat), DecodeErrorView>) {
    let info_start = total_width(file_header_layout());
    let masks_start = info_start + total_width(info_header_layout());
    let end = masks_start + total_width(masks_layout());
    match decode_section(bytes, 0, "BITMAPFILEHEADER"@, file_header_layout()) {
        Err(error) => (Seq::empty(), Err(error)),
        Ok(file) => match decode_section(
            bytes,
            info_start,
            "BITMAPINFOHEADER"@,
            info_header_layout(),
        ) {
            Err(error) => (seq![EventView::Decoded(file)], Err(error)),
            Ok(info) => if wants_masks(info) {
                match decode_section(bytes, masks_start, "BITFIELDS"@, masks_layout()) {
                    Err(error) => (
                        seq![EventView::Decoded(file), EventView::Decoded(info)],
                        Err(error),
                    ),
                    Ok(masks) => (
                        seq![
                            EventView::Decoded(file),
                            EventView::Decoded(info),
                            EventView::Decoded(masks),
                        ],
                        Ok((0, end)),
                    ),
                }
            } else {
                (
                    seq![
                        EventView::Decoded(file),
                        EventView::Decoded(info),
                        EventView::Skipped(skipped_note()),
                    ],
                    Ok((0, masks_start)),
                )
            },
        },
    }
}

/// The widths of the three sections of a bitmap: 14, 40 and 16 bytes.
pub proof fn lemma_section_widths()
    ensures
        total_width(file_header_layout()) == 14,
        total_width(info_header_layout()) == 40,
        total_width(masks_layout()) == 16,
{
    let none = Seq::<FieldDefView>::empty();
    let file = file_header_layout();
    lemma_total_width_push(none, file[0]);
    lemma_total_width_push(none.push(file[0]), file[1]);
    lemma_total_width_push(none.push(file[0]).push(file[1]), file[2]);
    lemma_total_width_push(none.push(file[0]).push(file[1]).push(file[2]), file[3]);
    lemma_total_width_push(file.take(4), file[4]);
    assert(file.take(4) =~= none.push(file[0]).push(file[1]).push(file[2]).push(file[3]));
    assert(file.take(4).push(file[4]) =~= file);

    let masks = masks_layout();
    lemma_total_width_push(none, masks[0]);
    lemma_total_width_push(none.push(masks[0]), masks[1]);
    lemma_total_width_push(none.push(masks[0]).push(masks[1]), masks[2]);
    lemma_total_width_push(masks.take(3), masks[3]);
    assert(masks.take(3) =~= none.push(masks[0]).push(masks[1]).push(masks[2]));
    assert(masks.take(3).push(masks[3]) =~= masks);

    let info = info_header_layout();
    lemma_widths_by_prefix(info, 11);
    assert(info.take(11) =~= info);
}

/// The total width of the first `count` fields of a list whose fields are
/// all four bytes wide but the two at the indices three and four, which are
/// two bytes wide.
proof fn lemma_widths_by_prefix(defs: Seq<FieldDefView>, count: int)
    requires
        0 <= count <= defs.len(),
        forall|i: int| 0 <= i < defs.len() ==> defs[i].size == if i == 3 || i == 4 {
            2nat
        } else {
            4nat
        },
    ensures
        total_width(defs.take(count)) == 4 * count - if count > 4 {
            4int
        } else if count > 3 {
            2int
        } else {
            0int
        },
    decreases count,
{
    if count > 0 {
        lemma_widths_by_prefix(defs, count - 1);
        assert(defs.take(count).drop_last() =~= defs.take(count - 1));
    }
}

/// A bitmap is read to the end of its headers exactly when the buffer holds
/// them: 54 bytes for the two headers, and 16 more where the info header
/// asks for the channel masks. The range it reports starts at zero and ends
/// where the last section ends, within the buffer.
pub proof fn lemma_bitmap_reading(bytes: Seq<u8>)
    ensures
        bytes.len() < 54 ==> bitmap_reading(bytes).1 is Err,
        bytes.len() < 14 ==> bitmap_reading(bytes).0.len() == 0,
        14 <= bytes.len() < 54 ==> bitmap_reading(bytes).0.len() == 1,
        bytes.len() >= 70 ==> bitmap_reading(bytes).1 is Ok,
        bytes.len() >= 54 ==> bitmap_reading(bytes).0.len() >= 2,
        bitmap_reading(bytes).1 matches Ok((start, end)) ==> {
            &&& start == 0
            &&& end <= bytes.len()
            &&& bitmap_reading(bytes).0.len() == 3
            &&& bitmap_reading(bytes).0[2] is Decoded <==> end == 70
            &&& bitmap_reading(bytes).0[2] is Skipped <==> end == 54
        },
{
    lemma_section_widths();
    lemma_decode_section(bytes, 0, "BITMAPFILEHEADER"@, file_header_layout());
    if bytes.len() >= 14 {
        lemma_decode_section(bytes, 14, "BITMAPINFOHEADER"@, info_header_layout());
    }
    if bytes.len() >= 54 {
        lemma_decode_section(bytes, 54, "BITFIELDS"@, masks_layout());
    }
}

/// The channel masks are asked for by the four bytes at offset 30: the
/// compression field is the sixth of the info header, 16 bytes after its
/// start at offset 14, and no field before it bears its name.
pub proof fn lemma_masks_follow_compression(bytes: Seq<u8>)
    requires
        bytes.len() >= 54,
    ensures
        decode_section(bytes, 14, "BITMAPINFOHEADER"@, info_header_layout()) is Ok,
        wants_masks(section_at(bytes, 14, "BITMAPINFOHEADER"@, info_header_layout()))
            <==> le_value(bytes.subrange(30, 34)) == 3,
{
    let layout = info_header_layout();
    let info = section_at(bytes, 14, "BITMAPINFOHEADER"@, layout);
    lemma_section_widths();
    lemma_decode_section(bytes, 14, "BITMAPINFOHEADER"@, layout);
    lemma_widths_by_prefix(layout, 5);
    lemma_first_named(info.fields, "Compression"@);
    reveal_strlit("Compression");
    reveal_strlit("Size");
    reveal_strlit("Width");
    reveal_strlit("Height");
    reveal_strlit("Planes");
    reveal_strlit("BitCount");
    assert(info.fields[0].def.name.len() == 4);
    assert(info.fields[1].def.name.len() == 5);
    assert(info.fields[2].def.name.len() == 6);
    assert(info.fields[3].def.name.len() == 6);
    assert(info.fields[4].def.name.len() == 8);
    assert(info.fields[5].def.name == "Compression"@);
    assert(info.index_of("Compression"@) == Some(5int));
    assert(info.fields[5].data == bytes.subrange(30, 34));
}

/// The table of the compression methods.
pub fn compression_table() -> (table: Vec<&'static str>)
    ensures
        table@.map_values(|s: &'static str| s@) == compression_names(),
{
    let table: Vec<&'static str> = vec![
        "RGB",
        "RLE8",
        "RLE4",
        "BITFIELDS",
        "JPEG",
        "PNG",
        "ALPHABITFIELDS",
        "?",
        "?",
        "?",
        "?",
        "CMYK",
        "CMYKRLE8",
        "CMYKRLE4",
    ];
    assert(table@.map_values(|s: &'static str| s@) =~= compression_names());
    table
}

/// The definitions of the fields of the file header.
pub fn file_header_fields() -> (defs: Vec<FieldDef>)
    ensures
        def_views(defs@) == file_header_layout(),
{
    let defs: Vec<FieldDef> = vec![
        FieldDef::chars("Magic", 2),
        FieldDef::u32("Size"),
        FieldDef::u16("Reserved1"),
        FieldDef::u16("Reserved2"),
        FieldDef::u32("OffsetToBits"),
    ];
    assert(def_views(defs@) =~= file_header_layout());
    defs
}

/// The definitions of the fields of the info header.
pub fn info_header_fields() -> (defs: Vec<FieldDef>)
    ensures
        def_views(defs@) == info_header_layout(),
{
    let defs: Vec<FieldDef> = vec![
        FieldDef::u32("Size"),
        FieldDef::i32("Width"),
        FieldDef::i32("Height"),
        FieldDef::u16("Planes"),
        FieldDef::u16("BitCount"),
        FieldDef::symbols("Compression", 4, compression_table()),
        FieldDef::u32("SizeImage"),
        FieldDef::i32("XPelsPerMeter"),
        FieldDef::i32("YPelsPerMeter"),
        FieldDef::u32("ClrUsed"),
        FieldDef::u32("ClrImportant"),
    ];
    assert(def_views(defs@) =~= info_header_layout());
    defs
}

/// The definitions of the fields of the channel masks.
pub fn masks_fields() -> (defs: Vec<FieldDef>)
    ensures
        def_views(defs@) == masks_layout(),
{
    let red = Style { foreground: Some(Colour::Red), is_dimmed: false };
    let green = Style { foreground: Some(Colour::Green), is_dimmed: false };
    let blue = Style { foreground: Some(Colour::Blue), is_dimmed: false };
    let alpha = Style { foreground: Some(Colour::White), is_dimmed: true };
    let defs: Vec<FieldDef> = vec![
        FieldDef::new("RedMask", 4, red, Dump::Mask),
        FieldDef::new("GreenMask", 4, green, Dump::Mask),
        FieldDef::new("BlueMask", 4, blue, Dump::Mask),
        FieldDef::new("AlphaMask", 4, alpha, Dump::Mask),
    ];
    assert(def_views(defs@) =~= masks_layout());
    defs
}

/// Reads `bytes` as a bitmap. Each section that is decoded is added to
/// `events`, and so is a note when the channel masks are left out. Returns
/// the range of the bytes that were decoded, or the error of the first
/// section that `bytes` is too short for.
pub fn read(bytes: &Vec<u8>, events: &mut Vec<Event>) -> (result: Result<(usize, usize), DecodeError>)
    ensures
        event_views(final(events)@) == event_views(old(events)@) + bitmap_reading(bytes@).0,
        match result {
            Ok((start, end)) => bitmap_reading(bytes@).1 == Ok::<(nat, nat), DecodeErrorView>(
                (start as nat, end as nat),
            ),
            Err(error) => bitmap_reading(bytes@).1 == Err::<(nat, nat), DecodeErrorView>(error@),
        },
{
    let ghost before = event_views(events@);
    let mut cursor = Cursor::new(bytes.as_slice());

    let file_section = match Section::from_bytes(
        &mut cursor,
        "BITMAPFILEHEADER",
        file_header_fields(),
    ) {
        Ok(section) => section,
        Err(error) => {
            assert(event_views(events@) =~= before + bitmap_reading(bytes@).0);
            return Err(error);
        },
    };
    let ghost file = file_section@;
    events.push(Event::Decoded(file_section));

    let info_section = match Section::from_bytes(
        &mut cursor,
        "BITMAPINFOHEADER",
        info_header_fields(),
    ) {
        Ok(section) => section,
        Err(error) => {
            assert(event_views(events@) =~= before + bitmap_reading(bytes@).0);
            return Err(error);
        },
    };
    let ghost info = info_section@;
    let with_masks: bool = match info_section.get("Compression") {
        Some(compression) => compression.value() == BITFIELDS,
        None => false,
    };
    events.push(Event::Decoded(info_section));

    if with_masks {
        let masks_section = match Section::from_bytes(&mut cursor, "BITFIELDS", masks_fields()) {
            Ok(section) => section,
            Err(error) => {
                assert(event_views(events@) =~= before + bitmap_reading(bytes@).0);
                return Err(error);
            },
        };
        events.push(Event::Decoded(masks_section));
    } else {
        events.push(Event::Skipped("Skipping bitfields since the BITFIELDS flag wasn't set"));
    }
    assert(event_views(events@) =~= before + bitmap_reading(bytes@).0);
    Ok((0, cursor.position()))
}

} // verus!
