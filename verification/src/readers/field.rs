//! Fields: the definition of a fixed-width field, the field as it is cut
//! out of a buffer, and the text that shows its value.
use vstd::prelude::*;

use crate::readers::bmp::dump_mask;
use crate::readers::bmp::mask_text;
use crate::readers::bytes::le_bytes;
use crate::readers::bytes::le_u64;
use crate::readers::bytes::le_value;
use crate::readers::bytes::lemma_le_bytes_of_le_value;
use crate::readers::bytes::lemma_le_value_bound;
use crate::readers::bytes::lemma_radix_values;
use crate::readers::bytes::lemma_signed_value;
use crate::readers::bytes::radix;
use crate::readers::bytes::sign_extend;
use crate::readers::bytes::signed_value;
use crate::readers::bytes::supported_width;
use crate::readers::section::Cursor;
use crate::readers::section::DecodeError;
use crate::readers::section::DecodeErrorView;
use crate::readers::style::chars_style;
use crate::readers::style::Colour;
use crate::readers::style::enum_style;
use crate::readers::style::int_style;
use crate::readers::style::paint;
use crate::readers::style::painted;
use crate::readers::style::Style;
use crate::readers::text::decimal;
use crate::readers::text::hex_dump;
use crate::readers::text::lemma_until_zero_padded;
use crate::readers::text::pad_right;
use crate::readers::text::pad_to;
use crate::readers::text::placeholder;
use crate::readers::text::placeholder_text;
use crate::readers::text::push_decimal;
use crate::readers::text::push_hex_dump;
use crate::readers::text::signed_decimal;
use crate::readers::text::text_of;
use crate::readers::text::until_zero;
use crate::readers::text::utf8_text;

verus! {

/// How the number decoded from a field is turned into text.
#[derive(PartialEq, Eq, Debug)]
pub enum Dump {
    /// As an unsigned decimal number.
    Unsigned,
    /// As a signed decimal number, the field read as two's complement.
    Signed,
    /// As the characters that the bytes spell, up to the first zero byte.
    Chars,
    /// As the symbol that the number selects in a table.
    Symbols(Vec<&'static str>),
    /// As a channel mask: two columns per byte for the four low bytes.
    Mask,
}

/// The mathematical value of a [`Dump`].
pub enum DumpView {
    Unsigned,
    Signed,
    Chars,
    Symbols(Seq<Seq<char>>),
    Mask,
}

impl View for Dump {
    type V = DumpView;

    open spec fn view(&self) -> DumpView {
        match self {
            Dump::Unsigned => DumpView::Unsigned,
            Dump::Signed => DumpView::Signed,
            Dump::Chars => DumpView::Chars,
            Dump::Symbols(table) => DumpView::Symbols(table@.map_values(|s: &'static str| s@)),
            Dump::Mask => DumpView::Mask,
        }
    }
}

/// The description of one field: its name, its width in bytes, the style
/// it is shown in and the way its value is turned into text.
#[derive(PartialEq, Eq, Debug)]
pub struct FieldDef {
    size: usize,
    name: &'static str,
    style: Style,
    dump: Dump,
}

/// The mathematical value of a [`FieldDef`].
pub struct FieldDefView {
    pub name: Seq<char>,
    pub size: nat,
    pub style: Style,
    pub dump: DumpView,
}

impl FieldDefView {
    /// A field shown as the characters it spells, in yellow.
    pub open spec fn chars(name: Seq<char>, size: nat) -> FieldDefView {
        FieldDefView { name, size, style: Style::coloured(Colour::Yellow), dump: DumpView::Chars }
    }

    /// A field shown as a signed decimal number, in cyan.
    pub open spec fn signed(name: Seq<char>, size: nat) -> FieldDefView {
        FieldDefView { name, size, style: Style::coloured(Colour::Cyan), dump: DumpView::Signed }
    }

    /// A field shown as an unsigned decimal number, in cyan.
    pub open spec fn unsigned(name: Seq<char>, size: nat) -> FieldDefView {
        FieldDefView { name, size, style: Style::coloured(Colour::Cyan), dump: DumpView::Unsigned }
    }

    /// A field shown as the symbol that its value selects in `table`, in
    /// blue.
    pub open spec fn symbols(name: Seq<char>, size: nat, table: Seq<Seq<char>>) -> FieldDefView {
        FieldDefView {
            name,
            size,
            style: Style::coloured(Colour::Blue),
            dump: DumpView::Symbols(table),
        }
    }
}

impl View for FieldDef {
    type V = FieldDefView;

    closed spec fn view(&self) -> FieldDefView {
        FieldDefView {
            name: self.name@,
            size: self.size as nat,
            style: self.style,
            dump: self.dump@,
        }
    }
}

impl FieldDef {
    #[verifier::type_invariant]
    spec fn well_formed(&self) -> bool {
        supported_width(self.size as nat)
    }

    /// A field of `size` bytes called `name`, shown in `style` as `dump`
    /// says.
    pub fn new(name: &'static str, size: usize, style: Style, dump: Dump) -> (def: FieldDef)
        requires
            supported_width(size as nat),
        ensures
            def@ == (FieldDefView { name: name@, size: size as nat, style, dump: dump@ }),
    {
        FieldDef { size, name, style, dump }
    }

    /// A field of `size` bytes shown as the characters it spells.
    pub fn chars(name: &'static str, size: usize) -> (def: FieldDef)
        requires
            supported_width(size as nat),
        ensures
            def@ == FieldDefView::chars(name@, size as nat),
    {
        FieldDef::new(name, size, chars_style(), Dump::Chars)
    }

    /// A field of `size` bytes shown as a signed decimal number.
    pub fn signed(name: &'static str, size: usize) -> (def: FieldDef)
        requires
            supported_width(size as nat),
        ensures
            def@ == FieldDefView::signed(name@, size as nat),
    {
        FieldDef::new(name, size, int_style(), Dump::Signed)
    }

    /// A field of `size` bytes shown as an unsigned decimal number.
    pub fn unsigned(name: &'static str, size: usize) -> (def: FieldDef)
        requires
            supported_width(size as nat),
        ensures
            def@ == FieldDefView::unsigned(name@, size as nat),
    {
        FieldDef::new(name, size, int_style(), Dump::Unsigned)
    }

    /// A field of `size` bytes shown as the symbol that its value selects in
    /// `table`.
    pub fn symbols(name: &'static str, size: usize, table: Vec<&'static str>) -> (def: FieldDef)
        requires
            supported_width(size as nat),
        ensures
            def@ == FieldDefView::symbols(
                name@,
                size as nat,
                table@.map_values(|s: &'static str| s@),
            ),
    {
        FieldDef::new(name, size, enum_style(), Dump::Symbols(table))
    }

    /// An unsigned field of eight bytes.
    pub fn u64(name: &'static str) -> (def: FieldDef)
        ensures
            def@ == FieldDefView::unsigned(name@, 8),
    {
        FieldDef::unsigned(name, 8)
    }

    /// An unsigned field of four bytes.
    pub fn u32(name: &'static str) -> (def: FieldDef)
        ensures
            def@ == FieldDefView::unsigned(name@, 4),
    {
        FieldDef::unsigned(name, 4)
    }

    /// An unsigned field of two bytes.
    pub fn u16(name: &'static str) -> (def: FieldDef)
        ensures
            def@ == FieldDefView::unsigned(name@, 2),
    {
        FieldDef::unsigned(name, 2)
    }

    /// An unsigned field of one byte.
    pub fn u8(name: &'static str) -> (def: FieldDef)
        ensures
            def@ == FieldDefView::unsigned(name@, 1),
    {
        FieldDef::unsigned(name, 1)
    }

    /// A signed field of eight bytes.
    pub fn i64(name: &'static str) -> (def: FieldDef)
        ensures
            def@ == FieldDefView::signed(name@, 8),
    {
        FieldDef::signed(name, 8)
    }

    /// A signed field of four bytes.
    pub fn i32(name: &'static str) -> (def: FieldDef)
        ensures
            def@ == FieldDefView::signed(name@, 4),
    {
        FieldDef::signed(name, 4)
    }

    /// A signed field of two bytes.
    pub fn i16(name: &'static str) -> (def: FieldDef)
        ensures
            def@ == FieldDefView::signed(name@, 2),
    {
        FieldDef::signed(name, 2)
    }

    /// A signed field of one byte.
    pub fn i8(name: &'static str) -> (def: FieldDef)
        ensures
            def@ == FieldDefView::signed(name@, 1),
    {
        FieldDef::signed(name, 1)
    }

    /// The width of the field in bytes.
    pub fn size(&self) -> (size: usize)
        ensures
            size == self@.size,
            supported_width(size as nat),
    {
        proof {
            use_type_invariant(self);
        }
        self.size
    }

    /// The name of the field.
    pub fn name(&self) -> (name: &'static str)
        ensures
            name@ == self@.name,
    {
        self.name
    }

    /// The style the field is shown in.
    pub fn style(&self) -> (style: Style)
        ensures
            style == self@.style,
    {
        self.style
    }

    /// The way the value of the field is turned into text.
    pub fn dump(&self) -> (dump: &Dump)
        ensures
            dump@ == self@.dump,
    {
        &self.dump
    }
}

/// The symbol that `value` selects in `table`, or the placeholder when the
/// table has no entry for it.
pub open spec fn symbol_text(table: Seq<Seq<char>>, value: nat) -> Seq<char> {
    if value < table.len() {
        table[value as int]
    } else {
        placeholder_text()
    }
}

/// Shows `value` as a signed decimal number, its 64 bits read as two's
/// complement.
pub fn dump_signed(value: u64) -> (text: String)
    ensures
        text@ == signed_decimal(signed_value(value as nat, 8)),
{
    proof {
        lemma_radix_values();
    }
    let mut text: String = String::new();
    if value >= 0x8000_0000_0000_0000 {
        proof {
            reveal_strlit("-");
        }
        text.append("-");
        let magnitude: u64 = (u64::MAX - value) + 1;
        push_decimal(&mut text, magnitude);
        assert(text@ =~= signed_decimal(signed_value(value as nat, 8)));
    } else {
        push_decimal(&mut text, value);
        assert(text@ =~= signed_decimal(signed_value(value as nat, 8)));
    }
    text
}

/// Shows `value` as an unsigned decimal number.
pub fn dump_unsigned(value: u64) -> (text: String)
    ensures
        text@ == decimal(value as nat),
{
    let mut text: String = String::new();
    push_decimal(&mut text, value);
    assert(text@ =~= decimal(value as nat));
    text
}

/// Shows `value` as the text that its eight bytes spell, least significant
/// byte first and up to the first zero byte; the placeholder when those
/// bytes are not valid UTF-8.
pub fn dump_chars(value: u64) -> (text: String)
    ensures
        text@ == text_of(le_bytes(value as nat, 8)),
{
    let mut run: Vec<u8> = Vec::new();
    let mut rest: u64 = value;
    let mut at: usize = 0;
    let mut ended: bool = false;
    proof {
        assert(run@ + until_zero(le_bytes(rest as nat, 8)) =~= until_zero(
            le_bytes(value as nat, 8),
        ));
    }
    while at < 8 && !ended
        invariant
            at <= 8,
            ended ==> until_zero(le_bytes(value as nat, 8)) == run@,
            !ended ==> until_zero(le_bytes(value as nat, 8)) == run@ + until_zero(
                le_bytes(rest as nat, (8 - at) as nat),
            ),
        decreases 8 - at + if ended { 0int } else { 1int },
    {
        let byte: u8 = (rest % 256) as u8;
        let ghost tail = le_bytes(rest as nat, (8 - at) as nat);
        let ghost shorter = le_bytes(rest as nat / 256, (8 - at - 1) as nat);
        proof {
            assert(tail =~= seq![byte] + shorter);
            assert(tail.drop_first() =~= shorter);
        }
        if byte == 0 {
            proof {
                assert(until_zero(tail) =~= Seq::<u8>::empty());
                assert(until_zero(le_bytes(value as nat, 8)) =~= run@);
            }
            ended = true;
        } else {
            let ghost before = run@;
            run.push(byte);
            rest = rest / 256;
            at = at + 1;
            proof {
                assert(until_zero(tail) =~= seq![byte] + until_zero(shorter));
                assert(run@ + until_zero(shorter) =~= before + until_zero(tail));
            }
        }
    }
    proof {
        if !ended {
            assert(le_bytes(rest as nat, 0) =~= Seq::<u8>::empty());
            assert(until_zero(le_bytes(value as nat, 8)) =~= run@);
        }
    }
    match utf8_text(run) {
        Some(decoded) => decoded,
        None => String::from_str(placeholder()),
    }
}

/// Shows `value` as the symbol it selects in `table`, or as the placeholder
/// when the table has no entry for it.
pub fn dump_symbol(table: &Vec<&'static str>, value: u64) -> (text: String)
    ensures
        text@ == symbol_text(table@.map_values(|s: &'static str| s@), value as nat),
{
    if value < table.len() as u64 {
        String::from_str(table[value as usize])
    } else {
        String::from_str(placeholder())
    }
}

/// One decoded field: the bytes that were read for it, the number they
/// stand for, and the definition they were read by.
#[derive(PartialEq, Eq, Debug)]
pub struct Field {
    data: Vec<u8>,
    value: u64,
    def: FieldDef,
}

/// The mathematical value of a [`Field`].
pub struct FieldView {
    pub def: FieldDefView,
    pub data: Seq<u8>,
}

impl FieldView {
    /// The bytes of the field read as an unsigned little-endian number.
    pub open spec fn value(self) -> nat {
        le_value(self.data)
    }

    /// The bytes of the field read as a two's complement little-endian
    /// number of the field's width.
    pub open spec fn signed(self) -> int {
        signed_value(le_value(self.data), self.def.size)
    }

    /// The text that shows the value of the field, as its definition asks.
    pub open spec fn text(self) -> Seq<char> {
        match self.def.dump {
            DumpView::Unsigned => decimal(self.value()),
            DumpView::Signed => signed_decimal(self.signed()),
            DumpView::Chars => text_of(self.data),
            DumpView::Symbols(table) => symbol_text(table, self.value()),
            DumpView::Mask => mask_text(self.value()),
        }
    }

    /// The text of the field padded with spaces to the width of the value
    /// column.
    pub open spec fn value_column(self) -> Seq<char> {
        pad_right(self.text(), 12)
    }

    /// The line that shows the field: the value column in the style of the
    /// field, then the bytes of the field in hexadecimal.
    pub open spec fn rendered(self) -> Seq<char> {
        painted(self.def.style, self.value_column()) + hex_dump(self.data)
    }
}

/// The line that shows a field, given its value column as it is to appear.
pub open spec fn field_line_text(column: Seq<char>, data: Seq<u8>) -> Seq<char> {
    column + hex_dump(data)
}

/// Puts the bytes of a field in hexadecimal after its value column.
pub fn field_line(column: &str, data: &[u8]) -> (line: String)
    ensures
        line@ == field_line_text(column@, data@),
{
    let mut line: String = String::from_str(column);
    push_hex_dump(&mut line, data);
    line
}

impl View for Field {
    type V = FieldView;

    closed spec fn view(&self) -> FieldView {
        FieldView { def: self.def@, data: self.data@ }
    }
}

/// The field that `def` cuts out of `bytes` at offset `start`.
pub open spec fn field_at(bytes: Seq<u8>, start: int, def: FieldDefView) -> FieldView {
    FieldView { def, data: bytes.subrange(start, start + def.size) }
}

/// What a field holds is read off the bytes it covers and nothing else: its
/// bytes are those of the buffer from its start on, its value is their
/// little-endian number, which fits the width of the field, and its signed
/// value is that number read as two's complement of that width.
pub proof fn lemma_field_at(bytes: Seq<u8>, start: int, def: FieldDefView)
    requires
        0 <= start,
        start + def.size <= bytes.len(),
        supported_width(def.size),
    ensures
        field_at(bytes, start, def).def == def,
        field_at(bytes, start, def).data.len() == def.size,
        forall|i: int|
            0 <= i < def.size ==> #[trigger] field_at(bytes, start, def).data[i] == bytes[start
                + i],
        field_at(bytes, start, def).value() == le_value(bytes.subrange(start, start + def.size)),
        field_at(bytes, start, def).value() < radix(def.size) <= radix(8),
        field_at(bytes, start, def).signed() == signed_value(
            le_value(bytes.subrange(start, start + def.size)),
            def.size,
        ),
        -(radix(def.size) / 2) <= field_at(bytes, start, def).signed() < radix(def.size) / 2,
        field_at(bytes, start, def).signed() == field_at(bytes, start, def).value() || field_at(
            bytes,
            start,
            def,
        ).signed() == field_at(bytes, start, def).value() - radix(def.size),
{
    let field = field_at(bytes, start, def);
    lemma_le_value_bound(field.data);
    lemma_signed_value(field.value(), def.size);
    lemma_radix_values();
}

impl Field {
    #[verifier::type_invariant]
    spec fn well_formed(&self) -> bool {
        &&& self.data@.len() == self.def@.size
        &&& supported_width(self.def@.size)
        &&& self.value == le_value(self.data@)
    }

    /// Reads the field that `def` describes at the cursor and moves the
    /// cursor past it. When the buffer ends before the field does, nothing
    /// is consumed and the error names the field.
    pub fn extract(cursor: &mut Cursor, def: FieldDef) -> (result: Result<Field, DecodeError>)
        ensures
            final(cursor)@.bytes == old(cursor)@.bytes,
            match result {
                Ok(field) => {
                    &&& def@.size <= old(cursor)@.remaining()
                    &&& field@ == field_at(old(cursor)@.bytes, old(cursor)@.pos as int, def@)
                    &&& final(cursor)@.pos == old(cursor)@.pos + def@.size
                },
                Err(error) => {
                    &&& def@.size > old(cursor)@.remaining()
                    &&& error@ == (DecodeErrorView::TruncatedInput {
                        field: def@.name,
                        offset: old(cursor)@.pos,
                        needed: def@.size,
                        available: old(cursor)@.remaining(),
                    })
                    &&& final(cursor)@.pos == old(cursor)@.pos
                },
            },
    {
        let size: usize = def.size();
        let offset: usize = cursor.position();
        let available: usize = cursor.remaining();
        match cursor.take(size) {
            Some(data) => {
                let value: u64 = le_u64(data.as_slice());
                Ok(Field { data, value, def })
            },
            None => Err(
                DecodeError::TruncatedInput { field: def.name(), offset, needed: size, available },
            ),
        }
    }

    /// The bytes of the field, in the order they stand in the buffer.
    pub fn data(&self) -> (data: &Vec<u8>)
        ensures
            data@ == self@.data,
            data@.len() == self@.def.size,
    {
        proof {
            use_type_invariant(self);
        }
        &self.data
    }

    /// The bytes of the field read as an unsigned little-endian number.
    pub fn value(&self) -> (value: u64)
        ensures
            value == self@.value(),
    {
        proof {
            use_type_invariant(self);
        }
        self.value
    }

    /// The definition the field was read by.
    pub fn def(&self) -> (def: &FieldDef)
        ensures
            def@ == self@.def,
    {
        &self.def
    }

    /// The bytes of the field read as a two's complement little-endian
    /// number of the field's width.
    pub fn signed(&self) -> (value: i64)
        ensures
            value == self@.signed(),
    {
        proof {
            use_type_invariant(self);
            lemma_radix_values();
            lemma_le_value_bound(self.data@);
        }
        let size: usize = self.def.size();
        let value: u64 = self.value;
        if size == 1 && value >= 0x80 {
            value as i64 - 0x100
        } else if size == 2 && value >= 0x8000 {
            value as i64 - 0x1_0000
        } else if size == 4 && value >= 0x8000_0000 {
            value as i64 - 0x1_0000_0000
        } else if size == 8 && value >= 0x8000_0000_0000_0000 {
            (value - 0x8000_0000_0000_0000) as i64 + i64::MIN
        } else {
            value as i64
        }
    }

    /// The text that shows the value of the field, as its definition asks.
    pub fn text(&self) -> (text: String)
        ensures
            text@ == self@.text(),
    {
        proof {
            use_type_invariant(self);
            lemma_le_value_bound(self.data@);
        }
        match &self.def.dump {
            Dump::Unsigned => dump_unsigned(self.value),
            Dump::Signed => dump_signed(sign_extend(self.value, self.def.size())),
            Dump::Chars => {
                proof {
                    lemma_le_bytes_of_le_value(self.data@, 8);
                    lemma_until_zero_padded(self.data@, (8 - self.data@.len()) as nat);
                }
                dump_chars(self.value)
            },
            Dump::Symbols(table) => dump_symbol(table, self.value),
            Dump::Mask => dump_mask(self.value),
        }
    }

    /// The text of the field padded with spaces to the width of the value
    /// column, twelve characters.
    pub fn value_column(&self) -> (column: String)
        ensures
            column@ == self@.value_column(),
    {
        let text: String = self.text();
        pad_to(text.as_str(), 12)
    }

    /// The line that shows the field: the value column in the style of the
    /// field, then the bytes of the field in hexadecimal.
    pub fn render(&self) -> (line: String)
        ensures
            line@ == self@.rendered(),
    {
        let column: String = self.value_column();
        let shown: String = paint(self.def.style(), column.as_str());
        field_line(shown.as_str(), self.data.as_slice())
    }
}

} // verus!
