//! Sections: ordered groups of fields that are decoded one after the other
//! from a cursor, looked up by name and shown as a table.
use vstd::prelude::*;

use crate::readers::field::Field;
use crate::readers::field::field_at;
use crate::readers::field::FieldDef;
use crate::readers::field::FieldDefView;
use crate::readers::field::FieldView;
use crate::readers::style::Colour;
use crate::readers::style::paint;
use crate::readers::style::painted;
use crate::readers::style::Style;
use crate::readers::style::title_style;
use crate::readers::text::decimal;
use crate::readers::text::pad_right;
use crate::readers::text::pad_to;
use crate::readers::text::push_decimal;
use crate::readers::text::same_text;

verus! {

/// Why a buffer could not be decoded. Decoding fails in one way only: the
/// buffer is too short. A value that cannot be shown is no failure; it is
/// shown as the placeholder.
#[derive(PartialEq, Eq, Debug)]
pub enum DecodeError {
    /// The buffer ends before the last byte of a field.
    TruncatedInput {
        /// The name of the field that could not be read in full.
        field: &'static str,
        /// The offset in the buffer at which the field starts.
        offset: usize,
        /// The width of the field in bytes.
        needed: usize,
        /// The number of bytes left in the buffer from `offset` on.
        available: usize,
    },
}

/// The mathematical value of a [`DecodeError`].
pub enum DecodeErrorView {
    TruncatedInput { field: Seq<char>, offset: nat, needed: nat, available: nat },
}

impl View for DecodeError {
    type V = DecodeErrorView;

    open spec fn view(&self) -> DecodeErrorView {
        match self {
            DecodeError::TruncatedInput { field, offset, needed, available } => {
                DecodeErrorView::TruncatedInput {
                    field: field@,
                    offset: *offset as nat,
                    needed: *needed as nat,
                    available: *available as nat,
                }
            },
        }
    }
}

impl DecodeErrorView {
    /// The sentence that tells a reader of the dump what went wrong.
    pub open spec fn message(self) -> Seq<char> {
        match self {
            DecodeErrorView::TruncatedInput { field, offset, needed, available } => {
                "truncated input: field "@ + field + " at offset "@ + decimal(offset) + " needs "@
                    + decimal(needed) + " byte(s), "@ + decimal(available) + " left"@
            },
        }
    }
}

impl DecodeError {
    /// The sentence that tells a reader of the dump what went wrong: which
    /// field could not be read, where it starts, how many bytes it needs and
    /// how many are left.
    pub fn message(&self) -> (text: String)
        ensures
            text@ == self@.message(),
    {
        match self {
            DecodeError::TruncatedInput { field, offset, needed, available } => {
                let mut text: String = String::from_str("truncated input: field ");
                text.append(field);
                text.append(" at offset ");
                push_decimal(&mut text, *offset as u64);
                text.append(" needs ");
                push_decimal(&mut text, *needed as u64);
                text.append(" byte(s), ");
                push_decimal(&mut text, *available as u64);
                text.append(" left");
                assert(text@ =~= self@.message());
                text
            },
        }
    }
}

/// A read position in a byte buffer. It only moves forward.
pub struct Cursor<'a> {
    bytes: &'a [u8],
    pos: usize,
}

/// The mathematical value of a [`Cursor`]: the whole buffer and the number
/// of bytes already consumed.
pub struct CursorView {
    pub bytes: Seq<u8>,
    pub pos: nat,
}

impl CursorView {
    /// The number of bytes not yet consumed.
    pub open spec fn remaining(self) -> nat {
        (self.bytes.len() - self.pos) as nat
    }
}

impl<'a> View for Cursor<'a> {
    type V = CursorView;

    closed spec fn view(&self) -> CursorView {
        CursorView { bytes: self.bytes@, pos: self.pos as nat }
    }
}

impl<'a> Cursor<'a> {
    #[verifier::type_invariant]
    spec fn within(&self) -> bool {
        self.pos <= self.bytes@.len()
    }

    /// A cursor at the start of `bytes`.
    pub fn new(bytes: &'a [u8]) -> (cursor: Cursor<'a>)
        ensures
            cursor@ == (CursorView { bytes: bytes@, pos: 0 }),
    {
        Cursor { bytes, pos: 0 }
    }

    /// The number of bytes consumed so far.
    pub fn position(&self) -> (pos: usize)
        ensures
            pos == self@.pos,
            pos <= self@.bytes.len(),
    {
        proof {
            use_type_invariant(self);
        }
        self.pos
    }

    /// The number of bytes not yet consumed.
    pub fn remaining(&self) -> (left: usize)
        ensures
            left == self@.remaining(),
            self@.pos + left == self@.bytes.len(),
    {
        proof {
            use_type_invariant(self);
        }
        self.bytes.len() - self.pos
    }

    /// Consumes the next `count` bytes and returns them, or consumes nothing
    /// and returns `None` when fewer than `count` bytes are left.
    pub fn take(&mut self, count: usize) -> (taken: Option<Vec<u8>>)
        ensures
            final(self)@.bytes == old(self)@.bytes,
            match taken {
                Some(data) => {
                    &&& count <= old(self)@.remaining()
                    &&& data@ == old(self)@.bytes.subrange(
                        old(self)@.pos as int,
                        old(self)@.pos + count,
                    )
                    &&& final(self)@.pos == old(self)@.pos + count
                },
                None => {
                    &&& count > old(self)@.remaining()
                    &&& final(self)@.pos == old(self)@.pos
                },
            },
    {
        proof {
            use_type_invariant(&*self);
        }
        if count > self.bytes.len() - self.pos {
            return None;
        }
        let start: usize = self.pos;
        let total: usize = self.bytes.len();
        let mut data: Vec<u8> = Vec::with_capacity(count);
        let mut at: usize = 0;
        while at < count
            invariant
                at <= count,
                start + count <= total,
                total == self.bytes@.len(),
                data@ == self.bytes@.subrange(start as int, start + at),
            decreases count - at,
        {
            data.push(self.bytes[start + at]);
            at = at + 1;
            assert(data@ =~= self.bytes@.subrange(start as int, start + at));
        }
        self.pos = start + count;
        Some(data)
    }
}

/// An ordered, named group of decoded fields.
#[derive(PartialEq, Eq, Debug)]
pub struct Section {
    name: &'static str,
    fields: Vec<Field>,
}

/// The mathematical value of a [`Section`].
pub struct SectionView {
    pub name: Seq<char>,
    pub fields: Seq<FieldView>,
}

impl SectionView {
    /// The lines that show the section: its name in the title style, then
    /// one row for each field, in order.
    pub open spec fn rendered(self) -> Seq<char> {
        heading_text(painted(Style::coloured(Colour::Green), self.name)) + rows_text(self.fields)
    }

    /// The index of the first field called `name`, or `None` when no field
    /// has that name.
    pub open spec fn index_of(self, name: Seq<char>) -> Option<int> {
        first_named(self.fields, name)
    }
}

/// The index of the first field of `fields` called `name`, or `None` when
/// none of them has that name.
pub open spec fn first_named(fields: Seq<FieldView>, name: Seq<char>) -> Option<int>
    decreases fields.len(),
{
    if fields.len() == 0 {
        None
    } else {
        match first_named(fields.drop_last(), name) {
            Some(index) => Some(index),
            None => if fields.last().def.name == name {
                Some(fields.len() - 1)
            } else {
                None
            },
        }
    }
}

/// `first_named` finds the first field of that name and misses none.
pub proof fn lemma_first_named(fields: Seq<FieldView>, name: Seq<char>)
    ensures
        match first_named(fields, name) {
            Some(index) => {
                &&& 0 <= index < fields.len()
                &&& fields[index].def.name == name
                &&& forall|j: int| 0 <= j < index ==> fields[j].def.name != name
            },
            None => forall|j: int| 0 <= j < fields.len() ==> fields[j].def.name != name,
        },
    decreases fields.len(),
{
    if fields.len() > 0 {
        let before = fields.drop_last();
        lemma_first_named(before, name);
        match first_named(before, name) {
            Some(index) => {
                assert forall|j: int| 0 <= j < index implies fields[j].def.name != name by {
                    assert(before[j].def.name != name);
                }
            },
            None => {
                assert forall|j: int| 0 <= j < before.len() implies fields[j].def.name != name by {
                    assert(before[j].def.name != name);
                }
            },
        }
    }
}

impl View for Section {
    type V = SectionView;

    closed spec fn view(&self) -> SectionView {
        SectionView { name: self.name@, fields: self.fields@.map_values(|f: Field| f@) }
    }
}

/// The mathematical values of a list of definitions.
pub open spec fn def_views(defs: Seq<FieldDef>) -> Seq<FieldDefView> {
    defs.map_values(|d: FieldDef| d@)
}

/// The number of bytes that the fields of `defs` take up together.
pub open spec fn total_width(defs: Seq<FieldDefView>) -> nat
    decreases defs.len(),
{
    if defs.len() == 0 {
        0
    } else {
        total_width(defs.drop_last()) + defs.last().size
    }
}

/// The distance from the start of a section to the start of its field
/// `index`: the widths of the fields before it.
pub open spec fn offset_of(defs: Seq<FieldDefView>, index: int) -> nat {
    total_width(defs.take(index))
}

/// The index of the first field of `defs` that does not fit in whole when
/// `available` bytes are left, or `None` when all of them fit.
pub open spec fn shortfall(available: nat, defs: Seq<FieldDefView>) -> Option<int>
    decreases defs.len(),
{
    if defs.len() == 0 {
        None
    } else {
        match shortfall(available, defs.drop_last()) {
            Some(index) => Some(index),
            None => if total_width(defs) > available {
                Some(defs.len() - 1)
            } else {
                None
            },
        }
    }
}

/// The section called `name` that `defs` cuts out of `bytes` from offset
/// `start` on, each field directly after the one before it.
pub open spec fn section_at(
    bytes: Seq<u8>,
    start: nat,
    name: Seq<char>,
    defs: Seq<FieldDefView>,
) -> SectionView {
    SectionView {
        name,
        fields: Seq::new(
            defs.len(),
            |i: int| field_at(bytes, (start + offset_of(defs, i)) as int, defs[i]),
        ),
    }
}

/// What decoding a section gives: the section when every field fits in the
/// bytes from `start` on, else the error for the first field that does not.
pub open spec fn decode_section(
    bytes: Seq<u8>,
    start: nat,
    name: Seq<char>,
    defs: Seq<FieldDefView>,
) -> Result<SectionView, DecodeErrorView> {
    match shortfall((bytes.len() - start) as nat, defs) {
        None => Ok(section_at(bytes, start, name, defs)),
        Some(index) => Err(
            DecodeErrorView::TruncatedInput {
                field: defs[index].name,
                offset: start + offset_of(defs, index),
                needed: defs[index].size,
                available: (bytes.len() - start - offset_of(defs, index)) as nat,
            },
        ),
    }
}

/// The number of bytes that decoding a section consumes: all of its width
/// when it succeeds, else the widths of the fields before the one that did
/// not fit.
pub open spec fn consumed_by(available: nat, defs: Seq<FieldDefView>) -> nat {
    match shortfall(available, defs) {
        None => total_width(defs),
        Some(index) => offset_of(defs, index),
    }
}

/// The line that heads a section, given its name as it is to appear.
pub open spec fn heading_text(title: Seq<char>) -> Seq<char> {
    seq![' ', ' '] + title + seq![':', '\n']
}

/// The line for one field of a section: the name of the field padded to
/// sixteen columns, then the line that shows the field.
pub open spec fn row_text(name: Seq<char>, line: Seq<char>) -> Seq<char> {
    seq![' ', ' ', '+', ' '] + pad_right(name, 16) + seq![':', ' '] + line + seq!['\n']
}

/// The rows of `fields`, in order.
pub open spec fn rows_text(fields: Seq<FieldView>) -> Seq<char>
    decreases fields.len(),
{
    if fields.len() == 0 {
        Seq::empty()
    } else {
        rows_text(fields.drop_last()) + row_text(fields.last().def.name, fields.last().rendered())
    }
}

/// A field added at the end of a list adds its width to the total.
pub proof fn lemma_total_width_push(defs: Seq<FieldDefView>, def: FieldDefView)
    ensures
        total_width(defs.push(def)) == total_width(defs) + def.size,
{
    assert(defs.push(def).drop_last() =~= defs);
}

/// The fields of a list start at offsets that never go down, and the last
/// one ends at the total width.
pub proof fn lemma_offsets_grow(defs: Seq<FieldDefView>, first: int, second: int)
    requires
        0 <= first <= second <= defs.len(),
    ensures
        offset_of(defs, first) <= offset_of(defs, second),
        offset_of(defs, defs.len() as int) == total_width(defs),
        second < defs.len() ==> offset_of(defs, second + 1) == offset_of(defs, second)
            + defs[second].size,
    decreases second - first,
{
    assert(defs.take(defs.len() as int) =~= defs);
    if second < defs.len() {
        assert(defs.take(second + 1).drop_last() =~= defs.take(second));
    }
    if first < second {
        assert(defs.take(second).drop_last() =~= defs.take(second - 1));
        lemma_offsets_grow(defs, first, second - 1);
    }
}

/// Every field of a list fits exactly when the bytes that are left cover
/// the total width. When they do not, the field named by `shortfall` is the
/// first that ends past the bytes that are left: it starts within them, and
/// so do all the fields before it.
pub proof fn lemma_shortfall(available: nat, defs: Seq<FieldDefView>)
    ensures
        shortfall(available, defs) is None <==> total_width(defs) <= available,
        shortfall(available, defs) matches Some(index) ==> {
            &&& 0 <= index < defs.len()
            &&& offset_of(defs, index) <= available
            &&& offset_of(defs, index + 1) > available
        },
    decreases defs.len(),
{
    if defs.len() > 0 {
        let before = defs.drop_last();
        let last = defs.len() - 1;
        lemma_shortfall(available, before);
        lemma_offsets_grow(defs, last, last);
        assert(defs.take(last) =~= before);
        match shortfall(available, before) {
            Some(index) => {
                assert(before.take(index) =~= defs.take(index));
                assert(before.take(index + 1) =~= defs.take(index + 1));
                lemma_offsets_grow(defs, index + 1, defs.len() as int);
            },
            None => {},
        }
    }
}

/// Once a field of a list does not fit, it remains the first one that does
/// not fit however the list goes on.
proof fn lemma_shortfall_extends(available: nat, defs: Seq<FieldDefView>, count: int)
    requires
        0 <= count <= defs.len(),
        shortfall(available, defs.take(count)) is Some,
    ensures
        shortfall(available, defs) == shortfall(available, defs.take(count)),
    decreases defs.len(),
{
    if count < defs.len() {
        assert(defs.drop_last().take(count) =~= defs.take(count));
        lemma_shortfall_extends(available, defs.drop_last(), count);
    } else {
        assert(defs.take(count) =~= defs);
    }
}

/// A section that is decoded takes up the total width of its fields, and it
/// is decoded exactly when that many bytes are left; otherwise the error
/// names the first field that ends past the end of the buffer, and the
/// fields before it, and no others, are consumed.
pub proof fn lemma_decode_section(bytes: Seq<u8>, start: nat, name: Seq<char>, defs: Seq<FieldDefView>)
    requires
        start <= bytes.len(),
    ensures
        decode_section(bytes, start, name, defs) is Ok <==> start + total_width(defs)
            <= bytes.len(),
        decode_section(bytes, start, name, defs) is Ok ==> consumed_by(
            (bytes.len() - start) as nat,
            defs,
        ) == total_width(defs),
        decode_section(bytes, start, name, defs) matches Err(
            DecodeErrorView::TruncatedInput { field, offset, needed, available },
        ) ==> {
            let index = shortfall((bytes.len() - start) as nat, defs).unwrap();
            &&& 0 <= index < defs.len()
            &&& field == defs[index].name
            &&& needed == defs[index].size
            &&& offset == start + offset_of(defs, index)
            &&& offset + available == bytes.len()
            &&& available < needed
            &&& consumed_by((bytes.len() - start) as nat, defs) == offset_of(defs, index)
        },
{
    let available = (bytes.len() - start) as nat;
    lemma_shortfall(available, defs);
    match shortfall(available, defs) {
        Some(index) => {
            lemma_offsets_grow(defs, index, index);
        },
        None => {},
    }
}

/// Decoding is a function of the buffer, the offset and the definitions:
/// two sections decoded from the same three are the same, field for field.
pub proof fn lemma_decoding_repeats(
    bytes: Seq<u8>,
    start: nat,
    name: Seq<char>,
    defs: Seq<FieldDefView>,
    first: SectionView,
    second: SectionView,
)
    requires
        decode_section(bytes, start, name, defs) == Ok::<SectionView, DecodeErrorView>(first),
        decode_section(bytes, start, name, defs) == Ok::<SectionView, DecodeErrorView>(second),
    ensures
        first == second,
        first.fields.len() == defs.len(),
        forall|i: int|
            0 <= i < defs.len() ==> first.fields[i] == second.fields[i] && first.fields[i].data
                == bytes.subrange(
                (start + offset_of(defs, i)) as int,
                (start + offset_of(defs, i) + defs[i].size) as int,
            ),
{
}

/// Once a field of that name is found, it remains the first one however the
/// list goes on.
proof fn lemma_first_named_extends(fields: Seq<FieldView>, name: Seq<char>, count: int)
    requires
        0 <= count <= fields.len(),
        first_named(fields.take(count), name) is Some,
    ensures
        first_named(fields, name) == first_named(fields.take(count), name),
    decreases fields.len(),
{
    if count < fields.len() {
        assert(fields.drop_last().take(count) =~= fields.take(count));
        lemma_first_named_extends(fields.drop_last(), name, count);
    } else {
        assert(fields.take(count) =~= fields);
    }
}

/// The line that heads a section whose name appears as `title`.
pub fn section_heading(title: &str) -> (line: String)
    ensures
        line@ == heading_text(title@),
{
    proof {
        reveal_strlit("  ");
        reveal_strlit(":\n");
    }
    let mut line: String = String::from_str("  ");
    line.append(title);
    line.append(":\n");
    assert(line@ =~= heading_text(title@));
    line
}

/// The line for a field called `name` that is shown as `line`.
pub fn field_row(name: &str, line: &str) -> (row: String)
    ensures
        row@ == row_text(name@, line@),
{
    proof {
        reveal_strlit("  + ");
        reveal_strlit(": ");
        reveal_strlit("\n");
    }
    let mut row: String = String::from_str("  + ");
    let column: String = pad_to(name, 16);
    row.append(column.as_str());
    row.append(": ");
    row.append(line);
    row.append("\n");
    assert(row@ =~= row_text(name@, line@));
    row
}

impl Section {
    /// Decodes the section called `name`: reads the fields that
    /// `proto_fields` describes, in order, from the cursor on. When the
    /// buffer ends inside a field, the fields before it stay consumed and
    /// the error names the field.
    pub fn from_bytes(cursor: &mut Cursor, name: &'static str, proto_fields: Vec<FieldDef>) -> (result:
        Result<Section, DecodeError>)
        ensures
            final(cursor)@.bytes == old(cursor)@.bytes,
            final(cursor)@.pos == old(cursor)@.pos + consumed_by(
                old(cursor)@.remaining(),
                def_views(proto_fields@),
            ),
            result is Ok <==> total_width(def_views(proto_fields@)) <= old(cursor)@.remaining(),
            result is Ok ==> final(cursor)@.pos == old(cursor)@.pos + total_width(
                def_views(proto_fields@),
            ),
            match result {
                Ok(section) => decode_section(
                    old(cursor)@.bytes,
                    old(cursor)@.pos,
                    name@,
                    def_views(proto_fields@),
                ) == Ok::<SectionView, DecodeErrorView>(section@),
                Err(error) => decode_section(
                    old(cursor)@.bytes,
                    old(cursor)@.pos,
                    name@,
                    def_views(proto_fields@),
                ) == Err::<SectionView, DecodeErrorView>(error@),
            },
    {
        let ghost defs = def_views(proto_fields@);
        let ghost bytes = cursor@.bytes;
        let ghost start = cursor@.pos;
        let ghost available = cursor@.remaining();
        let mut fields: Vec<Field> = Vec::with_capacity(proto_fields.len());
        proof {
            use_type_invariant(&*cursor);
            assert(defs.take(0) =~= Seq::<FieldDefView>::empty());
        }
        for def in iter: proto_fields
            invariant
                iter.seq() == proto_fields@,
                defs == def_views(proto_fields@),
                bytes == old(cursor)@.bytes,
                start == old(cursor)@.pos,
                available == old(cursor)@.remaining(),
                cursor@.bytes == bytes,
                start + available == bytes.len(),
                cursor@.pos == start + offset_of(defs, iter.index() as int),
                shortfall(available, defs.take(iter.index() as int)) is None,
                offset_of(defs, iter.index() as int) <= available,
                fields@.len() == iter.index(),
                forall|i: int|
                    0 <= i < iter.index() ==> (#[trigger] fields@[i])@ == field_at(
                        bytes,
                        (start + offset_of(defs, i)) as int,
                        defs[i],
                    ),
        {
            let ghost at = iter.index() as int;
            proof {
                assert(defs.take(at + 1).drop_last() =~= defs.take(at));
                assert(defs.take(at + 1).last() == defs[at]);
                assert(defs[at] == def@);
            }
            match Field::extract(cursor, def) {
                Ok(field) => {
                    fields.push(field);
                },
                Err(error) => {
                    proof {
                        lemma_shortfall_extends(available, defs, at + 1);
                        lemma_decode_section(bytes, start, name@, defs);
                    }
                    return Err(error);
                },
            }
        }
        let section = Section { name, fields };
        proof {
            assert(defs.take(defs.len() as int) =~= defs);
            assert(section@.fields =~= section_at(bytes, start, name@, defs).fields);
            lemma_decode_section(bytes, start, name@, defs);
        }
        Ok(section)
    }

    /// The name of the section.
    pub fn name(&self) -> (name: &'static str)
        ensures
            name@ == self@.name,
    {
        self.name
    }

    /// The number of fields in the section.
    pub fn len(&self) -> (len: usize)
        ensures
            len == self@.fields.len(),
    {
        self.fields.len()
    }

    /// The field at `index`, counting from zero, or `None` past the end.
    pub fn field(&self, index: usize) -> (field: Option<&Field>)
        ensures
            match field {
                Some(found) => index < self@.fields.len() && found@ == self@.fields[index as int],
                None => index >= self@.fields.len(),
            },
    {
        if index < self.fields.len() {
            Some(&self.fields[index])
        } else {
            None
        }
    }

    /// The lines that show the section: its name in the title style, then
    /// one row for each field, in order.
    pub fn render(&self) -> (lines: String)
        ensures
            lines@ == self@.rendered(),
    {
        let title: String = paint(title_style(), self.name);
        let mut lines: String = section_heading(title.as_str());
        let ghost heading = lines@;
        let ghost fields = self@.fields;
        let mut at: usize = 0;
        proof {
            assert(fields.take(0) =~= Seq::<FieldView>::empty());
            assert(lines@ =~= heading + rows_text(fields.take(0)));
        }
        while at < self.fields.len()
            invariant
                at <= self.fields.len(),
                fields == self@.fields,
                fields.len() == self.fields.len(),
                lines@ == heading + rows_text(fields.take(at as int)),
            decreases self.fields.len() - at,
        {
            let field: &Field = &self.fields[at];
            let line: String = field.render();
            let row: String = field_row(field.def().name(), line.as_str());
            proof {
                assert(fields.take(at + 1).drop_last() =~= fields.take(at as int));
                assert(fields.take(at + 1).last() == field@);
            }
            lines.append(row.as_str());
            at = at + 1;
            assert(lines@ =~= heading + rows_text(fields.take(at as int)));
        }
        proof {
            assert(fields.take(at as int) =~= fields);
        }
        lines
    }

    /// The first field called `name`, or `None` when the section has no
    /// field of that name.
    pub fn get(&self, name: &str) -> (field: Option<&Field>)
        ensures
            match field {
                Some(found) => {
                    &&& self@.index_of(name@) is Some
                    &&& found@ == self@.fields[self@.index_of(name@).unwrap()]
                },
                None => self@.index_of(name@) is None,
            },
    {
        let ghost fields = self@.fields;
        let mut at: usize = 0;
        proof {
            assert(fields.take(0) =~= Seq::<FieldView>::empty());
        }
        while at < self.fields.len()
            invariant
                at <= self.fields.len(),
                fields == self@.fields,
                first_named(fields.take(at as int), name@) is None,
            decreases self.fields.len() - at,
        {
            proof {
                assert(fields.take(at + 1).drop_last() =~= fields.take(at as int));
            }
            if same_text(self.fields[at].def().name(), name) {
                proof {
                    lemma_first_named_extends(fields, name@, at + 1);
                }
                return Some(&self.fields[at]);
            }
            at = at + 1;
        }
        proof {
            assert(fields.take(at as int) =~= fields);
        }
        None
    }
}

} // verus!
