//! The decoding engine and the registry of readers.
//!
//! A [`FieldDef`] describes one fixed-width field: its name, its width in
//! bytes, how its value is shown and in which style. A [`Section`] is built
//! by cutting the fields of an ordered list of definitions out of a byte
//! buffer, one after the other. A [`Reader`] decodes the sections of one
//! file type and reports them as [`Event`]s; readers are asked for by name.
use vstd::prelude::*;

pub mod bmp;
pub mod bytes;
pub mod field;
pub mod section;
pub mod style;
pub mod text;

pub use crate::readers::field::Dump;
pub use crate::readers::field::dump_chars;
pub use crate::readers::field::dump_signed;
pub use crate::readers::field::dump_symbol;
pub use crate::readers::field::dump_unsigned;
pub use crate::readers::field::DumpView;
pub use crate::readers::field::Field;
pub use crate::readers::field::FieldDef;
pub use crate::readers::field::FieldDefView;
pub use crate::readers::field::FieldView;
pub use crate::readers::section::Cursor;
pub use crate::readers::section::CursorView;
pub use crate::readers::section::DecodeError;
pub use crate::readers::section::DecodeErrorView;
pub use crate::readers::section::Section;
pub use crate::readers::section::SectionView;
pub use crate::readers::style::Colour;
pub use crate::readers::style::Style;

use crate::readers::bmp::bitmap_reading;
use crate::readers::text::same_text;

verus! {

/// What a reader reports while it works through a buffer.
#[derive(PartialEq, Eq, Debug)]
pub enum Event {
    /// A section was decoded.
    Decoded(Section),
    /// A section was left out because the buffer does not ask for it; the
    /// text says which and why.
    Skipped(&'static str),
}

/// The mathematical value of an [`Event`].
pub enum EventView {
    Decoded(SectionView),
    Skipped(Seq<char>),
}

impl View for Event {
    type V = EventView;

    open spec fn view(&self) -> EventView {
        match self {
            Event::Decoded(section) => EventView::Decoded(section@),
            Event::Skipped(note) => EventView::Skipped(note@),
        }
    }
}

/// The mathematical values of a list of events.
pub open spec fn event_views(events: Seq<Event>) -> Seq<EventView> {
    events.map_values(|e: Event| e@)
}

/// The readers this library has, one for each file type it knows.
#[derive(Clone, Copy, PartialEq, Eq, Debug)]
pub enum Reader {
    /// The reader for Windows bitmap files.
    Bmp,
}

impl Reader {
    /// The name the reader is asked for by.
    pub open spec fn label(self) -> Seq<char> {
        match self {
            Reader::Bmp => "bmp"@,
        }
    }

    /// What the reader reports on `bytes` and how its reading ends.
    pub open spec fn reading(self, bytes: Seq<u8>) -> (
        Seq<EventView>,
        Result<(nat, nat), DecodeErrorView>,
    ) {
        match self {
            Reader::Bmp => bitmap_reading(bytes),
        }
    }

    /// The name the reader is asked for by.
    pub fn name(&self) -> (name: &'static str)
        ensures
            name@ == self.label(),
    {
        match self {
            Reader::Bmp => "bmp",
        }
    }

    /// Reads `bytes` with this reader. What the reader reports is added to
    /// `events`; the result is the range of the bytes that were decoded, or
    /// the error that ended the reading.
    pub fn read(&self, bytes: &Vec<u8>, events: &mut Vec<Event>) -> (result: Result<
        (usize, usize),
        DecodeError,
    >)
        ensures
            event_views(final(events)@) == event_views(old(events)@) + self.reading(bytes@).0,
            match result {
                Ok((start, end)) => self.reading(bytes@).1 == Ok::<(nat, nat), DecodeErrorView>(
                    (start as nat, end as nat),
                ),
                Err(error) => self.reading(bytes@).1 == Err::<(nat, nat), DecodeErrorView>(
                    error@,
                ),
            },
    {
        match self {
            Reader::Bmp => crate::readers::bmp::read(bytes, events),
        }
    }
}

/// The reader that is asked for by `name`, if there is one. Names are
/// compared letter for letter.
pub open spec fn reader_named(name: Seq<char>) -> Option<Reader> {
    if name == "bmp"@ {
        Some(Reader::Bmp)
    } else {
        None
    }
}

/// The names of all readers, in the order in which they are tried.
pub open spec fn all_names() -> Seq<Seq<char>> {
    seq!["bmp"@]
}

/// The mathematical values of a list of names.
pub open spec fn name_views<'a>(names: Seq<&'a str>) -> Seq<Seq<char>> {
    names.map_values(|s: &'a str| s@)
}

/// Every reader is found by its own name, and by no other; the names of all
/// readers are the names that find a reader.
pub proof fn lemma_readers_resolve(reader: Reader, name: Seq<char>)
    ensures
        reader_named(reader.label()) == Some(reader),
        reader_named(name) == Some(reader) <==> name == reader.label(),
        all_names().contains(name) <==> reader_named(name) is Some,
{
    assert(all_names()[0] == "bmp"@);
}

/// The names of all readers, in the order in which they are tried.
pub fn all_readers() -> (names: Vec<&'static str>)
    ensures
        name_views(names@) == all_names(),
{
    let names: Vec<&'static str> = vec!["bmp"];
    assert(name_views(names@) =~= all_names());
    names
}

/// The reader that is asked for by `reader`, or `None` when there is no
/// reader of that name.
pub fn get_reader(reader: &str) -> (found: Option<Reader>)
    ensures
        found == reader_named(reader@),
{
    if same_text(reader, "bmp") {
        Some(Reader::Bmp)
    } else {
        None
    }
}

/// What came of asking for one reader by name.
#[derive(PartialEq, Eq, Debug)]
pub enum Attempt {
    /// There is no reader of that name.
    Unknown,
    /// The reader ran: what it reported, and the range of bytes it decoded
    /// or the error that ended its reading.
    Read { events: Vec<Event>, result: Result<(usize, usize), DecodeError> },
}

/// The mathematical value of an [`Attempt`].
pub enum AttemptView {
    Unknown,
    Read { events: Seq<EventView>, result: Result<(nat, nat), DecodeErrorView> },
}

impl View for Attempt {
    type V = AttemptView;

    open spec fn view(&self) -> AttemptView {
        match self {
            Attempt::Unknown => AttemptView::Unknown,
            Attempt::Read { events, result } => AttemptView::Read {
                events: event_views(events@),
                result: match result {
                    Ok((start, end)) => Ok((*start as nat, *end as nat)),
                    Err(error) => Err(error@),
                },
            },
        }
    }
}

/// The mathematical values of a list of attempts.
pub open spec fn attempt_views(attempts: Seq<Attempt>) -> Seq<AttemptView> {
    attempts.map_values(|a: Attempt| a@)
}

/// What comes of asking for the reader called `name` on `bytes`.
pub open spec fn attempt_of(bytes: Seq<u8>, name: Seq<char>) -> AttemptView {
    match reader_named(name) {
        None => AttemptView::Unknown,
        Some(reader) => AttemptView::Read {
            events: reader.reading(bytes).0,
            result: reader.reading(bytes).1,
        },
    }
}

/// What comes of asking for each reader of `names` on `bytes`, in order.
pub open spec fn attempts_of(bytes: Seq<u8>, names: Seq<Seq<char>>) -> Seq<AttemptView> {
    Seq::new(names.len(), |i: int| attempt_of(bytes, names[i]))
}

/// The names to go through for a request: all readers when the request
/// holds the word `all`, else the request as it is.
pub open spec fn selected_names(requested: Seq<Seq<char>>) -> Seq<Seq<char>> {
    if requested.contains("all"@) {
        all_names()
    } else {
        requested
    }
}

/// What comes of asking for a reader depends on its name and the buffer
/// alone. A name that no reader has gives `Unknown` where it stands in the
/// request and changes nothing for the names around it: with that attempt
/// taken out, the outcome is that of the request without the name.
pub proof fn lemma_unknown_name_stands_alone(
    bytes: Seq<u8>,
    names: Seq<Seq<char>>,
    at: int,
    unknown: Seq<char>,
)
    requires
        0 <= at <= names.len(),
        reader_named(unknown) is None,
    ensures
        forall|i: int|
            0 <= i < names.len() ==> #[trigger] attempts_of(bytes, names)[i] == attempt_of(
                bytes,
                names[i],
            ),
        attempts_of(bytes, names.insert(at, unknown))[at] == AttemptView::Unknown,
        attempts_of(bytes, names.insert(at, unknown)).remove(at) == attempts_of(bytes, names),
{
    let longer = names.insert(at, unknown);
    assert(longer[at] == unknown);
    assert(attempts_of(bytes, longer).remove(at) =~= attempts_of(bytes, names)) by {
        assert forall|i: int| 0 <= i < names.len() implies attempts_of(bytes, longer).remove(
            at,
        )[i] == attempts_of(bytes, names)[i] by {
            if i < at {
                assert(longer[i] == names[i]);
            } else {
                assert(longer[i + 1] == names[i]);
            }
        }
    }
}

/// Asks for the reader called `reader_type` and lets it read `bytes`.
pub fn attempt(bytes: &Vec<u8>, reader_type: &str) -> (outcome: Attempt)
    ensures
        outcome@ == attempt_of(bytes@, reader_type@),
{
    match get_reader(reader_type) {
        None => Attempt::Unknown,
        Some(reader) => {
            let mut events: Vec<Event> = Vec::new();
            let result = reader.read(bytes, &mut events);
            assert(event_views(events@) =~= reader.reading(bytes@).0);
            Attempt::Read { events, result }
        },
    }
}

/// Asks for each reader of `types` in turn and lets it read `bytes`. Each
/// name gets its own attempt, whatever came of the others.
pub fn run(bytes: &Vec<u8>, types: &Vec<&str>) -> (outcomes: Vec<Attempt>)
    ensures
        attempt_views(outcomes@) == attempts_of(bytes@, name_views(types@)),
{
    let mut outcomes: Vec<Attempt> = Vec::with_capacity(types.len());
    let mut at: usize = 0;
    while at < types.len()
        invariant
            at <= types.len(),
            outcomes@.len() == at,
            forall|i: int|
                0 <= i < at ==> (#[trigger] outcomes@[i])@ == attempt_of(bytes@, types@[i]@),
        decreases types.len() - at,
    {
        outcomes.push(attempt(bytes, types[at]));
        at = at + 1;
    }
    assert(attempt_views(outcomes@) =~= attempts_of(bytes@, name_views(types@)));
    outcomes
}

/// The names to go through for a request: all readers when the request
/// holds the word `all`, else the request as it is.
pub fn select<'a>(requested: Vec<&'a str>) -> (names: Vec<&'a str>)
    ensures
        name_views(names@) == selected_names(name_views(requested@)),
{
    let mut at: usize = 0;
    while at < requested.len()
        invariant
            at <= requested.len(),
            forall|i: int| 0 <= i < at ==> requested@[i]@ != "all"@,
        decreases requested.len() - at,
    {
        if same_text(requested[at], "all") {
            assert(name_views(requested@)[at as int] == "all"@);
            return all_readers();
        }
        at = at + 1;
    }
    assert(!name_views(requested@).contains("all"@));
    requested
}

} // verus!
