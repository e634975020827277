//! Building blocks for the text that a dump shows: digits, decimal and
//! hexadecimal numbers, padding to a column width, and string comparison.
use vstd::prelude::*;
use vstd::utf8::decode_utf8;
use vstd::utf8::encode_utf8;
use vstd::utf8::encode_utf8_decode_utf8;
use vstd::utf8::valid_utf8;

use crate::readers::bytes::zeros;

verus! {

/// The character that stands for the digit `d` in base 16 (and, below ten,
/// in base 10). Letters are lower case.
pub open spec fn digit_char(d: nat) -> char
    recommends
        d < 16,
{
    if d == 0 {
        '0'
    } else if d == 1 {
        '1'
    } else if d == 2 {
        '2'
    } else if d == 3 {
        '3'
    } else if d == 4 {
        '4'
    } else if d == 5 {
        '5'
    } else if d == 6 {
        '6'
    } else if d == 7 {
        '7'
    } else if d == 8 {
        '8'
    } else if d == 9 {
        '9'
    } else if d == 10 {
        'a'
    } else if d == 11 {
        'b'
    } else if d == 12 {
        'c'
    } else if d == 13 {
        'd'
    } else if d == 14 {
        'e'
    } else {
        'f'
    }
}

/// The decimal numeral of `n`, without sign and without leading zeros.
pub open spec fn decimal(n: nat) -> Seq<char>
    decreases n,
{
    if n < 10 {
        seq![digit_char(n)]
    } else {
        decimal(n / 10).push(digit_char(n % 10))
    }
}

/// The decimal numeral of `i`, with a leading minus sign when it is negative.
pub open spec fn signed_decimal(i: int) -> Seq<char> {
    if i < 0 {
        seq!['-'] + decimal((-i) as nat)
    } else {
        decimal(i as nat)
    }
}

/// `count` spaces.
pub open spec fn spaces(count: nat) -> Seq<char> {
    Seq::new(count, |i: int| ' ')
}

/// `text` followed by as many spaces as it takes to reach `width`
/// characters; unchanged when it is already that long.
pub open spec fn pad_right(text: Seq<char>, width: nat) -> Seq<char> {
    if text.len() >= width {
        text
    } else {
        text + spaces((width - text.len()) as nat)
    }
}

/// What stands in for a value that cannot be shown: a question mark.
pub open spec fn placeholder_text() -> Seq<char> {
    seq!['?']
}

/// The bytes of `bytes` before its first zero byte; all of them when none
/// is zero.
pub open spec fn until_zero(bytes: Seq<u8>) -> Seq<u8>
    decreases bytes.len(),
{
    if bytes.len() == 0 || bytes[0] == 0 {
        Seq::empty()
    } else {
        seq![bytes[0]] + until_zero(bytes.drop_first())
    }
}

/// The text that a run of bytes spells: the characters that the bytes
/// before the first zero byte encode in UTF-8, or the placeholder when they
/// are not valid UTF-8.
pub open spec fn text_of(bytes: Seq<u8>) -> Seq<char> {
    if valid_utf8(until_zero(bytes)) {
        decode_utf8(until_zero(bytes))
    } else {
        placeholder_text()
    }
}

/// Two hexadecimal digits for `byte`, after a space.
pub open spec fn hex_cell(byte: u8) -> Seq<char> {
    seq![' ', digit_char(byte as nat / 16), digit_char(byte as nat % 16)]
}

/// The bytes of `bytes` in hexadecimal, each after a space.
pub open spec fn hex_dump(bytes: Seq<u8>) -> Seq<char>
    decreases bytes.len(),
{
    if bytes.len() == 0 {
        Seq::empty()
    } else {
        hex_dump(bytes.drop_last()) + hex_cell(bytes.last())
    }
}

/// `until_zero` is the part of `bytes` before its first zero byte.
pub proof fn lemma_until_zero(bytes: Seq<u8>)
    ensures
        until_zero(bytes).len() <= bytes.len(),
        until_zero(bytes) == bytes.take(until_zero(bytes).len() as int),
        forall|i: int| 0 <= i < until_zero(bytes).len() ==> bytes[i] != 0,
        until_zero(bytes).len() < bytes.len() ==> bytes[until_zero(bytes).len() as int] == 0,
    decreases bytes.len(),
{
    if bytes.len() == 0 || bytes[0] == 0 {
        assert(until_zero(bytes) =~= bytes.take(0));
    } else {
        let rest = bytes.drop_first();
        lemma_until_zero(rest);
        let run = until_zero(bytes);
        assert(run =~= bytes.take(run.len() as int));
        assert forall|i: int| 0 <= i < run.len() implies bytes[i] != 0 by {
            if i > 0 {
                assert(bytes[i] == rest[i - 1]);
            }
        }
        if run.len() < bytes.len() {
            assert(bytes[run.len() as int] == rest[run.len() - 1]);
        }
    }
}

/// Text ends at the first zero byte: where `bytes` holds a zero at `cut` and
/// none before it, the bytes after `cut` do not count.
pub proof fn lemma_text_ends_at_zero(bytes: Seq<u8>, cut: int)
    requires
        0 <= cut < bytes.len(),
        bytes[cut] == 0,
        forall|i: int| 0 <= i < cut ==> bytes[i] != 0,
    ensures
        until_zero(bytes) == bytes.take(cut),
        text_of(bytes) == text_of(bytes.take(cut)),
        text_of(bytes) == if valid_utf8(bytes.take(cut)) {
            decode_utf8(bytes.take(cut))
        } else {
            placeholder_text()
        },
{
    lemma_until_zero(bytes);
    let run = until_zero(bytes);
    if run.len() < cut {
        assert(bytes[run.len() as int] == 0);
    } else if run.len() > cut {
        assert(bytes[cut] != 0);
    }
    let head = bytes.take(cut);
    lemma_until_zero(head);
    let head_run = until_zero(head);
    if head_run.len() < head.len() {
        assert(head[head_run.len() as int] == bytes[head_run.len() as int]);
    }
    assert(head_run =~= head);
}

/// Zero bytes after a run of bytes do not change what comes before the
/// first zero byte.
pub proof fn lemma_until_zero_padded(bytes: Seq<u8>, count: nat)
    ensures
        until_zero(bytes + zeros(count)) == until_zero(bytes),
    decreases bytes.len(),
{
    let padded = bytes + zeros(count);
    if bytes.len() == 0 {
        assert(padded.len() == 0 || padded[0] == 0);
    } else if bytes[0] == 0 {
        assert(padded[0] == 0);
    } else {
        lemma_until_zero_padded(bytes.drop_first(), count);
        assert(padded.drop_first() =~= bytes.drop_first() + zeros(count));
        assert(padded[0] == bytes[0]);
    }
}

/// A one-character string holding the digit `d`.
pub fn digit_str(d: u8) -> (s: &'static str)
    requires
        d < 16,
    ensures
        s@ == seq![digit_char(d as nat)],
{
    proof {
        reveal_strlit("0");
        reveal_strlit("1");
        reveal_strlit("2");
        reveal_strlit("3");
        reveal_strlit("4");
        reveal_strlit("5");
        reveal_strlit("6");
        reveal_strlit("7");
        reveal_strlit("8");
        reveal_strlit("9");
        reveal_strlit("a");
        reveal_strlit("b");
        reveal_strlit("c");
        reveal_strlit("d");
        reveal_strlit("e");
        reveal_strlit("f");
    }
    let s: &'static str = if d == 0 {
        "0"
    } else if d == 1 {
        "1"
    } else if d == 2 {
        "2"
    } else if d == 3 {
        "3"
    } else if d == 4 {
        "4"
    } else if d == 5 {
        "5"
    } else if d == 6 {
        "6"
    } else if d == 7 {
        "7"
    } else if d == 8 {
        "8"
    } else if d == 9 {
        "9"
    } else if d == 10 {
        "a"
    } else if d == 11 {
        "b"
    } else if d == 12 {
        "c"
    } else if d == 13 {
        "d"
    } else if d == 14 {
        "e"
    } else {
        "f"
    };
    assert(s@ =~= seq![digit_char(d as nat)]);
    s
}

/// The placeholder as a string.
pub fn placeholder() -> (text: &'static str)
    ensures
        text@ == placeholder_text(),
{
    proof {
        reveal_strlit("?");
    }
    let text: &'static str = "?";
    assert(text@ =~= placeholder_text());
    text
}

/// `String::from_utf8` of std: the string that `bytes` encode in UTF-8,
/// or `None` when they are not valid UTF-8. Validity and decoding are
/// those of `vstd::utf8`; the contract is taken on trust.
#[verifier::external_body]
pub(crate) fn utf8_text(bytes: Vec<u8>) -> (text: Option<String>)
    ensures
        text is Some <==> valid_utf8(bytes@),
        text matches Some(decoded) ==> decoded@ == decode_utf8(bytes@),
{
    match String::from_utf8(bytes) {
        Ok(decoded) => Some(decoded),
        Err(_) => None,
    }
}

/// Appends the bytes of `bytes` in hexadecimal, each after a space.
pub fn push_hex_dump(out: &mut String, bytes: &[u8])
    ensures
        final(out)@ == old(out)@ + hex_dump(bytes@),
{
    let mut at: usize = 0;
    proof {
        assert(bytes@.take(0) =~= Seq::<u8>::empty());
        assert(out@ =~= old(out)@ + hex_dump(bytes@.take(0)));
    }
    while at < bytes.len()
        invariant
            at <= bytes@.len(),
            out@ == old(out)@ + hex_dump(bytes@.take(at as int)),
        decreases bytes@.len() - at,
    {
        let byte: u8 = bytes[at];
        let ghost before = out@;
        proof {
            reveal_strlit(" ");
            assert(bytes@.take(at + 1).drop_last() =~= bytes@.take(at as int));
        }
        out.append(" ");
        out.append(digit_str(byte / 16));
        out.append(digit_str(byte % 16));
        at = at + 1;
        assert(out@ =~= before + hex_cell(byte));
    }
    assert(bytes@.take(at as int) =~= bytes@);
}

/// Appends the decimal numeral of `n` to `out`.
pub fn push_decimal(out: &mut String, n: u64)
    ensures
        final(out)@ == old(out)@ + decimal(n as nat),
    decreases n,
{
    if n >= 10 {
        push_decimal(out, n / 10);
    }
    out.append(digit_str((n % 10) as u8));
    assert(out@ =~= old(out)@ + decimal(n as nat));
}

/// Pads `text` on the right with spaces to `width` characters.
pub fn pad_to(text: &str, width: usize) -> (out: String)
    ensures
        out@ == pad_right(text@, width as nat),
{
    let len: usize = text.unicode_len();
    let mut out: String = String::from_str(text);
    let mut at: usize = len;
    while at < width
        invariant
            len == text@.len(),
            len <= at,
            at <= width || at == len,
            out@ == text@ + spaces((at - len) as nat),
        decreases width - at,
    {
        proof {
            reveal_strlit(" ");
        }
        out.append(" ");
        at = at + 1;
        assert(out@ =~= text@ + spaces((at - len) as nat));
    }
    assert(out@ =~= pad_right(text@, width as nat));
    out
}

/// Whether two strings hold the same characters.
pub fn same_text(a: &str, b: &str) -> (same: bool)
    ensures
        same == (a@ == b@),
{
    let x: &[u8] = a.as_bytes();
    let y: &[u8] = b.as_bytes();
    if x.len() != y.len() {
        return false;
    }
    let mut at: usize = 0;
    while at < x.len()
        invariant
            x@ == encode_utf8(a@),
            y@ == encode_utf8(b@),
            x.len() == y.len(),
            at <= x.len(),
            forall|k: int| 0 <= k < at ==> x@[k] == y@[k],
        decreases x.len() - at,
    {
        if x[at] != y[at] {
            return false;
        }
        at = at + 1;
    }
    proof {
        assert(x@ =~= y@);
        encode_utf8_decode_utf8(a@);
        encode_utf8_decode_utf8(b@);
    }
    true
}

} // verus!
