//! Text as the library handles it: ASCII bytes read as characters, white
//! space, and strings built one character at a time.

use vstd::prelude::*;
use vstd::string::StringSliceAdditionalSpecFns;

verus! {

/// `String::push` of the standard library appends one character to the
/// string and changes nothing else of it.
pub assume_specification[ String::push ](text: &mut String, ch: char)
    ensures
        final(text)@ == old(text)@.push(ch),
;

/// Tells whether two texts are the same, character by character.
pub fn same_text(a: &str, b: &str) -> (same: bool)
    ensures
        same == (a@ == b@),
{
    broadcast use vstd::utf8::encode_utf8_decode_utf8;

    let left = a.as_bytes();
    let right = b.as_bytes();
    if left.len() != right.len() {
        return false;
    }
    let mut i: usize = 0;
    while i < left.len()
        invariant
            i <= left@.len(),
            left@.len() == right@.len(),
            left@ == a.spec_bytes(),
            right@ == b.spec_bytes(),
            forall|j: int| 0 <= j < i ==> left@[j] == right@[j],
        decreases left@.len() - i,
    {
        if left[i] != right[i] {
            return false;
        }
        i += 1;
    }
    assert(left@ =~= right@);
    assert(vstd::utf8::decode_utf8(vstd::utf8::encode_utf8(a@)) == a@);
    assert(vstd::utf8::decode_utf8(vstd::utf8::encode_utf8(b@)) == b@);
    true
}

/// Every byte is an ASCII code, that is, below 128.
pub open spec fn is_ascii_bytes(bytes: Seq<u8>) -> bool {
    forall|i: int| 0 <= i < bytes.len() ==> #[trigger] bytes[i] < 128
}

/// The characters that the bytes stand for, each byte read as one
/// character code.
pub open spec fn ascii_text(bytes: Seq<u8>) -> Seq<char> {
    Seq::new(bytes.len(), |i: int| bytes[i] as char)
}

/// White space as Unicode defines it, which is what the standard library
/// trims.
pub open spec fn is_whitespace(c: char) -> bool {
    let u = c as u32;
    ||| 0x09 <= u <= 0x0D
    ||| u == 0x20
    ||| u == 0x85
    ||| u == 0xA0
    ||| u == 0x1680
    ||| 0x2000 <= u <= 0x200A
    ||| u == 0x2028
    ||| u == 0x2029
    ||| u == 0x202F
    ||| u == 0x205F
    ||| u == 0x3000
}

/// The text without the white space at its two ends.
pub open spec fn trim(s: Seq<char>) -> Seq<char>
    decreases s.len(),
{
    if s.len() > 0 && is_whitespace(s.first()) {
        trim(s.drop_first())
    } else if s.len() > 0 && is_whitespace(s.last()) {
        trim(s.drop_last())
    } else {
        s
    }
}

/// Tells whether `c` is white space.
pub fn is_space_char(c: char) -> (space: bool)
    ensures
        space == is_whitespace(c),
{
    let u = c as u32;
    (0x09 <= u && u <= 0x0D) || u == 0x20 || u == 0x85 || u == 0xA0 || u == 0x1680 || (0x2000 <= u
        && u <= 0x200A) || u == 0x2028 || u == 0x2029 || u == 0x202F || u == 0x205F || u == 0x3000
}

/// The text without the white space at its two ends.
pub fn trimmed(text: &str) -> (rest: &str)
    ensures
        rest@ == trim(text@),
{
    let len = text.unicode_len();
    let mut start: usize = 0;
    assert(text@.subrange(0, text@.len() as int) =~= text@);
    while start < len && is_space_char(text.get_char(start))
        invariant
            start <= len == text@.len(),
            trim(text@.subrange(start as int, len as int)) == trim(text@),
        decreases len - start,
    {
        assert(text@.subrange(start as int, len as int).drop_first() =~= text@.subrange(
            start + 1,
            len as int,
        ));
        start += 1;
    }
    let mut end: usize = len;
    while end > start && is_space_char(text.get_char(end - 1))
        invariant
            start <= end <= len == text@.len(),
            start < len ==> !is_whitespace(text@[start as int]),
            trim(text@.subrange(start as int, end as int)) == trim(text@),
        decreases end,
    {
        assert(text@.subrange(start as int, end as int).drop_last() =~= text@.subrange(
            start as int,
            end - 1,
        ));
        end -= 1;
    }
    text.substring_char(start, end)
}

/// Tells whether `text` begins with `prefix`.
pub fn starts_with(text: &str, prefix: &str) -> (begins: bool)
    ensures
        begins == prefix@.is_prefix_of(text@),
{
    let n = prefix.unicode_len();
    if text.unicode_len() < n {
        false
    } else {
        same_text(text.substring_char(0, n), prefix)
    }
}

/// Tells whether an ASCII byte stands for a white-space character.
pub(crate) fn is_space_byte(b: u8) -> (space: bool)
    requires
        b < 128,
    ensures
        space == is_whitespace(b as char),
{
    (9 <= b && b <= 13) || b == 32
}

/// The bounds of what `trim` leaves of an ASCII text.
pub(crate) fn trim_bounds(data: &[u8]) -> (bounds: (usize, usize))
    requires
        is_ascii_bytes(data@),
    ensures
        bounds.0 <= bounds.1 <= data@.len(),
        ascii_text(data@).subrange(bounds.0 as int, bounds.1 as int) == trim(ascii_text(data@)),
{
    let ghost text = ascii_text(data@);
    let mut start: usize = 0;
    assert(text.subrange(0, text.len() as int) =~= text);
    while start < data.len() && is_space_byte(data[start])
        invariant
            start <= data.len(),
            is_ascii_bytes(data@),
            text == ascii_text(data@),
            trim(text.subrange(start as int, text.len() as int)) == trim(text),
        decreases data.len() - start,
    {
        assert(text.subrange(start as int, text.len() as int).drop_first() =~= text.subrange(
            start + 1,
            text.len() as int,
        ));
        start += 1;
    }
    let mut end: usize = data.len();
    while end > start && is_space_byte(data[end - 1])
        invariant
            start <= end <= data.len(),
            is_ascii_bytes(data@),
            text == ascii_text(data@),
            start < data.len() ==> !is_whitespace(text[start as int]),
            trim(text.subrange(start as int, end as int)) == trim(text),
        decreases end,
    {
        assert(text.subrange(start as int, end as int).drop_last() =~= text.subrange(
            start as int,
            end - 1,
        ));
        end -= 1;
    }
    (start, end)
}

/// The text that the bytes of `data` from `from` up to `to` stand for.
pub(crate) fn text_of(data: &[u8], from: usize, to: usize) -> (text: String)
    requires
        from <= to <= data@.len(),
    ensures
        text@ == ascii_text(data@).subrange(from as int, to as int),
{
    let mut text = String::new();
    let mut i: usize = from;
    while i < to
        invariant
            from <= i <= to <= data@.len(),
            text@ == ascii_text(data@).subrange(from as int, i as int),
        decreases to - i,
    {
        text.push(data[i] as char);
        i += 1;
        assert(text@ =~= ascii_text(data@).subrange(from as int, i as int));
    }
    text
}

/// Tells whether the bytes of `data` from `from` up to `to` stand for the
/// text `word`.
pub(crate) fn range_is(data: &[u8], from: usize, to: usize, word: &str) -> (same: bool)
    requires
        from <= to <= data@.len(),
        is_ascii_bytes(data@),
    ensures
        same == (ascii_text(data@).subrange(from as int, to as int) == word@),
{
    broadcast use vstd::string::is_ascii_spec_bytes;

    let ghost part = ascii_text(data@).subrange(from as int, to as int);
    if !word.is_ascii() {
        assert(part != word@) by {
            if part == word@ {
                assert forall|i: int| 0 <= i < word@.len() implies '\0' <= #[trigger] word@[i]
                    <= '\u{7f}' by {
                    assert(word@[i] == data@[from + i] as char);
                }
            }
        }
        return false;
    }
    let letters = word.as_bytes();
    assert(letters@.len() == word@.len());
    if letters.len() != to - from {
        return false;
    }
    let mut k: usize = 0;
    while k < letters.len()
        invariant
            k <= letters@.len(),
            letters@.len() == to - from,
            letters@.len() == word@.len(),
            from <= to <= data@.len(),
            is_ascii_bytes(data@),
            vstd::string::is_ascii(word),
            letters@ == word.spec_bytes(),
            part == ascii_text(data@).subrange(from as int, to as int),
            forall|i: int| 0 <= i < k ==> part[i] == word@[i],
        decreases letters@.len() - k,
    {
        if data[from + k] != letters[k] {
            assert(part[k as int] != word@[k as int]);
            return false;
        }
        assert(part[k as int] == word@[k as int]);
        k += 1;
    }
    assert(part =~= word@);
    true
}

/// The character of a decimal digit.
pub open spec fn digit_char(d: int) -> char {
    (48 + d) as u8 as char
}

/// The decimal numeral of `n`, without leading zeros.
pub open spec fn decimal_text(n: nat) -> Seq<char>
    decreases n,
{
    if n < 10 {
        seq![digit_char(n as int)]
    } else {
        decimal_text(n / 10).push(digit_char((n % 10) as int))
    }
}

/// Writes `n` as a decimal numeral.
pub fn decimal(n: u64) -> (text: String)
    ensures
        text@ == decimal_text(n as nat),
    decreases n,
{
    if n < 10 {
        let mut text = String::new();
        text.push((48 + n as u8) as char);
        assert(text@ =~= decimal_text(n as nat));
        text
    } else {
        let mut text = decimal(n / 10);
        text.push((48 + (n % 10) as u8) as char);
        text
    }
}

} // verus!
