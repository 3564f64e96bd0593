//! Text as sequences of characters: comparing, searching, trimming, and writing
//! numbers out.

use vstd::prelude::*;
use vstd::string::*;
use vstd::utf8::{decode_utf8, valid_utf8};

verus! {

/// `std::string::String::push`: the character is added at the end.
pub assume_specification[ String::push ](text: &mut String, character: char)
    ensures
        final(text)@ == old(text)@.push(character),
;

/// What `std::string::String::from_utf8_lossy` reads out of a run of bytes.
pub uninterp spec fn lossy_text(bytes: Seq<u8>) -> Seq<char>;

/// `std::string::String::from_utf8_lossy`: the text that the bytes encode in
/// UTF-8. Where they encode none, the text depends on the bytes alone, and
/// nothing more is said of it.
#[verifier::external_body]
pub(crate) fn lossy_string(bytes: &[u8]) -> (text: String)
    ensures
        text@ == lossy_text(bytes@),
        valid_utf8(bytes@) ==> text@ == decode_utf8(bytes@),
{
    String::from_utf8_lossy(bytes).into_owned()
}

/// A character of Unicode's White_Space property.
pub open spec fn is_space(c: char) -> bool {
    let code = c as u32;
    ||| 0x9 <= code <= 0xd
    ||| code == 0x20
    ||| code == 0x85
    ||| code == 0xa0
    ||| code == 0x1680
    ||| 0x2000 <= code <= 0x200a
    ||| code == 0x2028
    ||| code == 0x2029
    ||| code == 0x202f
    ||| code == 0x205f
    ||| code == 0x3000
}

/// The text without the white space at its start.
pub open spec fn trimmed_start(s: Seq<char>) -> Seq<char>
    decreases s.len(),
{
    if s.len() > 0 && is_space(s.first()) {
        trimmed_start(s.drop_first())
    } else {
        s
    }
}

/// The text without the white space at its end.
pub open spec fn trimmed_end(s: Seq<char>) -> Seq<char>
    decreases s.len(),
{
    if s.len() > 0 && is_space(s.last()) {
        trimmed_end(s.drop_last())
    } else {
        s
    }
}

/// The text without the white space at its two ends.
pub open spec fn trimmed(s: Seq<char>) -> Seq<char> {
    trimmed_end(trimmed_start(s))
}

/// `needle` occurs somewhere in `s`.
pub open spec fn occurs_in(needle: Seq<char>, s: Seq<char>) -> bool {
    exists|i: int|
        0 <= i <= s.len() - needle.len() && #[trigger] s.subrange(i, i + needle.len()) == needle
}

/// The text starts with `prefix`.
pub open spec fn begins(s: Seq<char>, prefix: Seq<char>) -> bool {
    prefix.len() <= s.len() && s.subrange(0, prefix.len() as int) == prefix
}

/// The digit of a number below ten.
pub open spec fn digit(n: nat) -> char {
    (0x30 + n) as char
}

/// A number in decimal digits.
pub open spec fn digits(n: nat) -> Seq<char>
    decreases n,
{
    if n < 10 {
        seq![digit(n)]
    } else {
        digits(n / 10).push(digit(n % 10))
    }
}

/// The text `s` behind as many zeros as bring it to `width` characters.
pub open spec fn zero_filled(s: Seq<char>, width: nat) -> Seq<char>
    decreases width - s.len(),
{
    if s.len() >= width {
        s
    } else {
        zero_filled(seq!['0'] + s, width)
    }
}

/// A whole number, with a minus sign where it is negative, filled with zeros
/// behind the sign up to `width` characters in all.
pub open spec fn number(n: int, width: nat) -> Seq<char> {
    if n < 0 {
        seq!['-'] + zero_filled(digits((-n) as nat), if width > 0 { (width - 1) as nat } else { 0 })
    } else {
        zero_filled(digits(n as nat), width)
    }
}

/// The characters of a text.
pub fn characters(s: &str) -> (r: Vec<char>)
    ensures
        r@ == s@,
{
    let mut out: Vec<char> = Vec::new();
    for c in iter: s.chars()
        invariant
            iter.seq() == s@,
            out@ == s@.take(iter.index() as int),
    {
        proof {
            assert(s@.take(iter.index() + 1) =~= s@.take(iter.index() as int).push(c));
        }
        out.push(c);
    }
    proof {
        assert(s@.take(s@.len() as int) =~= s@);
    }
    out
}

/// The text that a run of characters spells.
pub fn spelled(characters: &Vec<char>, from: usize, to: usize) -> (r: String)
    requires
        from <= to <= characters@.len(),
    ensures
        r@ == characters@.subrange(from as int, to as int),
{
    let mut out = String::new();
    let mut i: usize = from;
    proof {
        assert(out@ =~= characters@.subrange(from as int, i as int));
    }
    while i < to
        invariant
            from <= i <= to <= characters@.len(),
            out@ == characters@.subrange(from as int, i as int),
        decreases to - i,
    {
        proof {
            assert(characters@.subrange(from as int, i + 1) =~= characters@.subrange(
                from as int,
                i as int,
            ).push(characters@[i as int]));
        }
        out.push(characters[i]);
        i += 1;
    }
    out
}

/// Whether two runs of characters are the same where the second starts at `at`
/// in the first.
fn matches_at(s: &Vec<char>, at: usize, needle: &Vec<char>) -> (r: bool)
    requires
        at + needle@.len() <= s@.len(),
    ensures
        r == (s@.subrange(at as int, at + needle@.len()) == needle@),
{
    let len: usize = s.len();
    let mut i: usize = 0;
    while i < needle.len()
        invariant
            i <= needle@.len(),
            at + needle@.len() <= len == s@.len(),
            forall|j: int| 0 <= j < i ==> s@[at + j] == needle@[j],
        decreases needle@.len() - i,
    {
        if s[at + i] != needle[i] {
            proof {
                assert(s@.subrange(at as int, at + needle@.len())[i as int] != needle@[i as int]);
            }
            return false;
        }
        i += 1;
    }
    proof {
        assert(s@.subrange(at as int, at + needle@.len()) =~= needle@);
    }
    true
}

/// Whether two texts are the same.
pub fn same(a: &str, b: &str) -> (r: bool)
    ensures
        r == (a@ == b@),
{
    let x = characters(a);
    let y = characters(b);
    if x.len() != y.len() {
        return false;
    }
    proof {
        assert(x@.subrange(0, y@.len() as int) =~= x@);
    }
    matches_at(&x, 0, &y)
}

/// Whether a text starts with `prefix`.
pub fn starts_with(s: &str, prefix: &str) -> (r: bool)
    ensures
        r == begins(s@, prefix@),
{
    let x = characters(s);
    let y = characters(prefix);
    if x.len() < y.len() {
        return false;
    }
    matches_at(&x, 0, &y)
}

/// Whether `needle` occurs in a text.
pub fn contains(s: &str, needle: &str) -> (r: bool)
    ensures
        r == occurs_in(needle@, s@),
{
    let x = characters(s);
    let y = characters(needle);
    if x.len() < y.len() {
        return false;
    }
    let last: usize = x.len() - y.len();
    let mut i: usize = 0;
    while i <= last
        invariant
            last == x@.len() - y@.len(),
            i <= last + 1,
            last < usize::MAX || i <= last,
            x@ == s@,
            y@ == needle@,
            forall|j: int| 0 <= j < i ==> #[trigger] s@.subrange(j, j + needle@.len()) != needle@,
        decreases last + 1 - i,
    {
        if matches_at(&x, i, &y) {
            return true;
        }
        if i == last {
            return false;
        }
        i += 1;
    }
    false
}

fn is_space_char(c: char) -> (r: bool)
    ensures
        r == is_space(c),
{
    let code: u32 = c as u32;
    (0x9 <= code && code <= 0xd) || code == 0x20 || code == 0x85 || code == 0xa0 || code == 0x1680
        || (0x2000 <= code && code <= 0x200a) || code == 0x2028 || code == 0x2029 || code == 0x202f
        || code == 0x205f || code == 0x3000
}

/// The text without the white space at its two ends.
pub fn trim(s: &str) -> (r: String)
    ensures
        r@ == trimmed(s@),
{
    let x = characters(s);
    let mut from: usize = 0;
    proof {
        assert(x@.subrange(0, x@.len() as int) =~= x@);
    }
    while from < x.len() && is_space_char(x[from])
        invariant
            from <= x@.len(),
            trimmed_start(x@.subrange(from as int, x@.len() as int)) == trimmed_start(x@),
        decreases x@.len() - from,
    {
        proof {
            assert(x@.subrange(from as int, x@.len() as int).drop_first() =~= x@.subrange(
                from + 1,
                x@.len() as int,
            ));
        }
        from += 1;
    }
    let mut to: usize = x.len();
    while to > from && is_space_char(x[to - 1])
        invariant
            from <= to <= x@.len(),
            trimmed_end(x@.subrange(from as int, to as int)) == trimmed_end(
                x@.subrange(from as int, x@.len() as int),
            ),
        decreases to,
    {
        proof {
            assert(x@.subrange(from as int, to as int).drop_last() =~= x@.subrange(
                from as int,
                to - 1,
            ));
        }
        to -= 1;
    }
    spelled(&x, from, to)
}

/// The digits of a number.
pub fn digits_of(n: u64) -> (r: String)
    ensures
        r@ == digits(n as nat),
    decreases n,
{
    let d: char = (0x30 + (n % 10) as u8) as char;
    if n < 10 {
        let mut out = String::new();
        out.push(d);
        proof {
            assert(out@ =~= seq![digit(n as nat)]);
        }
        out
    } else {
        let mut out = digits_of(n / 10);
        out.push(d);
        out
    }
}

/// A whole number, filled with zeros up to `width` characters.
pub fn number_text(n: i64, width: u8) -> (r: String)
    ensures
        r@ == number(n as int, width as nat),
{
    let magnitude: u64 = if n < 0 {
        (-(n as i128)) as u64
    } else {
        n as u64
    };
    let plain = digits_of(magnitude);
    let width: u8 = if n < 0 && width > 0 {
        width - 1
    } else {
        width
    };
    let filled = fill(plain, width);
    if n < 0 {
        let mut out = String::new();
        out.push('-');
        out.append(filled.as_str());
        proof {
            assert(Seq::<char>::empty().push('-') =~= seq!['-']);
        }
        out
    } else {
        filled
    }
}

fn fill(s: String, width: u8) -> (r: String)
    ensures
        r@ == zero_filled(s@, width as nat),
{
    let mut out = s;
    while out.as_str().unicode_len() < width as usize
        invariant
            zero_filled(out@, width as nat) == zero_filled(s@, width as nat),
        decreases width - out@.len(),
    {
        let mut longer = String::new();
        longer.push('0');
        longer.append(out.as_str());
        proof {
            assert(longer@ =~= seq!['0'] + out@);
        }
        out = longer;
    }
    out
}

proof fn lemma_trimmed_start(s: Seq<char>) -> (cut: int)
    ensures
        0 <= cut <= s.len(),
        trimmed_start(s) == s.subrange(cut, s.len() as int),
        forall|i: int| 0 <= i < cut ==> is_space(#[trigger] s[i]),
        cut < s.len() ==> !is_space(s[cut]),
    decreases s.len(),
{
    if s.len() > 0 && is_space(s.first()) {
        let rest: Seq<char> = s.drop_first();
        let cut: int = lemma_trimmed_start(rest);
        assert(rest.subrange(cut, rest.len() as int) =~= s.subrange(cut + 1, s.len() as int));
        assert forall|i: int| 0 <= i < cut + 1 implies is_space(#[trigger] s[i]) by {
            if i > 0 {
                assert(s[i] == rest[i - 1]);
            }
        }
        cut + 1
    } else {
        assert(s.subrange(0, s.len() as int) =~= s);
        0
    }
}

proof fn lemma_trimmed_end(s: Seq<char>) -> (cut: int)
    ensures
        0 <= cut <= s.len(),
        trimmed_end(s) == s.subrange(0, cut),
        forall|i: int| cut <= i < s.len() ==> is_space(#[trigger] s[i]),
        cut > 0 ==> !is_space(s[cut - 1]),
    decreases s.len(),
{
    if s.len() > 0 && is_space(s.last()) {
        let rest: Seq<char> = s.drop_last();
        let cut: int = lemma_trimmed_end(rest);
        assert(rest.subrange(0, cut) =~= s.subrange(0, cut));
        assert forall|i: int| cut <= i < s.len() implies is_space(#[trigger] s[i]) by {
            if i < rest.len() {
                assert(s[i] == rest[i]);
            }
        }
        cut
    } else {
        assert(s.subrange(0, s.len() as int) =~= s);
        s.len() as int
    }
}

/// The trimmed text is a run of the text that neither starts nor ends with white
/// space, and there is nothing but white space before and behind it.
pub proof fn law_only_white_space_is_trimmed(s: Seq<char>) -> (from: int)
    ensures
        0 <= from <= from + trimmed(s).len() <= s.len(),
        trimmed(s) == s.subrange(from, from + trimmed(s).len()),
        forall|i: int|
            0 <= i < from || from + trimmed(s).len() <= i < s.len() ==> is_space(#[trigger] s[i]),
        trimmed(s).len() > 0 ==> !is_space(trimmed(s)[0]) && !is_space(trimmed(s).last()),
{
    let from: int = lemma_trimmed_start(s);
    let t: Seq<char> = trimmed_start(s);
    let cut: int = lemma_trimmed_end(t);
    assert(trimmed(s) =~= s.subrange(from, from + cut));
    assert forall|i: int| 0 <= i < from || from + cut <= i < s.len() implies is_space(
        #[trigger] s[i],
    ) by {
        if i >= from {
            assert(t[i - from] == s[i]);
        }
    }
    from
}

/// A text starts with a prefix where it is that prefix with something behind it,
/// and contains whatever stands between two other parts of it.
pub proof fn law_parts_are_found(before: Seq<char>, part: Seq<char>, behind: Seq<char>)
    ensures
        begins(part + behind, part),
        occurs_in(part, before + part + behind),
        forall|s: Seq<char>| #[trigger]
            begins(s, part) ==> s == part + s.subrange(part.len() as int, s.len() as int),
        forall|s: Seq<char>| #[trigger]
            occurs_in(part, s) ==> exists|i: int|
                0 <= i <= s.len() && s == #[trigger] s.take(i) + part + s.skip(i + part.len()),
{
    assert((part + behind).subrange(0, part.len() as int) =~= part);
    let whole: Seq<char> = before + part + behind;
    let at: int = before.len() as int;
    assert(whole.subrange(at, at + part.len()) =~= part);
    assert forall|s: Seq<char>| #[trigger] begins(s, part) implies s == part + s.subrange(
        part.len() as int,
        s.len() as int,
    ) by {
        assert(s =~= s.subrange(0, part.len() as int) + s.subrange(
            part.len() as int,
            s.len() as int,
        ));
    }
    assert forall|s: Seq<char>| #[trigger] occurs_in(part, s) implies exists|i: int|
        0 <= i <= s.len() && s == #[trigger] s.take(i) + part + s.skip(i + part.len()) by {
        let i: int = choose|i: int|
            0 <= i <= s.len() - part.len() && #[trigger] s.subrange(i, i + part.len()) == part;
        assert(s =~= s.take(i) + s.subrange(i, i + part.len()) + s.skip(i + part.len()));
    }
}

} // verus!
