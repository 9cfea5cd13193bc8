use vstd::prelude::*;
use vstd::std_specs::iter::IteratorSpec;

verus! {

/// The characters that `char::is_whitespace` accepts: Unicode's White_Space property.
pub open spec fn is_space(c: char) -> bool {
    ('\t' <= c && c <= '\r') || c == ' ' || c == '\u{85}' || c == '\u{a0}' || c == '\u{1680}'
        || ('\u{2000}' <= c && c <= '\u{200a}') || c == '\u{2028}' || c == '\u{2029}'
        || c == '\u{202f}' || c == '\u{205f}' || c == '\u{3000}'
}

/// Executable test for `is_space`.
pub fn char_is_space(c: char) -> (r: bool)
    ensures
        r == is_space(c),
{
    ('\t' <= c && c <= '\r') || c == ' ' || c == '\u{85}' || c == '\u{a0}' || c == '\u{1680}'
        || ('\u{2000}' <= c && c <= '\u{200a}') || c == '\u{2028}' || c == '\u{2029}'
        || c == '\u{202f}' || c == '\u{205f}' || c == '\u{3000}'
}

/// Index of the first occurrence of `c` in `s`, or `s.len()` when there is none.
pub open spec fn find_char(s: Seq<char>, c: char) -> nat
    decreases s.len(),
{
    if s.len() == 0 {
        0
    } else if s[0] == c {
        0
    } else {
        1 + find_char(s.drop_first(), c)
    }
}

/// Index of the first whitespace character of `s`, or `s.len()` when there is none.
pub open spec fn find_space(s: Seq<char>) -> nat
    decreases s.len(),
{
    if s.len() == 0 {
        0
    } else if is_space(s[0]) {
        0
    } else {
        1 + find_space(s.drop_first())
    }
}

/// `s` without its leading whitespace.
pub open spec fn trim_start(s: Seq<char>) -> Seq<char>
    decreases s.len(),
{
    if s.len() > 0 && is_space(s[0]) {
        trim_start(s.drop_first())
    } else {
        s
    }
}

/// `s` without its trailing whitespace.
pub open spec fn trim_end(s: Seq<char>) -> Seq<char>
    decreases s.len(),
{
    if s.len() > 0 && is_space(s.last()) {
        trim_end(s.drop_last())
    } else {
        s
    }
}

/// `s` without leading and trailing whitespace.
pub open spec fn trim(s: Seq<char>) -> Seq<char> {
    trim_end(trim_start(s))
}

/// `find_char` is the first index that holds `c`.
pub proof fn lemma_find_char(s: Seq<char>, c: char, i: int)
    requires
        0 <= i <= s.len(),
        forall|k: int| 0 <= k < i ==> s[k] != c,
        i == s.len() || s[i] == c,
    ensures
        find_char(s, c) == i,
    decreases s.len(),
{
    if s.len() > 0 && s[0] != c {
        lemma_find_char(s.drop_first(), c, i - 1);
    }
}

/// `find_char` is an index within `s` that holds `c`, or `s.len()`, and no earlier index
/// holds `c`.
pub proof fn lemma_find_char_bound(s: Seq<char>, c: char)
    ensures
        find_char(s, c) <= s.len(),
        find_char(s, c) < s.len() ==> s[find_char(s, c) as int] == c,
        forall|k: int| 0 <= k < find_char(s, c) ==> s[k] != c,
    decreases s.len(),
{
    if s.len() > 0 && s[0] != c {
        lemma_find_char_bound(s.drop_first(), c);
        assert forall|k: int| 0 <= k < find_char(s, c) implies s[k] != c by {
            if k > 0 {
                assert(s[k] == s.drop_first()[k - 1]);
            }
        }
    }
}

/// Trimming text that is all whitespace leaves nothing.
pub proof fn lemma_trim_all_space(s: Seq<char>)
    requires
        forall|k: int| 0 <= k < s.len() ==> is_space(s[k]),
    ensures
        trim(s).len() == 0,
    decreases s.len(),
{
    if s.len() > 0 {
        lemma_trim_all_space(s.drop_first());
    }
}

/// `find_space` is at most the length of the text.
pub proof fn lemma_find_space_bound(s: Seq<char>)
    ensures
        find_space(s) <= s.len(),
    decreases s.len(),
{
    if s.len() > 0 && !is_space(s[0]) {
        lemma_find_space_bound(s.drop_first());
    }
}

/// `find_space` is the first index that holds whitespace.
pub proof fn lemma_find_space(s: Seq<char>, i: int)
    requires
        0 <= i <= s.len(),
        forall|k: int| 0 <= k < i ==> !is_space(s[k]),
        i == s.len() || is_space(s[i]),
    ensures
        find_space(s) == i,
    decreases s.len(),
{
    if s.len() > 0 && !is_space(s[0]) {
        lemma_find_space(s.drop_first(), i - 1);
    }
}

/// The characters of a string, in order.
pub fn chars_of(s: &str) -> (v: Vec<char>)
    ensures
        v@ == s@,
{
    let mut v: Vec<char> = Vec::new();
    for c in it: s.chars()
        invariant
            v@ == it.seq().take(it.index() as int),
    {
        v.push(c);
    }
    v
}

/// Position of the first `c` within `buf[lo..hi]`, or `hi` when there is none.
pub fn position_of(buf: &Vec<char>, lo: usize, hi: usize, c: char) -> (r: usize)
    requires
        lo <= hi <= buf@.len(),
    ensures
        lo <= r <= hi,
        r - lo == find_char(buf@.subrange(lo as int, hi as int), c),
{
    let mut i = lo;
    while i < hi && buf[i] != c
        invariant
            lo <= i <= hi <= buf@.len(),
            forall|k: int| lo <= k < i ==> buf@[k] != c,
        decreases hi - i,
    {
        i = i + 1;
    }
    proof {
        lemma_find_char(buf@.subrange(lo as int, hi as int), c, i - lo);
    }
    i
}

/// Position of the first whitespace character within `buf[lo..hi]`, or `hi` when there is none.
pub fn position_of_space(buf: &Vec<char>, lo: usize, hi: usize) -> (r: usize)
    requires
        lo <= hi <= buf@.len(),
    ensures
        lo <= r <= hi,
        r - lo == find_space(buf@.subrange(lo as int, hi as int)),
{
    let mut i = lo;
    while i < hi && !char_is_space(buf[i])
        invariant
            lo <= i <= hi <= buf@.len(),
            forall|k: int| lo <= k < i ==> !is_space(buf@[k]),
        decreases hi - i,
    {
        i = i + 1;
    }
    proof {
        lemma_find_space(buf@.subrange(lo as int, hi as int), i - lo);
    }
    i
}

/// Bounds of `buf[lo..hi]` with its leading and trailing whitespace removed.
pub fn trim_range(buf: &Vec<char>, lo: usize, hi: usize) -> (r: (usize, usize))
    requires
        lo <= hi <= buf@.len(),
    ensures
        lo <= r.0 <= r.1 <= hi,
        buf@.subrange(r.0 as int, r.1 as int) == trim(buf@.subrange(lo as int, hi as int)),
{
    let ghost s = buf@.subrange(lo as int, hi as int);
    let mut a = lo;
    while a < hi && char_is_space(buf[a])
        invariant
            lo <= a <= hi <= buf@.len(),
            trim_start(s) == trim_start(buf@.subrange(a as int, hi as int)),
        decreases hi - a,
    {
        assert(buf@.subrange(a as int, hi as int).drop_first() =~= buf@.subrange(
            a + 1,
            hi as int,
        ));
        a = a + 1;
    }
    assert(trim_start(s) == buf@.subrange(a as int, hi as int));
    let mut b = hi;
    while b > a && char_is_space(buf[b - 1])
        invariant
            lo <= a <= b <= hi <= buf@.len(),
            trim(s) == trim_end(buf@.subrange(a as int, b as int)),
        decreases b - a,
    {
        assert(buf@.subrange(a as int, b as int).drop_last() =~= buf@.subrange(
            a as int,
            b - 1,
        ));
        b = b - 1;
    }
    (a, b)
}

/// Why a decimal number could not be read; the kinds follow `core::num::IntErrorKind`.
#[derive(Clone, Copy, Debug, PartialEq, Eq, Structural)]
pub enum NumberError {
    /// No characters at all.
    Empty,
    /// A character that is not a decimal digit, or a sign with nothing after it.
    InvalidDigit,
    /// The value is above `i16::MAX`.
    PosOverflow,
    /// The value is below `i16::MIN`.
    NegOverflow,
}

pub open spec fn is_digit(c: char) -> bool {
    '0' <= c && c <= '9'
}

pub open spec fn digit_value(c: char) -> int {
    c as int - '0' as int
}

/// Reads the digits of `s` from the left onto the value `acc` read so far (subtracting them
/// when `negative`), and stops at the first character that is not a digit or that takes the
/// value out of the range of `i16`.
pub open spec fn scan_digits(s: Seq<char>, acc: int, negative: bool) -> Result<int, NumberError>
    decreases s.len(),
{
    if s.len() == 0 {
        Ok(acc)
    } else if !is_digit(s[0]) {
        Err(NumberError::InvalidDigit)
    } else {
        let next = if negative {
            acc * 10 - digit_value(s[0])
        } else {
            acc * 10 + digit_value(s[0])
        };
        if next > i16::MAX {
            Err(NumberError::PosOverflow)
        } else if next < i16::MIN {
            Err(NumberError::NegOverflow)
        } else {
            scan_digits(s.drop_first(), next, negative)
        }
    }
}

/// A base-10 `i16` written as an optional `+` or `-` followed by ASCII digits, read as
/// `i16::from_str` reads it.
pub open spec fn parse_i16(s: Seq<char>) -> Result<i16, NumberError> {
    if s.len() == 0 {
        Err(NumberError::Empty)
    } else if (s[0] == '+' || s[0] == '-') && s.len() == 1 {
        Err(NumberError::InvalidDigit)
    } else {
        let negative = s[0] == '-';
        let digits = if s[0] == '+' || s[0] == '-' {
            s.drop_first()
        } else {
            s
        };
        match scan_digits(digits, 0, negative) {
            Ok(v) => Ok(v as i16),
            Err(e) => Err(e),
        }
    }
}

/// Reads `buf[lo..hi]` as a base-10 `i16`.
pub fn parse_i16_range(buf: &Vec<char>, lo: usize, hi: usize) -> (r: Result<i16, NumberError>)
    requires
        lo <= hi <= buf@.len(),
    ensures
        r == parse_i16(buf@.subrange(lo as int, hi as int)),
{
    let ghost s = buf@.subrange(lo as int, hi as int);
    if lo == hi {
        return Err(NumberError::Empty);
    }
    let first = buf[lo];
    let signed = first == '+' || first == '-';
    if signed && hi - lo == 1 {
        return Err(NumberError::InvalidDigit);
    }
    let negative = first == '-';
    let mut i: usize = if signed {
        lo + 1
    } else {
        lo
    };
    assert(s.drop_first() =~= buf@.subrange(lo + 1, hi as int));
    let mut acc: i32 = 0;
    while i < hi
        invariant
            lo <= i <= hi <= buf@.len(),
            i16::MIN <= acc <= i16::MAX,
            s == buf@.subrange(lo as int, hi as int),
            parse_i16(s) == match scan_digits(buf@.subrange(i as int, hi as int), acc as int, negative) {
                Ok(v) => Ok::<i16, NumberError>(v as i16),
                Err(e) => Err(e),
            },
        decreases hi - i,
    {
        let ghost rest = buf@.subrange(i as int, hi as int);
        assert(rest.drop_first() =~= buf@.subrange(i + 1, hi as int));
        let c = buf[i];
        assert(rest[0] == c);
        if !('0' <= c && c <= '9') {
            return Err(NumberError::InvalidDigit);
        }
        let d = (c as u32 - '0' as u32) as i32;
        assert(d == digit_value(c));
        let next = if negative {
            acc * 10 - d
        } else {
            acc * 10 + d
        };
        if next > i16::MAX as i32 {
            return Err(NumberError::PosOverflow);
        }
        if next < i16::MIN as i32 {
            return Err(NumberError::NegOverflow);
        }
        acc = next;
        i = i + 1;
    }
    Ok(acc as i16)
}

/// Reads a whole string, after trimming its whitespace, as a base-10 `i16`; this is how a
/// line of input is read.
pub fn parse_number(s: &str) -> (r: Result<i16, NumberError>)
    ensures
        r == parse_i16(trim(s@)),
{
    let buf = chars_of(s);
    let (a, b) = trim_range(&buf, 0, buf.len());
    assert(buf@.subrange(0, buf@.len() as int) =~= s@);
    parse_i16_range(&buf, a, b)
}

/// A character's code with ASCII lower-case letters moved to upper case.
pub open spec fn letter_key(c: char) -> u32 {
    if 'a' <= c && c <= 'z' {
        (c as u32 - 32) as u32
    } else {
        c as u32
    }
}

/// Two texts of one length whose characters agree up to ASCII letter case.
pub open spec fn same_but_case(a: Seq<char>, b: Seq<char>) -> bool {
    a.len() == b.len() && forall|i: int|
        0 <= i < a.len() ==> letter_key(#[trigger] a[i]) == letter_key(b[i])
}

pub open spec fn is_ascii_letter(c: char) -> bool {
    ('a' <= c && c <= 'z') || ('A' <= c && c <= 'Z')
}

/// Characters with one key are equal, or are the same ASCII letter in two cases.
pub proof fn lemma_key_equal(x: char, y: char)
    requires
        letter_key(x) == letter_key(y),
    ensures
        x == y || (is_ascii_letter(x) && is_ascii_letter(y)),
        is_space(x) == is_space(y),
{
    if x != y {
        assert((x as u32) != (y as u32));
    }
}

/// Parts of two texts that agree up to case agree up to case.
pub proof fn lemma_same_but_case_subrange(a: Seq<char>, b: Seq<char>, lo: int, hi: int)
    requires
        same_but_case(a, b),
        0 <= lo <= hi <= a.len(),
    ensures
        same_but_case(a.subrange(lo, hi), b.subrange(lo, hi)),
{
    assert forall|i: int| 0 <= i < hi - lo implies letter_key(#[trigger] a.subrange(lo, hi)[i])
        == letter_key(b.subrange(lo, hi)[i]) by {
        assert(letter_key(a[lo + i]) == letter_key(b[lo + i]));
    }
}

/// Searching for a character that is no letter finds it at the same place in two texts that
/// agree up to case.
pub proof fn lemma_find_char_same_but_case(a: Seq<char>, b: Seq<char>, c: char)
    requires
        same_but_case(a, b),
        !is_ascii_letter(c),
    ensures
        find_char(a, c) == find_char(b, c),
    decreases a.len(),
{
    if a.len() > 0 {
        lemma_key_equal(a[0], b[0]);
        lemma_same_but_case_subrange(a, b, 1, a.len() as int);
        assert(a.drop_first() =~= a.subrange(1, a.len() as int));
        assert(b.drop_first() =~= b.subrange(1, b.len() as int));
        lemma_find_char_same_but_case(a.drop_first(), b.drop_first(), c);
    }
}

/// Whitespace stands at the same places in two texts that agree up to case.
pub proof fn lemma_find_space_same_but_case(a: Seq<char>, b: Seq<char>)
    requires
        same_but_case(a, b),
    ensures
        find_space(a) == find_space(b),
    decreases a.len(),
{
    if a.len() > 0 {
        lemma_key_equal(a[0], b[0]);
        lemma_same_but_case_subrange(a, b, 1, a.len() as int);
        assert(a.drop_first() =~= a.subrange(1, a.len() as int));
        assert(b.drop_first() =~= b.subrange(1, b.len() as int));
        lemma_find_space_same_but_case(a.drop_first(), b.drop_first());
    }
}

/// Trimming two texts that agree up to case leaves texts that agree up to case.
pub proof fn lemma_trim_same_but_case(a: Seq<char>, b: Seq<char>)
    requires
        same_but_case(a, b),
    ensures
        same_but_case(trim(a), trim(b)),
{
    lemma_trim_start_same_but_case(a, b);
    lemma_trim_end_same_but_case(trim_start(a), trim_start(b));
}

proof fn lemma_trim_start_same_but_case(a: Seq<char>, b: Seq<char>)
    requires
        same_but_case(a, b),
    ensures
        same_but_case(trim_start(a), trim_start(b)),
    decreases a.len(),
{
    if a.len() > 0 {
        lemma_key_equal(a[0], b[0]);
        if is_space(a[0]) {
            lemma_same_but_case_subrange(a, b, 1, a.len() as int);
            assert(a.drop_first() =~= a.subrange(1, a.len() as int));
            assert(b.drop_first() =~= b.subrange(1, b.len() as int));
            lemma_trim_start_same_but_case(a.drop_first(), b.drop_first());
        }
    }
}

proof fn lemma_trim_end_same_but_case(a: Seq<char>, b: Seq<char>)
    requires
        same_but_case(a, b),
    ensures
        same_but_case(trim_end(a), trim_end(b)),
    decreases a.len(),
{
    if a.len() > 0 {
        lemma_key_equal(a.last(), b.last());
        lemma_same_but_case_subrange(a, b, 0, a.len() - 1);
        assert(a.drop_last() =~= a.subrange(0, a.len() - 1));
        assert(b.drop_last() =~= b.subrange(0, b.len() - 1));
        lemma_trim_end_same_but_case(a.drop_last(), b.drop_last());
    }
}

/// Digits that scan to a value are all digits.
pub proof fn lemma_scan_ok_all_digits(s: Seq<char>, acc: int, negative: bool)
    requires
        scan_digits(s, acc, negative) is Ok,
    ensures
        forall|i: int| 0 <= i < s.len() ==> is_digit(#[trigger] s[i]),
    decreases s.len(),
{
    if s.len() > 0 {
        let next = if negative {
            acc * 10 - digit_value(s[0])
        } else {
            acc * 10 + digit_value(s[0])
        };
        lemma_scan_ok_all_digits(s.drop_first(), next, negative);
        assert forall|i: int| 0 <= i < s.len() implies is_digit(#[trigger] s[i]) by {
            if i > 0 {
                assert(s[i] == s.drop_first()[i - 1]);
            }
        }
    }
}

/// A number that reads in one text reads the same in a text that agrees with it up to case:
/// the two texts are equal.
pub proof fn lemma_parse_same_but_case(a: Seq<char>, b: Seq<char>)
    requires
        same_but_case(a, b),
        parse_i16(a) is Ok,
    ensures
        a == b,
{
    let digits = if a[0] == '+' || a[0] == '-' {
        a.drop_first()
    } else {
        a
    };
    lemma_scan_ok_all_digits(digits, 0, a[0] == '-');
    assert forall|i: int| 0 <= i < a.len() implies a[i] == b[i] by {
        lemma_key_equal(a[i], b[i]);
        if a[0] == '+' || a[0] == '-' {
            if i > 0 {
                assert(is_digit(digits[i - 1]));
            }
        } else {
            assert(is_digit(digits[i]));
        }
    }
    assert(a =~= b);
}

/// The upper-case form that `char::to_uppercase` gives `c`, where that form is made of ASCII
/// letters only; `None` for every other character.
pub open spec fn upper_letters(c: char) -> Option<Seq<char>> {
    if 'a' <= c && c <= 'z' {
        Some(seq![((c as u32 - 32) as u8) as char])
    } else if 'A' <= c && c <= 'Z' {
        Some(seq![c])
    } else if c == '\u{131}' {
        Some(seq!['I'])
    } else if c == '\u{17f}' {
        Some(seq!['S'])
    } else if c == '\u{df}' {
        Some(seq!['S', 'S'])
    } else if c == '\u{fb00}' {
        Some(seq!['F', 'F'])
    } else if c == '\u{fb01}' {
        Some(seq!['F', 'I'])
    } else if c == '\u{fb02}' {
        Some(seq!['F', 'L'])
    } else if c == '\u{fb03}' {
        Some(seq!['F', 'F', 'I'])
    } else if c == '\u{fb04}' {
        Some(seq!['F', 'F', 'L'])
    } else if c == '\u{fb05}' || c == '\u{fb06}' {
        Some(seq!['S', 'T'])
    } else {
        None
    }
}

/// The upper-case form that `str::to_uppercase` gives `w`, where it is made of ASCII letters
/// only; `None` when some character upper-cases to anything else.
pub open spec fn upper_word(w: Seq<char>) -> Option<Seq<char>>
    decreases w.len(),
{
    if w.len() == 0 {
        Some(seq![])
    } else {
        match (upper_word(w.drop_last()), upper_letters(w.last())) {
            (Some(p), Some(q)) => Some(p + q),
            _ => None,
        }
    }
}

/// Once a prefix has no ASCII upper-case form, neither has the whole word.
proof fn lemma_upper_word_prefix_none(w: Seq<char>, i: int)
    requires
        0 <= i <= w.len(),
        upper_word(w.take(i)) is None,
    ensures
        upper_word(w) is None,
    decreases w.len(),
{
    if i == w.len() {
        assert(w.take(i) =~= w);
    } else {
        assert(w.drop_last().take(i) =~= w.take(i));
        lemma_upper_word_prefix_none(w.drop_last(), i);
    }
}

/// Appends the ASCII upper-case form of `c` to `u`, when it has one.
fn push_upper(u: &mut Vec<char>, c: char) -> (ok: bool)
    ensures
        ok == upper_letters(c) is Some,
        ok ==> final(u)@ == old(u)@ + upper_letters(c)->0,
        !ok ==> final(u)@ == old(u)@,
{
    if 'a' <= c && c <= 'z' {
        u.push(((c as u32 - 32) as u8) as char);
    } else if 'A' <= c && c <= 'Z' {
        u.push(c);
    } else if c == '\u{131}' {
        u.push('I');
    } else if c == '\u{17f}' {
        u.push('S');
    } else if c == '\u{df}' {
        u.push('S');
        u.push('S');
    } else if c == '\u{fb00}' {
        u.push('F');
        u.push('F');
    } else if c == '\u{fb01}' {
        u.push('F');
        u.push('I');
    } else if c == '\u{fb02}' {
        u.push('F');
        u.push('L');
    } else if c == '\u{fb03}' {
        u.push('F');
        u.push('F');
        u.push('I');
    } else if c == '\u{fb04}' {
        u.push('F');
        u.push('F');
        u.push('L');
    } else if c == '\u{fb05}' || c == '\u{fb06}' {
        u.push('S');
        u.push('T');
    } else {
        return false;
    }
    assert(final(u)@ =~= old(u)@ + upper_letters(c)->0);
    true
}

/// The ASCII upper-case form of `buf[lo..hi]`, when it has one.
pub fn upper_range(buf: &Vec<char>, lo: usize, hi: usize) -> (r: Option<Vec<char>>)
    requires
        lo <= hi <= buf@.len(),
    ensures
        match r {
            Some(u) => upper_word(buf@.subrange(lo as int, hi as int)) == Some(u@),
            None => upper_word(buf@.subrange(lo as int, hi as int)) is None,
        },
{
    let ghost w = buf@.subrange(lo as int, hi as int);
    let mut u: Vec<char> = Vec::new();
    let mut i = lo;
    assert(w.take(0) =~= Seq::<char>::empty());
    while i < hi
        invariant
            lo <= i <= hi <= buf@.len(),
            w == buf@.subrange(lo as int, hi as int),
            upper_word(w.take(i - lo)) == Some(u@),
        decreases hi - i,
    {
        let ghost before = u@;
        assert(w.take(i - lo + 1).drop_last() =~= w.take(i - lo));
        assert(w.take(i - lo + 1).last() == buf@[i as int]);
        if !push_upper(&mut u, buf[i]) {
            proof {
                lemma_upper_word_prefix_none(w, i - lo + 1);
            }
            return None;
        }
        i = i + 1;
    }
    assert(w.take(hi - lo) =~= w);
    Some(u)
}

/// Words that agree up to ASCII letter case have one upper-case form.
pub proof fn lemma_upper_word_same_but_case(a: Seq<char>, b: Seq<char>)
    requires
        same_but_case(a, b),
    ensures
        upper_word(a) == upper_word(b),
    decreases a.len(),
{
    if a.len() > 0 {
        let n = a.len() - 1;
        lemma_same_but_case_subrange(a, b, 0, n);
        assert(a.drop_last() =~= a.subrange(0, n));
        assert(b.drop_last() =~= b.subrange(0, n));
        lemma_upper_word_same_but_case(a.drop_last(), b.drop_last());
        lemma_key_equal(a.last(), b.last());
        lemma_upper_letters_same_key(a.last(), b.last());
    }
}

proof fn lemma_upper_letters_same_key(x: char, y: char)
    requires
        letter_key(x) == letter_key(y),
    ensures
        upper_letters(x) == upper_letters(y),
{
    if x != y {
        lemma_key_equal(x, y);
        if 'a' <= x && x <= 'z' {
            assert(((x as u32 - 32) as u8) as char == y);
        } else {
            assert(((y as u32 - 32) as u8) as char == x);
        }
    }
}

} // verus!
