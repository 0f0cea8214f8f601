//! Text: decimal and hexadecimal numbers, words and lines.
use vstd::prelude::*;
use vstd::string::*;
use vstd::utf8::{decode_utf8, valid_utf8};

verus! {

/// Calls `std::string::String::push`: the character goes behind the others.
#[verifier::external_body]
pub(crate) fn push_char(text: &mut String, c: char)
    ensures
        final(text)@ == old(text)@.push(c),
{
    text.push(c);
}

/// Calls `std::string::String::from_utf8`: the text that the bytes spell, or
/// nothing when they are not valid UTF-8.
#[verifier::external_body]
pub(crate) fn utf8_text(bytes: Vec<u8>) -> (text: Option<String>)
    ensures
        text is Some <==> valid_utf8(bytes@),
        text is Some ==> text->0@ == decode_utf8(bytes@),
{
    String::from_utf8(bytes).ok()
}

/// What is said of bytes that are not UTF-8.
pub uninterp spec fn utf8_error_text(bytes: Seq<u8>) -> Seq<char>;

/// Calls `std::str::from_utf8`: the text that the bytes spell, or, when they are not
/// valid UTF-8, what the error says, which is a function of the bytes alone.
#[verifier::external_body]
pub(crate) fn utf8_or_why(bytes: &[u8]) -> (r: Result<String, String>)
    ensures
        match r {
            Ok(text) => valid_utf8(bytes@) && text@ == decode_utf8(bytes@),
            Err(why) => !valid_utf8(bytes@) && why@ == utf8_error_text(bytes@),
        },
{
    match std::str::from_utf8(bytes) {
        Ok(text) => Ok(text.to_owned()),
        Err(e) => Err(e.to_string()),
    }
}

/// What is said of a text that spells no `u32`.
pub uninterp spec fn u32_error_text(text: Seq<char>) -> Seq<char>;

/// Calls `str::parse::<u32>`: the number that the text spells in digits, with or without a
/// plus sign in front, or, when it spells none that fits, what the error says, which is a
/// function of the text alone.
#[verifier::external_body]
pub(crate) fn u32_or_why(text: &str) -> (r: Result<u32, String>)
    ensures
        match r {
            Ok(n) => parse_upto(text@, u32::MAX as nat) == Some(n as nat),
            Err(why) => parse_upto(text@, u32::MAX as nat) is None && why@ == u32_error_text(text@),
        },
{
    match text.parse::<u32>() {
        Ok(n) => Ok(n),
        Err(e) => Err(e.to_string()),
    }
}

/// What is said of a text that spells no `u64`.
pub uninterp spec fn u64_error_text(text: Seq<char>) -> Seq<char>;

/// Calls `str::parse::<u64>`: the number that the text spells in digits, with or without a
/// plus sign in front, or, when it spells none that fits, what the error says, which is a
/// function of the text alone.
#[verifier::external_body]
pub(crate) fn u64_or_why(text: &str) -> (r: Result<u64, String>)
    ensures
        match r {
            Ok(n) => parse_upto(text@, u64::MAX as nat) == Some(n as nat),
            Err(why) => parse_upto(text@, u64::MAX as nat) is None && why@ == u64_error_text(text@),
        },
{
    match text.parse::<u64>() {
        Ok(n) => Ok(n),
        Err(e) => Err(e.to_string()),
    }
}

/// A text between quotation marks, with what cannot stand there escaped.
pub uninterp spec fn debug_quoted(text: Seq<char>) -> Seq<char>;

/// Formats with the `Debug` of `str`, which puts the text between quotation marks and
/// escapes what cannot stand there or be seen. The result is a function of the text alone.
#[verifier::external_body]
pub(crate) fn quoted(text: &str) -> (shown: String)
    ensures
        shown@ == debug_quoted(text@),
{
    format!("{text:?}")
}

/// The text of a byte string in which every part that is not UTF-8 is replaced.
pub uninterp spec fn utf8_lossy(bytes: Seq<u8>) -> Seq<char>;

/// The text that bytes are shown as: their own where they are valid UTF-8.
pub open spec fn lossy_text(bytes: Seq<u8>) -> Seq<char> {
    if valid_utf8(bytes) {
        decode_utf8(bytes)
    } else {
        utf8_lossy(bytes)
    }
}

/// Calls `std::string::String::from_utf8_lossy`. The text is a function of the
/// bytes alone, and their own text where they are valid UTF-8.
#[verifier::external_body]
pub(crate) fn utf8_text_lossy(bytes: &[u8]) -> (text: String)
    ensures
        text@ == utf8_lossy(bytes@),
        valid_utf8(bytes@) ==> text@ == decode_utf8(bytes@),
{
    String::from_utf8_lossy(bytes).into_owned()
}

/// The characters of a text.
pub fn chars_of(text: &str) -> (chars: Vec<char>)
    ensures
        chars@ == text@,
{
    let mut chars: Vec<char> = Vec::new();
    for c in it: text.chars()
        invariant
            it.seq() == text@,
            chars@ == text@.subrange(0, it.index() as int),
    {
        chars.push(c);
        assert(chars@ =~= text@.subrange(0, it.index() + 1));
    }
    assert(chars@ =~= text@);
    chars
}

/// The text that characters spell.
pub fn text_of(chars: &[char]) -> (text: String)
    ensures
        text@ == chars@,
{
    let mut text: String = String::new();
    let mut i: usize = 0;
    while i < chars.len()
        invariant
            i <= chars@.len(),
            text@ == chars@.subrange(0, i as int),
        decreases chars@.len() - i,
    {
        push_char(&mut text, chars[i]);
        i = i + 1;
        assert(chars@.subrange(0, i as int) =~= chars@.subrange(0, i - 1).push(chars@[i - 1]));
    }
    assert(chars@.subrange(0, i as int) =~= chars@);
    text
}

// ---- decimal numbers ---------------------------------------------------------

/// Whether `c` is one of `0` to `9`.
pub open spec fn is_digit(c: char) -> bool {
    '0' <= c <= '9'
}

/// The digit for a number below ten.
pub open spec fn digit(d: int) -> char {
    (48 + d) as char
}

/// The decimal form of `n`, without leading zeros.
pub open spec fn decimal(n: nat) -> Seq<char>
    decreases n,
{
    if n < 10 {
        seq![digit(n as int)]
    } else {
        decimal(n / 10).push(digit((n % 10) as int))
    }
}

/// What a row of digits is worth.
pub open spec fn digits_value(s: Seq<char>) -> nat
    decreases s.len(),
{
    if s.len() == 0 {
        0
    } else {
        (10 * digits_value(s.drop_last()) + (s.last() as int - 48)) as nat
    }
}

/// Whether `s` is a row of digits, possibly empty.
pub open spec fn all_digits(s: Seq<char>) -> bool {
    forall|i: int| 0 <= i < s.len() ==> is_digit(#[trigger] s[i])
}

/// The number that `s` spells: digits, at least one, behind an optional plus sign.
pub open spec fn parse_decimal(s: Seq<char>) -> Option<nat> {
    let body = if s.len() > 0 && s[0] == '+' {
        s.drop_first()
    } else {
        s
    };
    if body.len() > 0 && all_digits(body) {
        Some(digits_value(body))
    } else {
        None
    }
}

/// The number that `s` spells, if it is at most `max`.
pub open spec fn parse_upto(s: Seq<char>, max: nat) -> Option<nat> {
    match parse_decimal(s) {
        Some(n) => if n <= max {
            Some(n)
        } else {
            None
        },
        None => None,
    }
}

pub proof fn lemma_decimal(n: nat)
    ensures
        decimal(n).len() > 0,
        all_digits(decimal(n)),
        digits_value(decimal(n)) == n,
    decreases n,
{
    if n < 10 {
        assert(decimal(n).drop_last() =~= Seq::<char>::empty());
        assert(digits_value(decimal(n).drop_last()) == 0);
    } else {
        lemma_decimal(n / 10);
        assert(decimal(n).drop_last() =~= decimal(n / 10));
    }
}

/// Reading back what was written gives the number.
pub proof fn lemma_parse_decimal(n: nat)
    ensures
        parse_decimal(decimal(n)) == Some(n),
{
    lemma_decimal(n);
    assert(is_digit(decimal(n)[0]));
}

proof fn lemma_digits_prefix(s: Seq<char>, k: int)
    requires
        all_digits(s),
        0 <= k <= s.len(),
    ensures
        digits_value(s.subrange(0, k)) <= digits_value(s),
    decreases s.len(),
{
    if k < s.len() {
        assert(s.subrange(0, k) =~= s.drop_last().subrange(0, k));
        lemma_digits_prefix(s.drop_last(), k);
        assert(is_digit(s.last()));
    } else {
        assert(s.subrange(0, k) =~= s);
    }
}

/// Reads a decimal number that fits in 64 bits.
pub fn parse_u64(s: &[char]) -> (n: Option<u64>)
    ensures
        match n {
            Some(v) => parse_upto(s@, u64::MAX as nat) == Some(v as nat),
            None => parse_upto(s@, u64::MAX as nat) is None,
        },
{
    let from: usize = if s.len() > 0 && s[0] == '+' {
        1
    } else {
        0
    };
    let ghost body = s@.subrange(from as int, s@.len() as int);
    assert(body =~= if s@.len() > 0 && s@[0] == '+' {
        s@.drop_first()
    } else {
        s@
    });
    if from == s.len() {
        return None;
    }
    let mut value: u64 = 0;
    let mut i: usize = from;
    assert(body.subrange(0, 0) =~= Seq::<char>::empty());
    while i < s.len()
        invariant
            from <= i <= s@.len(),
            body == s@.subrange(from as int, s@.len() as int),
            body.len() > 0,
            parse_decimal(s@) == if all_digits(body) {
                Some(digits_value(body))
            } else {
                None
            },
            all_digits(body.subrange(0, i - from)),
            value == digits_value(body.subrange(0, i - from)),
        decreases s@.len() - i,
    {
        let c: char = s[i];
        assert(body[i - from] == c);
        if c < '0' || c > '9' {
            assert(!is_digit(body[i - from]));
            return None;
        }
        let d: u64 = (c as u64) - 48;
        let ghost next = body.subrange(0, i - from + 1);
        assert(next.drop_last() =~= body.subrange(0, i - from));
        assert(digits_value(next) == 10 * value + d);
        if value > (u64::MAX - d) / 10 {
            proof {
                if all_digits(body) {
                    lemma_digits_prefix(body, i - from + 1);
                    assert(10 * value + d > u64::MAX);
                }
            }
            return None;
        }
        value = value * 10 + d;
        i = i + 1;
    }
    assert(body.subrange(0, i - from) =~= body);
    Some(value)
}

/// Reads a decimal number that fits in 32 bits.
pub fn parse_u32(s: &[char]) -> (n: Option<u32>)
    ensures
        match n {
            Some(v) => parse_upto(s@, u32::MAX as nat) == Some(v as nat),
            None => parse_upto(s@, u32::MAX as nat) is None,
        },
{
    match parse_u64(s) {
        Some(v) => if v <= u32::MAX as u64 {
            Some(v as u32)
        } else {
            None
        },
        None => None,
    }
}

/// Reads a decimal number that fits in a machine word.
pub fn parse_usize(s: &[char]) -> (n: Option<usize>)
    ensures
        match n {
            Some(v) => parse_upto(s@, usize::MAX as nat) == Some(v as nat),
            None => parse_upto(s@, usize::MAX as nat) is None,
        },
{
    match parse_u64(s) {
        Some(v) => if v <= usize::MAX as u64 {
            Some(v as usize)
        } else {
            None
        },
        None => None,
    }
}

fn digit_char(d: u64) -> (c: char)
    requires
        d < 10,
    ensures
        c == digit(d as int),
{
    ((48 + d) as u8) as char
}

/// Appends the decimal form of `n`.
pub fn push_decimal(text: &mut String, n: u64)
    ensures
        final(text)@ == old(text)@ + decimal(n as nat),
    decreases n,
{
    if n >= 10 {
        push_decimal(text, n / 10);
    }
    push_char(text, digit_char(n % 10));
    assert(text@ =~= old(text)@ + decimal(n as nat));
}

/// The decimal form of `n`, with leading zeros up to `width` characters.
pub open spec fn padded(n: nat, width: nat) -> Seq<char> {
    let plain = decimal(n);
    if plain.len() >= width {
        plain
    } else {
        Seq::new((width - plain.len()) as nat, |i: int| '0') + plain
    }
}

/// Appends the decimal form of `n` with leading zeros up to `width` characters.
pub fn push_padded(text: &mut String, n: u64, width: usize)
    ensures
        final(text)@ == old(text)@ + padded(n as nat, width as nat),
{
    let mut plain: String = String::new();
    push_decimal(&mut plain, n);
    assert(plain@ =~= decimal(n as nat));
    let mut have: usize = plain.as_str().unicode_len();
    let ghost start = have as int;
    while have < width
        invariant
            start == decimal(n as nat).len(),
            start <= have,
            start <= width ==> have <= width,
            start >= width ==> have == start,
            text@ == old(text)@ + Seq::new((have - start) as nat, |i: int| '0'),
        decreases width - have,
    {
        push_char(text, '0');
        have = have + 1;
        assert(text@ =~= old(text)@ + Seq::new((have - start) as nat, |i: int| '0'));
    }
    text.append(plain.as_str());
    assert(text@ =~= old(text)@ + padded(n as nat, width as nat));
}

// ---- hexadecimal -------------------------------------------------------------

/// The lower-case hexadecimal digit for a number below sixteen.
pub open spec fn hex_digit(d: int) -> char {
    if d < 10 {
        (48 + d) as char
    } else {
        (87 + d) as char
    }
}

/// Two lower-case hexadecimal digits for each byte.
pub open spec fn hex_text(bytes: Seq<u8>) -> Seq<char> {
    Seq::new(
        2 * bytes.len(),
        |i: int|
            if i % 2 == 0 {
                hex_digit((bytes[i / 2] / 16) as int)
            } else {
                hex_digit((bytes[i / 2] % 16) as int)
            },
    )
}

fn hex_char(d: u8) -> (c: char)
    requires
        d < 16,
    ensures
        c == hex_digit(d as int),
{
    if d < 10 {
        (48 + d) as char
    } else {
        (87 + d) as char
    }
}

/// Appends two hexadecimal digits for each byte.
pub fn push_hex(text: &mut String, bytes: &[u8])
    ensures
        final(text)@ == old(text)@ + hex_text(bytes@),
{
    let mut i: usize = 0;
    while i < bytes.len()
        invariant
            i <= bytes@.len(),
            text@ == old(text)@ + hex_text(bytes@.subrange(0, i as int)),
        decreases bytes@.len() - i,
    {
        push_char(text, hex_char(bytes[i] / 16));
        push_char(text, hex_char(bytes[i] % 16));
        i = i + 1;
        assert(text@ =~= old(text)@ + hex_text(bytes@.subrange(0, i as int)));
    }
    assert(bytes@.subrange(0, i as int) =~= bytes@);
}

/// Different byte strings have different hexadecimal forms.
pub proof fn lemma_hex_injective(a: Seq<u8>, b: Seq<u8>)
    requires
        hex_text(a) == hex_text(b),
    ensures
        a == b,
{
    assert(hex_text(a).len() == 2 * a.len());
    assert(hex_text(b).len() == 2 * b.len());
    assert forall|i: int| 0 <= i < a.len() implies a[i] == b[i] by {
        assert(hex_text(a)[2 * i] == hex_text(b)[2 * i]);
        assert(hex_text(a)[2 * i + 1] == hex_text(b)[2 * i + 1]);
        let (x, y) = (a[i], b[i]);
        assert((2 * i) / 2 == i && (2 * i) % 2 == 0);
        assert((2 * i + 1) / 2 == i && (2 * i + 1) % 2 == 1);
        assert(hex_text(a)[2 * i] == hex_digit((x / 16) as int));
        assert(hex_text(b)[2 * i] == hex_digit((y / 16) as int));
        assert(hex_text(a)[2 * i + 1] == hex_digit((x % 16) as int));
        assert(hex_text(b)[2 * i + 1] == hex_digit((y % 16) as int));
        assert(hex_digit((x / 16) as int) == hex_digit((y / 16) as int));
        assert(hex_digit((x % 16) as int) == hex_digit((y % 16) as int));
        assert(x / 16 == y / 16 && x % 16 == y % 16);
    }
    assert(a =~= b);
}

// ---- words and lines ---------------------------------------------------------

/// Whether `c` has the Unicode property `White_Space`.
pub open spec fn is_white(c: char) -> bool {
    ||| '\u{9}' <= c <= '\u{d}'
    ||| c == '\u{20}'
    ||| c == '\u{85}'
    ||| c == '\u{a0}'
    ||| c == '\u{1680}'
    ||| '\u{2000}' <= c <= '\u{200a}'
    ||| c == '\u{2028}'
    ||| c == '\u{2029}'
    ||| c == '\u{202f}'
    ||| c == '\u{205f}'
    ||| c == '\u{3000}'
}

/// Whether `c` is white space.
pub fn white(c: char) -> (r: bool)
    ensures
        r == is_white(c),
{
    (c >= '\u{9}' && c <= '\u{d}') || c == '\u{20}' || c == '\u{85}' || c == '\u{a0}' || c
        == '\u{1680}' || (c >= '\u{2000}' && c <= '\u{200a}') || c == '\u{2028}' || c == '\u{2029}'
        || c == '\u{202f}' || c == '\u{205f}' || c == '\u{3000}'
}

/// The first place from `i` on that holds no white space, or the end.
pub open spec fn skip_white(s: Seq<char>, i: int) -> int
    decreases s.len() - i,
{
    if i < s.len() && is_white(s[i]) {
        skip_white(s, i + 1)
    } else {
        i
    }
}

/// The first place from `i` on that holds white space, or the end.
pub open spec fn skip_word(s: Seq<char>, i: int) -> int
    decreases s.len() - i,
{
    if i < s.len() && !is_white(s[i]) {
        skip_word(s, i + 1)
    } else {
        i
    }
}

proof fn lemma_skip(s: Seq<char>, i: int)
    requires
        0 <= i <= s.len(),
    ensures
        i <= skip_white(s, i) <= s.len(),
        i <= skip_word(s, i) <= s.len(),
        skip_white(s, i) < s.len() ==> !is_white(s[skip_white(s, i)]),
        i < s.len() && !is_white(s[i]) ==> i < skip_word(s, i),
    decreases s.len() - i,
{
    if i < s.len() {
        lemma_skip(s, i + 1);
    }
}

/// The words of `s` from `i` on: what lies between stretches of white space.
pub open spec fn words_from(s: Seq<char>, i: int) -> Seq<Seq<char>>
    decreases s.len() - i,
    when 0 <= i <= s.len()
    via words_from_decreases
{
    let start = skip_white(s, i);
    if start >= s.len() {
        Seq::empty()
    } else {
        let end = skip_word(s, start);
        seq![s.subrange(start, end)] + words_from(s, end)
    }
}

#[via_fn]
proof fn words_from_decreases(s: Seq<char>, i: int) {
    lemma_skip(s, i);
    lemma_skip(s, skip_white(s, i));
}

/// The words of `s`.
pub open spec fn words(s: Seq<char>) -> Seq<Seq<char>> {
    words_from(s, 0)
}

/// The contents of a list of character vectors.
pub open spec fn char_views(list: Seq<Vec<char>>) -> Seq<Seq<char>> {
    list.map_values(|w: Vec<char>| w@)
}

fn subrange_chars(s: &[char], from: usize, to: usize) -> (out: Vec<char>)
    requires
        from <= to <= s@.len(),
    ensures
        out@ == s@.subrange(from as int, to as int),
{
    let mut out: Vec<char> = Vec::new();
    let mut i: usize = from;
    while i < to
        invariant
            from <= i <= to <= s@.len(),
            out@ == s@.subrange(from as int, i as int),
        decreases to - i,
    {
        out.push(s[i]);
        i = i + 1;
        assert(out@ =~= s@.subrange(from as int, i as int));
    }
    out
}

/// Splits `s` into its words.
pub fn split_words(s: &[char]) -> (list: Vec<Vec<char>>)
    ensures
        char_views(list@) == words(s@),
{
    let mut list: Vec<Vec<char>> = Vec::new();
    let mut i: usize = 0;
    let ghost mut from: int = 0;
    assert(char_views(list@) + words_from(s@, 0) =~= words(s@));
    loop
        invariant
            0 <= from <= i <= s@.len(),
            skip_white(s@, from) == skip_white(s@, i as int),
            char_views(list@) + words_from(s@, from) == words(s@),
        decreases s@.len() - i,
    {
        if i >= s.len() {
            assert(skip_white(s@, from) == s@.len());
            assert(words_from(s@, from) =~= Seq::<Seq<char>>::empty());
            assert(char_views(list@) =~= words(s@));
            return list;
        }
        if white(s[i]) {
            i = i + 1;
        } else {
            let start: usize = i;
            assert(skip_white(s@, from) == start);
            let mut end: usize = i;
            while end < s.len() && !white(s[end])
                invariant
                    start <= end <= s@.len(),
                    skip_word(s@, start as int) == skip_word(s@, end as int),
                decreases s@.len() - end,
            {
                end = end + 1;
            }
            assert(skip_word(s@, start as int) == end);
            let word = subrange_chars(s, start, end);
            let ghost before = list@;
            list.push(word);
            proof {
                assert(words_from(s@, from) == seq![s@.subrange(start as int, end as int)]
                    + words_from(s@, end as int));
                assert(char_views(list@) + words_from(s@, end as int) =~= char_views(before)
                    + words_from(s@, from));
                from = end as int;
                lemma_skip(s@, start as int);
            }
            i = end;
        }
    }
}

/// Whether two character strings are the same.
pub fn chars_eq(a: &[char], b: &[char]) -> (same: bool)
    ensures
        same == (a@ == b@),
{
    if a.len() != b.len() {
        return false;
    }
    let mut i: usize = 0;
    while i < a.len()
        invariant
            i <= a@.len(),
            a@.len() == b@.len(),
            forall|k: int| 0 <= k < i ==> a@[k] == b@[k],
        decreases a@.len() - i,
    {
        if a[i] != b[i] {
            return false;
        }
        i = i + 1;
    }
    assert(a@ =~= b@);
    true
}

/// Whether the text `t` has exactly these characters.
pub fn is_text(a: &[char], t: &str) -> (same: bool)
    ensures
        same == (a@ == t@),
{
    let other = chars_of(t);
    chars_eq(a, other.as_slice())
}

/// Whether `s` is one word: not empty and without white space.
pub open spec fn is_word(s: Seq<char>) -> bool {
    s.len() > 0 && forall|i: int| 0 <= i < s.len() ==> !is_white(#[trigger] s[i])
}

proof fn lemma_skip_word_to(s: Seq<char>, i: int, j: int)
    requires
        0 <= i <= j <= s.len(),
        forall|k: int| i <= k < j ==> !is_white(#[trigger] s[k]),
        j == s.len() || is_white(s[j]),
    ensures
        skip_word(s, i) == j,
    decreases j - i,
{
    if i < j {
        lemma_skip_word_to(s, i + 1, j);
    }
}

/// Two words with a space between them and a line end behind them are read back
/// as those two words.
pub proof fn lemma_two_words(a: Seq<char>, b: Seq<char>)
    requires
        is_word(a),
        is_word(b),
    ensures
        words(a + " "@ + b + "\n"@) == seq![a, b],
{
    reveal_strlit(" ");
    reveal_strlit("\n");
    let s = a + " "@ + b + "\n"@;
    let (m, n) = (a.len() as int, b.len() as int);
    assert(s.len() == m + n + 2);
    assert forall|k: int| 0 <= k < m implies s[k] == a[k] by {}
    assert(s[m] == ' ');
    assert forall|k: int| m + 1 <= k < m + 1 + n implies s[k] == b[k - m - 1] by {}
    assert(s[m + 1 + n] == '\n');
    assert(!is_white(a[0]) && !is_white(b[0]));
    assert(skip_white(s, 0) == 0);
    lemma_skip_word_to(s, 0, m);
    assert(s[m + 1] == b[0]);
    assert(skip_white(s, m + 1) == m + 1);
    assert(skip_white(s, m) == m + 1);
    lemma_skip_word_to(s, m + 1, m + 1 + n);
    assert(skip_white(s, m + n + 2) == m + n + 2);
    assert(skip_white(s, m + 1 + n) == m + n + 2);
    assert(words_from(s, m + 1 + n) =~= Seq::<Seq<char>>::empty());
    assert(s.subrange(0, m) =~= a);
    assert(s.subrange(m + 1, m + 1 + n) =~= b);
    assert(words_from(s, m) =~= seq![b]);
    assert(words(s) =~= seq![a, b]);
}

/// A number in decimal form is one word.
pub proof fn lemma_decimal_is_word(n: nat)
    ensures
        is_word(decimal(n)),
{
    lemma_decimal(n);
    assert forall|i: int| 0 <= i < decimal(n).len() implies !is_white(#[trigger] decimal(n)[i]) by {
        assert(is_digit(decimal(n)[i]));
    }
}

/// A byte string in hexadecimal form is one word.
pub proof fn lemma_hex_is_word(bytes: Seq<u8>)
    requires
        bytes.len() > 0,
    ensures
        is_word(hex_text(bytes)),
{
    assert forall|i: int| 0 <= i < hex_text(bytes).len() implies !is_white(
        #[trigger] hex_text(bytes)[i],
    ) by {
        let d = if i % 2 == 0 {
            (bytes[i / 2] / 16) as int
        } else {
            (bytes[i / 2] % 16) as int
        };
        assert(0 <= d < 16);
        assert(hex_text(bytes)[i] == hex_digit(d));
    }
}

// ---- building messages -------------------------------------------------------

/// A text behind another.
pub fn joined(a: &str, b: &str) -> (text: String)
    ensures
        text@ == a@ + b@,
{
    let mut text: String = a.to_owned();
    text.append(b);
    text
}

/// A number in decimal form between two texts.
pub fn numbered(before: &str, n: u64, after: &str) -> (text: String)
    ensures
        text@ == before@ + decimal(n as nat) + after@,
{
    let mut text: String = before.to_owned();
    push_decimal(&mut text, n);
    text.append(after);
    text
}

/// The bytes of a text.
pub fn text_bytes(text: &str) -> (bytes: Vec<u8>)
    ensures
        bytes@ == vstd::utf8::encode_utf8(text@),
{
    let bytes = crate::bytes::to_vec(text.as_bytes());
    assert(bytes@ == text.spec_bytes());
    bytes
}

// ---- order -------------------------------------------------------------------

/// Whether `a` comes before `b` in the order of a dictionary.
pub open spec fn text_less(a: Seq<char>, b: Seq<char>) -> bool
    decreases a.len(),
{
    if b.len() == 0 {
        false
    } else if a.len() == 0 {
        true
    } else if a[0] != b[0] {
        a[0] < b[0]
    } else {
        text_less(a.drop_first(), b.drop_first())
    }
}

/// No text comes before one that comes before it.
pub proof fn lemma_text_less_asymmetric(a: Seq<char>, b: Seq<char>)
    requires
        text_less(a, b),
    ensures
        !text_less(b, a),
    decreases a.len(),
{
    if a.len() > 0 && a[0] == b[0] {
        lemma_text_less_asymmetric(a.drop_first(), b.drop_first());
    }
}

/// What does not come after goes on not to: the order is transitive.
pub proof fn lemma_text_order_transitive(a: Seq<char>, b: Seq<char>, c: Seq<char>)
    requires
        !text_less(b, a),
        !text_less(c, b),
    ensures
        !text_less(c, a),
    decreases a.len(),
{
    if a.len() > 0 && b.len() > 0 && c.len() > 0 && a[0] == b[0] && b[0] == c[0] {
        lemma_text_order_transitive(a.drop_first(), b.drop_first(), c.drop_first());
    }
}

/// A common start does not matter to the order.
pub proof fn lemma_text_less_prefix(p: Seq<char>, a: Seq<char>, b: Seq<char>)
    ensures
        text_less(p + a, p + b) == text_less(a, b),
    decreases p.len(),
{
    if p.len() == 0 {
        assert(p + a =~= a);
        assert(p + b =~= b);
    } else {
        assert((p + a).drop_first() =~= p.drop_first() + a);
        assert((p + b).drop_first() =~= p.drop_first() + b);
        lemma_text_less_prefix(p.drop_first(), a, b);
    }
}

/// Equally long texts are ordered before anything behind them is looked at.
pub proof fn lemma_text_less_suffix(a: Seq<char>, b: Seq<char>, s: Seq<char>, t: Seq<char>)
    requires
        a.len() == b.len(),
        text_less(a, b),
    ensures
        text_less(a + s, b + t),
    decreases a.len(),
{
    if a[0] == b[0] {
        assert((a + s).drop_first() =~= a.drop_first() + s);
        assert((b + t).drop_first() =~= b.drop_first() + t);
        lemma_text_less_suffix(a.drop_first(), b.drop_first(), s, t);
    }
}

/// Whether `a` comes before `b`.
pub fn chars_less(a: &[char], b: &[char]) -> (r: bool)
    ensures
        r == text_less(a@, b@),
{
    let mut i: usize = 0;
    assert(a@.subrange(0, a@.len() as int) =~= a@);
    assert(b@.subrange(0, b@.len() as int) =~= b@);
    loop
        invariant
            i <= a@.len(),
            i <= b@.len(),
            text_less(a@, b@) == text_less(
                a@.subrange(i as int, a@.len() as int),
                b@.subrange(i as int, b@.len() as int),
            ),
        decreases a@.len() - i,
    {
        if i >= b.len() {
            return false;
        }
        if i >= a.len() {
            return true;
        }
        if a[i] != b[i] {
            return a[i] < b[i];
        }
        assert(a@.subrange(i as int, a@.len() as int).drop_first() =~= a@.subrange(
            i + 1,
            a@.len() as int,
        ));
        assert(b@.subrange(i as int, b@.len() as int).drop_first() =~= b@.subrange(
            i + 1,
            b@.len() as int,
        ));
        i = i + 1;
    }
}

/// Whether `s` begins with `prefix`.
pub open spec fn begins_with(s: Seq<char>, prefix: Seq<char>) -> bool {
    prefix.len() <= s.len() && s.subrange(0, prefix.len() as int) == prefix
}

/// Whether `s` begins with `prefix`.
pub fn starts_with(s: &[char], prefix: &[char]) -> (r: bool)
    ensures
        r == begins_with(s@, prefix@),
{
    prefix.len() <= s.len() && chars_eq(&s[0..prefix.len()], prefix)
}

// ---- what the forms mean -----------------------------------------------------

/// A number is spelled by at least one digit, behind a plus sign or not, and by nothing
/// else; more zeros in front do not change it, and a number over the bound is none.
pub proof fn law_a_number_is_spelled_in_digits(s: Seq<char>, n: nat, max: nat)
    ensures
        parse_decimal(decimal(n)) == Some(n),
        parse_decimal(seq!['+'] + decimal(n)) == Some(n),
        parse_decimal(seq!['0'] + decimal(n)) == Some(n),
        n <= max ==> parse_upto(decimal(n), max) == Some(n),
        n > max ==> parse_upto(decimal(n), max) is None,
        parse_decimal(Seq::empty()) is None,
        parse_decimal(seq!['+']) is None,
        forall|i: int|
            0 < i < s.len() && !('0' <= #[trigger] s[i] <= '9') ==> parse_decimal(s) is None,
        s.len() > 0 && s[0] != '+' && !('0' <= s[0] <= '9') ==> parse_decimal(s) is None,
        s.len() > 0 && (forall|i: int| 0 <= i < s.len() ==> '0' <= #[trigger] s[i] <= '9')
            ==> parse_decimal(s) is Some,
{
    lemma_parse_decimal(n);
    lemma_decimal(n);
    let plain = decimal(n);
    assert((seq!['+'] + plain).drop_first() =~= plain);
    let zero = seq!['0'] + plain;
    lemma_leading_zero(plain);
    assert(all_digits(zero)) by {
        assert forall|i: int| 0 <= i < zero.len() implies is_digit(#[trigger] zero[i]) by {
            if i > 0 {
                assert(zero[i] == plain[i - 1]);
            }
        }
    }
    assert forall|i: int| 0 < i < s.len() && !('0' <= #[trigger] s[i] <= '9') implies parse_decimal(
        s,
    ) is None by {
        if s[0] == '+' {
            assert(s.drop_first()[i - 1] == s[i]);
        } else {
            assert(!is_digit(s[i]));
        }
    }
}

proof fn lemma_leading_zero(s: Seq<char>)
    ensures
        digits_value(seq!['0'] + s) == digits_value(s),
    decreases s.len(),
{
    let longer = seq!['0'] + s;
    if s.len() == 0 {
        assert(longer.drop_last() =~= Seq::<char>::empty());
        assert(digits_value(longer.drop_last()) == 0);
    } else {
        lemma_leading_zero(s.drop_last());
        assert(longer.drop_last() =~= seq!['0'] + s.drop_last());
    }
}

/// The decimal form is the only row of digits for its number that starts with no zero it
/// does not need, and one digit more stands for ten times as much and that digit.
pub proof fn law_the_decimal_form_has_no_leading_zero(n: nat)
    ensures
        decimal(n).len() > 0,
        forall|i: int| 0 <= i < decimal(n).len() ==> '0' <= #[trigger] decimal(n)[i] <= '9',
        n > 0 ==> decimal(n)[0] != '0',
        n < 10 ==> decimal(n).len() == 1 && decimal(n)[0] as int == '0' as int + n,
        forall|d: nat| d < 10 && n > 0 ==> (#[trigger] decimal(10 * n + d)).drop_last() == decimal(n)
            && decimal(10 * n + d).last() as int == '0' as int + d,
    decreases n,
{
    lemma_decimal(n);
    assert forall|i: int| 0 <= i < decimal(n).len() implies '0' <= #[trigger] decimal(n)[i]
        <= '9' by {
        assert(is_digit(decimal(n)[i]));
    }
    if n >= 10 {
        law_the_decimal_form_has_no_leading_zero(n / 10);
    }
    assert forall|d: nat| d < 10 && n > 0 implies (#[trigger] decimal(10 * n + d)).drop_last()
        == decimal(n) && decimal(10 * n + d).last() as int == '0' as int + d by {
        let m = 10 * n + d;
        assert(m / 10 == n && m % 10 == d);
        assert(decimal(m).drop_last() =~= decimal(n));
    }
}

/// The padded form spells the same number and is as long as was asked for, or longer only
/// where the number itself is.
pub proof fn law_the_padded_form_spells_the_number(n: nat, width: nat)
    ensures
        padded(n, width).len() == if decimal(n).len() > width {
            decimal(n).len()
        } else {
            width
        },
        parse_decimal(padded(n, width)) == Some(n),
{
    lemma_decimal(n);
    lemma_parse_decimal(n);
    let plain = decimal(n);
    if plain.len() < width {
        let k = (width - plain.len()) as nat;
        lemma_zeros(k, plain);
        let long = padded(n, width);
        assert forall|i: int| 0 <= i < long.len() implies is_digit(#[trigger] long[i]) by {
            if i >= k {
                assert(long[i] == plain[i - k]);
            }
        }
        assert(is_digit(long[0]));
    }
}

proof fn lemma_zeros(k: nat, s: Seq<char>)
    ensures
        digits_value(Seq::new(k, |i: int| '0') + s) == digits_value(s),
    decreases k,
{
    let zeros = Seq::new(k, |i: int| '0');
    if k == 0 {
        assert(zeros + s =~= s);
    } else {
        let fewer = Seq::new((k - 1) as nat, |i: int| '0');
        lemma_zeros((k - 1) as nat, s);
        lemma_leading_zero(fewer + s);
        assert(zeros + s =~= seq!['0'] + (fewer + s));
    }
}

/// Each byte is written by two characters, the upper half first, in digits and lower-case
/// letters.
pub proof fn law_a_byte_is_two_hexadecimal_digits(bytes: Seq<u8>, i: int)
    requires
        0 <= i < bytes.len(),
    ensures
        hex_text(bytes).len() == 2 * bytes.len(),
        ({
            let (upper, lower) = (hex_text(bytes)[2 * i], hex_text(bytes)[2 * i + 1]);
            let worth = |c: char|
                if '0' <= c <= '9' {
                    c as int - '0' as int
                } else {
                    c as int - 'a' as int + 10
                };
            &&& '0' <= upper <= '9' || 'a' <= upper <= 'f'
            &&& '0' <= lower <= '9' || 'a' <= lower <= 'f'
            &&& bytes[i] == 16 * worth(upper) + worth(lower)
        }),
{
    let b = bytes[i];
    assert((2 * i) / 2 == i && (2 * i) % 2 == 0);
    assert((2 * i + 1) / 2 == i && (2 * i + 1) % 2 == 1);
    assert(hex_text(bytes)[2 * i] == hex_digit((b / 16) as int));
    assert(hex_text(bytes)[2 * i + 1] == hex_digit((b % 16) as int));
}

proof fn lemma_skip_shift(s: Seq<char>, from: int, i: int)
    requires
        0 <= from <= i <= s.len(),
    ensures
        skip_white(s, i) == from + skip_white(s.subrange(from, s.len() as int), i - from),
        skip_word(s, i) == from + skip_word(s.subrange(from, s.len() as int), i - from),
    decreases s.len() - i,
{
    let rest = s.subrange(from, s.len() as int);
    if i < s.len() {
        assert(rest[i - from] == s[i]);
        lemma_skip_shift(s, from, i + 1);
    }
}

proof fn lemma_words_shift(s: Seq<char>, from: int, i: int)
    requires
        0 <= from <= i <= s.len(),
    ensures
        words_from(s, i) == words_from(s.subrange(from, s.len() as int), i - from),
    decreases s.len() - i,
{
    let rest = s.subrange(from, s.len() as int);
    lemma_skip_shift(s, from, i);
    lemma_skip(s, i);
    let start = skip_white(s, i);
    if start < s.len() {
        lemma_skip(s, start);
        lemma_skip_shift(s, from, start);
        let end = skip_word(s, start);
        lemma_words_shift(s, from, end);
        assert(s.subrange(start, end) =~= rest.subrange(start - from, end - from));
    }
}

proof fn lemma_skip_white_to(s: Seq<char>, i: int, j: int)
    requires
        0 <= i <= j <= s.len(),
        forall|k: int| i <= k < j ==> is_white(#[trigger] s[k]),
        j == s.len() || !is_white(s[j]),
    ensures
        skip_white(s, i) == j,
    decreases j - i,
{
    if i < j {
        lemma_skip_white_to(s, i + 1, j);
    }
}

/// The words of a text are taken from it one by one: white space in front counts for
/// nothing, a word goes on to the next white space, and what follows gives the other words.
/// A text of white space alone holds none.
pub proof fn law_words_are_taken_one_by_one(gap: Seq<char>, word: Seq<char>, rest: Seq<char>)
    requires
        forall|i: int| 0 <= i < gap.len() ==> is_white(#[trigger] gap[i]),
        is_word(word),
        rest.len() == 0 || is_white(rest[0]),
    ensures
        words(gap) == Seq::<Seq<char>>::empty(),
        words(gap + word + rest) == seq![word] + words(rest),
{
    lemma_skip_white_to(gap, 0, gap.len() as int);
    let s = gap + word + rest;
    let (m, n) = (gap.len() as int, word.len() as int);
    assert forall|k: int| 0 <= k < m implies is_white(#[trigger] s[k]) by {
        assert(s[k] == gap[k]);
    }
    assert forall|k: int| m <= k < m + n implies !is_white(#[trigger] s[k]) by {
        assert(s[k] == word[k - m]);
    }
    assert(s[m] == word[0]);
    lemma_skip_white_to(s, 0, m);
    if rest.len() > 0 {
        assert(s[m + n] == rest[0]);
    }
    lemma_skip_word_to(s, m, m + n);
    assert(s.subrange(m, m + n) =~= word);
    assert(s.subrange(m + n, s.len() as int) =~= rest);
    lemma_words_shift(s, m + n, m + n);
}

/// White space is the space, the five controls from the tabulator to the carriage return,
/// the next line, and the blanks and separators of the wider repertoire.
pub proof fn law_white_space_is_these_characters(c: char)
    ensures
        is_white(c) <==> seq![
            '\t', '\n', '\u{b}', '\u{c}', '\r', ' ', '\u{85}', '\u{a0}', '\u{1680}', '\u{2000}',
            '\u{2001}', '\u{2002}', '\u{2003}', '\u{2004}', '\u{2005}', '\u{2006}', '\u{2007}',
            '\u{2008}', '\u{2009}', '\u{200a}', '\u{2028}', '\u{2029}', '\u{202f}', '\u{205f}',
            '\u{3000}',
        ].contains(c),
{
    let all = seq![
        '\t', '\n', '\u{b}', '\u{c}', '\r', ' ', '\u{85}', '\u{a0}', '\u{1680}', '\u{2000}',
        '\u{2001}', '\u{2002}', '\u{2003}', '\u{2004}', '\u{2005}', '\u{2006}', '\u{2007}',
        '\u{2008}', '\u{2009}', '\u{200a}', '\u{2028}', '\u{2029}', '\u{202f}', '\u{205f}',
        '\u{3000}',
    ];
    if is_white(c) {
        if '\u{9}' <= c <= '\u{d}' {
            assert(all[c as int - 9] == c);
        } else if '\u{2000}' <= c <= '\u{200a}' {
            assert(all[9 + (c as int - 0x2000)] == c);
        } else {
            assert(all[5] == ' ' && all[6] == '\u{85}' && all[7] == '\u{a0}' && all[8]
                == '\u{1680}' && all[20] == '\u{2028}' && all[21] == '\u{2029}' && all[22]
                == '\u{202f}' && all[23] == '\u{205f}' && all[24] == '\u{3000}');
        }
    }
}

/// Texts are ordered by the first character in which they differ, and a text comes before
/// every longer one that begins with it; of two different texts one comes first.
pub proof fn law_texts_are_ordered_by_their_first_difference(
    common: Seq<char>,
    x: char,
    y: char,
    a: Seq<char>,
    b: Seq<char>,
)
    ensures
        x < y ==> text_less(common + seq![x] + a, common + seq![y] + b),
        text_less(common, common + seq![y] + b),
        !text_less(common + seq![y] + b, common),
        !text_less(a, a),
        a != b ==> text_less(a, b) || text_less(b, a),
{
    let (p, q) = (seq![x] + a, seq![y] + b);
    lemma_text_less_prefix(common, p, q);
    assert(common + p =~= common + seq![x] + a);
    assert(common + q =~= common + seq![y] + b);
    lemma_text_less_prefix(common, Seq::empty(), q);
    lemma_text_less_prefix(common, q, Seq::empty());
    assert(common + Seq::<char>::empty() =~= common);
    if text_less(a, a) {
        lemma_text_less_asymmetric(a, a);
    }
    lemma_text_order_total(a, b);
}

proof fn lemma_text_order_total(a: Seq<char>, b: Seq<char>)
    ensures
        a != b ==> text_less(a, b) || text_less(b, a),
    decreases a.len(),
{
    if a.len() > 0 && b.len() > 0 && a[0] == b[0] {
        lemma_text_order_total(a.drop_first(), b.drop_first());
        if a.drop_first() == b.drop_first() {
            assert(a =~= seq![a[0]] + a.drop_first());
            assert(b =~= seq![b[0]] + b.drop_first());
        }
    } else if a.len() == 0 && b.len() == 0 {
        assert(a =~= b);
    }
}

/// A text begins with another exactly when something can be put behind that one to give
/// the text.
pub proof fn law_a_prefix_is_what_can_be_completed(s: Seq<char>, prefix: Seq<char>)
    ensures
        begins_with(s, prefix) <==> exists|rest: Seq<char>| s == #[trigger] (prefix + rest),
{
    if begins_with(s, prefix) {
        let rest = s.subrange(prefix.len() as int, s.len() as int);
        assert(s =~= prefix + rest);
    }
    if exists|rest: Seq<char>| s == #[trigger] (prefix + rest) {
        let rest = choose|rest: Seq<char>| s == #[trigger] (prefix + rest);
        assert(s.subrange(0, prefix.len() as int) =~= prefix);
    }
}

} // verus!
