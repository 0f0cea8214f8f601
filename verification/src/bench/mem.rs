//! Resident memory, as the process status of Linux spells it.
//!
//! `VmRSS` is what a process holds now, `VmHWM` the most it ever held.
use crate::text::{
    chars_of, decimal, is_digit, is_white, lemma_decimal, lemma_decimal_is_word, lemma_parse_decimal,
    parse_u64, parse_upto, parse_usize, split_words, white, words,
};
use vstd::prelude::*;
use vstd::string::*;

verus! {

/// `s` without the white space at its start.
pub open spec fn trim_start(s: Seq<char>) -> Seq<char>
    decreases s.len(),
{
    if s.len() > 0 && is_white(s[0]) {
        trim_start(s.drop_first())
    } else {
        s
    }
}

/// `s` without the white space at its end.
pub open spec fn trim_end(s: Seq<char>) -> Seq<char>
    decreases s.len(),
{
    if s.len() > 0 && is_white(s.last()) {
        trim_end(s.drop_last())
    } else {
        s
    }
}

/// `s` without the white space around it.
pub open spec fn trim(s: Seq<char>) -> Seq<char> {
    trim_end(trim_start(s))
}

/// `s` without any unit at its end, however often it is repeated.
pub open spec fn without_unit(s: Seq<char>) -> Seq<char>
    decreases s.len(),
{
    if s.len() >= 3 && s.subrange(s.len() - 3, s.len() as int) == " kB"@ {
        without_unit(s.subrange(0, s.len() - 3))
    } else {
        s
    }
}

/// Where the line that begins at `from` ends.
pub open spec fn line_end(s: Seq<char>, from: int) -> int
    decreases s.len() - from,
{
    if 0 <= from < s.len() && s[from] != '\n' {
        line_end(s, from + 1)
    } else {
        from
    }
}

/// Whether `s` holds `prefix` from `at` to before `end`.
pub open spec fn starts_at(s: Seq<char>, at: int, end: int, prefix: Seq<char>) -> bool {
    at + prefix.len() <= end && s.subrange(at, at + prefix.len()) == prefix
}

/// The first line from `from` on that begins with `prefix`.
pub open spec fn line_with(s: Seq<char>, from: int, prefix: Seq<char>) -> Option<Seq<char>>
    decreases s.len() - from,
{
    let end = line_end(s, from);
    if from < 0 || from >= s.len() {
        None
    } else if starts_at(s, from, end, prefix) {
        Some(s.subrange(from, end))
    } else if from <= end < s.len() {
        line_with(s, end + 1, prefix)
    } else {
        None
    }
}

/// The megabytes that a value in kilobytes stands for, zero where it is none.
pub open spec fn megabytes(value: Seq<char>) -> u64 {
    match parse_upto(trim(without_unit(trim(value))), u64::MAX as nat) {
        Some(kb) => (kb / 1024) as u64,
        None => 0,
    }
}

/// The megabytes that the first line beginning with `field` gives, zero where
/// there is no status, no such line or no number in it.
pub open spec fn status_megabytes(status: Option<Seq<char>>, field: Seq<char>) -> u64 {
    match status {
        None => 0,
        Some(s) => match line_with(s, 0, field) {
            None => 0,
            Some(line) => megabytes(line.subrange(field.len() as int, line.len() as int)),
        },
    }
}

fn subrange(s: &[char], from: usize, to: usize) -> (out: Vec<char>)
    requires
        from <= to <= s@.len(),
    ensures
        out@ == s@.subrange(from as int, to as int),
{
    let mut out: Vec<char> = Vec::new();
    let mut i: usize = from;
    while i < to
        invariant
            from <= i <= to <= s@.len(),
            out@ == s@.subrange(from as int, i as int),
        decreases to - i,
    {
        out.push(s[i]);
        i = i + 1;
        assert(out@ =~= s@.subrange(from as int, i as int));
    }
    out
}

fn trimmed(s: &[char]) -> (out: Vec<char>)
    ensures
        out@ == trim(s@),
{
    let len: usize = s.len();
    let mut from: usize = 0;
    assert(s@.subrange(0, len as int) =~= s@);
    while from < len && white(s[from])
        invariant
            from <= len,
            len == s@.len(),
            trim_start(s@) == trim_start(s@.subrange(from as int, len as int)),
        decreases len - from,
    {
        let ghost rest = s@.subrange(from as int, len as int);
        assert(rest.drop_first() =~= s@.subrange(from + 1, len as int));
        from = from + 1;
    }
    let ghost head = s@.subrange(from as int, len as int);
    assert(trim_start(head) == head) by {
        if from < len {
            assert(head[0] == s@[from as int]);
        }
    }
    let mut to: usize = len;
    while to > from && white(s[to - 1])
        invariant
            from <= to <= len,
            len == s@.len(),
            trim_end(head) == trim_end(s@.subrange(from as int, to as int)),
        decreases to,
    {
        let ghost rest = s@.subrange(from as int, to as int);
        assert(rest.drop_last() =~= s@.subrange(from as int, to - 1));
        assert(rest.last() == s@[to - 1]);
        to = to - 1;
    }
    let ghost tail = s@.subrange(from as int, to as int);
    assert(trim_end(tail) == tail) by {
        if to > from {
            assert(tail.last() == s@[to - 1]);
        }
    }
    subrange(s, from, to)
}

fn unitless(s: &[char]) -> (out: Vec<char>)
    ensures
        out@ == without_unit(s@),
{
    proof {
        reveal_strlit(" kB");
    }
    let mut to: usize = s.len();
    assert(s@.subrange(0, to as int) =~= s@);
    while to >= 3 && s[to - 3] == ' ' && s[to - 2] == 'k' && s[to - 1] == 'B'
        invariant
            to <= s@.len(),
            " kB"@ == seq![' ', 'k', 'B'],
            without_unit(s@) == without_unit(s@.subrange(0, to as int)),
        decreases to,
    {
        let ghost rest = s@.subrange(0, to as int);
        assert(rest.subrange(to - 3, to as int) =~= " kB"@);
        assert(rest.subrange(0, to - 3) =~= s@.subrange(0, to - 3));
        to = to - 3;
    }
    let ghost rest = s@.subrange(0, to as int);
    assert(without_unit(rest) == rest) by {
        if to >= 3 && rest.subrange(to - 3, to as int) == " kB"@ {
            let unit = rest.subrange(to - 3, to as int);
            assert(unit[0] == s@[to - 3] && unit[1] == s@[to - 2] && unit[2] == s@[to - 1]);
        }
    }
    subrange(s, 0, to)
}

fn matches_at(s: &[char], at: usize, end: usize, prefix: &[char]) -> (r: bool)
    requires
        at <= end <= s@.len(),
    ensures
        r == starts_at(s@, at as int, end as int, prefix@),
{
    if prefix.len() > end - at {
        return false;
    }
    let part = subrange(s, at, at + prefix.len());
    crate::text::chars_eq(part.as_slice(), prefix)
}

/// The first line of `s` that begins with `prefix`.
fn find_line(s: &[char], prefix: &[char]) -> (line: Option<Vec<char>>)
    ensures
        match line {
            Some(found) => line_with(s@, 0, prefix@) == Some(found@) && found@.len()
                >= prefix@.len(),
            None => line_with(s@, 0, prefix@) is None,
        },
{
    let mut from: usize = 0;
    while from < s.len()
        invariant
            from <= s@.len(),
            line_with(s@, 0, prefix@) == line_with(s@, from as int, prefix@),
        decreases s@.len() - from,
    {
        let mut end: usize = from;
        while end < s.len() && s[end] != '\n'
            invariant
                from <= end <= s@.len(),
                line_end(s@, from as int) == line_end(s@, end as int),
            decreases s@.len() - end,
        {
            end = end + 1;
        }
        assert(line_end(s@, from as int) == end);
        if matches_at(s, from, end, prefix) {
            return Some(subrange(s, from, end));
        }
        if end >= s.len() {
            return None;
        }
        from = end + 1;
    }
    None
}

/// The megabytes that a process status gives for `field`.
pub fn status_mb(status: Option<&str>, field: &str) -> (mb: u64)
    ensures
        mb == status_megabytes(
            match status {
                Some(s) => Some(s@),
                None => None,
            },
            field@,
        ),
{
    let text: &str = match status {
        None => {
            return 0;
        },
        Some(text) => text,
    };
    let chars = chars_of(text);
    let prefix = chars_of(field);
    match find_line(chars.as_slice(), prefix.as_slice()) {
        None => 0,
        Some(line) => {
            let value = subrange(line.as_slice(), prefix.len(), line.len());
            let inner = trimmed(value.as_slice());
            let number = unitless(inner.as_slice());
            let digits = trimmed(number.as_slice());
            match parse_u64(digits.as_slice()) {
                Some(kb) => kb / 1024,
                None => 0,
            }
        },
    }
}

/// Currently resident memory in megabytes, from the process status.
pub fn rss_now_mb(status: Option<&str>) -> (mb: u64)
    ensures
        mb == status_megabytes(
            match status {
                Some(s) => Some(s@),
                None => None,
            },
            "VmRSS:"@,
        ),
{
    status_mb(status, "VmRSS:")
}

/// Peak resident memory in megabytes since the process started.
pub fn peak_rss_mb(status: Option<&str>) -> (mb: u64)
    ensures
        mb == status_megabytes(
            match status {
                Some(s) => Some(s@),
                None => None,
            },
            "VmHWM:"@,
        ),
{
    status_mb(status, "VmHWM:")
}

/// The second word of the first line beginning with `field`, read as kilobytes and
/// given in megabytes; nothing where there is no such line, word or number.
pub open spec fn strict_megabytes(status: Seq<char>, field: Seq<char>) -> Option<usize> {
    match line_with(status, 0, field) {
        None => None,
        Some(line) => if words(line).len() < 2 {
            None
        } else {
            match parse_upto(words(line)[1], usize::MAX as nat) {
                Some(kb) => Some((kb / 1024) as usize),
                None => None,
            }
        },
    }
}

/// The megabytes a process status gives for `field`, insisting on its presence.
pub fn rss_mb(status: &str, field: &str) -> (mb: Option<usize>)
    ensures
        mb == strict_megabytes(status@, field@),
{
    let chars = chars_of(status);
    let prefix = chars_of(field);
    match find_line(chars.as_slice(), prefix.as_slice()) {
        None => None,
        Some(line) => {
            let list = split_words(line.as_slice());
            assert(list@.len() == words(line@).len());
            if list.len() < 2 {
                return None;
            }
            assert(words(line@)[1] == list@[1]@);
            match parse_usize(list[1].as_slice()) {
                Some(kb) => Some(kb / 1024),
                None => None,
            }
        },
    }
}

proof fn lemma_trim_start(s: Seq<char>)
    ensures
        exists|gap: Seq<char>|
            s == #[trigger] (gap + trim_start(s)) && forall|i: int|
                0 <= i < gap.len() ==> is_white(gap[i]),
        trim_start(s).len() > 0 ==> !is_white(trim_start(s)[0]),
    decreases s.len(),
{
    if s.len() > 0 && is_white(s[0]) {
        let rest = s.drop_first();
        lemma_trim_start(rest);
        let gap = choose|gap: Seq<char>|
            rest == #[trigger] (gap + trim_start(rest)) && forall|i: int|
                0 <= i < gap.len() ==> is_white(gap[i]);
        let longer = seq![s[0]] + gap;
        assert(rest == gap + trim_start(rest));
        assert(s =~= seq![s[0]] + rest);
        assert(seq![s[0]] + (gap + trim_start(rest)) =~= longer + trim_start(rest));
        assert(trim_start(s) == trim_start(rest));
        assert(s == longer + trim_start(s));
        assert forall|i: int| 0 <= i < longer.len() implies is_white(longer[i]) by {
            if i > 0 {
                assert(longer[i] == gap[i - 1]);
            }
        }
    } else {
        assert(s =~= Seq::<char>::empty() + trim_start(s));
    }
}

proof fn lemma_trim_end(s: Seq<char>)
    ensures
        exists|gap: Seq<char>|
            s == #[trigger] (trim_end(s) + gap) && forall|i: int|
                0 <= i < gap.len() ==> is_white(gap[i]),
        trim_end(s).len() > 0 ==> !is_white(trim_end(s).last()),
        trim_end(s).len() > 0 ==> trim_end(s)[0] == s[0],
    decreases s.len(),
{
    if s.len() > 0 && is_white(s.last()) {
        let rest = s.drop_last();
        lemma_trim_end(rest);
        let gap = choose|gap: Seq<char>|
            rest == #[trigger] (trim_end(rest) + gap) && forall|i: int|
                0 <= i < gap.len() ==> is_white(gap[i]);
        let longer = gap.push(s.last());
        assert(rest == trim_end(rest) + gap);
        assert(s =~= rest.push(s.last()));
        assert((trim_end(rest) + gap).push(s.last()) =~= trim_end(rest) + longer);
        assert(trim_end(s) == trim_end(rest));
        assert(s == trim_end(s) + longer);
        assert forall|i: int| 0 <= i < longer.len() implies is_white(longer[i]) by {
            if i < gap.len() {
                assert(longer[i] == gap[i]);
            }
        }
    } else {
        assert(s =~= trim_end(s) + Seq::<char>::empty());
    }
}

/// Trimming takes off white space only, at the two ends, and all of it there.
pub proof fn law_trimming_takes_off_the_white_space_around(s: Seq<char>)
    ensures
        exists|before: Seq<char>, after: Seq<char>|
            {
                &&& s == #[trigger] (before + trim(s) + after)
                &&& forall|i: int| 0 <= i < before.len() ==> is_white(before[i])
                &&& forall|i: int| 0 <= i < after.len() ==> is_white(after[i])
            },
        trim(s).len() > 0 ==> !is_white(trim(s)[0]) && !is_white(trim(s).last()),
{
    let middle = trim_start(s);
    lemma_trim_start(s);
    lemma_trim_end(middle);
    let before = choose|gap: Seq<char>|
        s == #[trigger] (gap + middle) && forall|i: int|
            0 <= i < gap.len() ==> is_white(gap[i]);
    let after = choose|gap: Seq<char>|
        middle == #[trigger] (trim_end(middle) + gap) && forall|i: int|
            0 <= i < gap.len() ==> is_white(gap[i]);
    assert(s =~= before + trim(s) + after);
}

proof fn lemma_digits_are_trimmed(n: nat)
    ensures
        trim(decimal(n)) == decimal(n),
        trim(decimal(n) + " kB"@) == decimal(n) + " kB"@,
        without_unit(decimal(n)) == decimal(n),
        without_unit(decimal(n) + " kB"@) == decimal(n),
{
    lemma_decimal(n);
    lemma_decimal_is_word(n);
    reveal_strlit(" kB");
    let (plain, unit) = (decimal(n), decimal(n) + " kB"@);
    assert(!is_white(plain[0]) && !is_white(plain.last()));
    assert(unit[0] == plain[0] && unit.last() == 'B');
    assert(is_digit(plain[plain.len() - 1]));
    assert(unit.subrange(unit.len() - 3, unit.len() as int) =~= " kB"@);
    assert(unit.subrange(0, unit.len() - 3) =~= plain);
    if plain.len() >= 3 {
        assert(plain.subrange(plain.len() - 3, plain.len() as int)[2] == plain.last());
        assert(" kB"@[2] == 'B');
    }
}

/// A number of kilobytes is read as megabytes, rounded down, with its unit or without.
pub proof fn law_kilobytes_are_read_as_megabytes(kb: u64)
    ensures
        megabytes(decimal(kb as nat) + " kB"@) == kb / 1024,
        megabytes(decimal(kb as nat)) == kb / 1024,
{
    lemma_digits_are_trimmed(kb as nat);
    lemma_parse_decimal(kb as nat);
}

proof fn lemma_line_end(s: Seq<char>, from: int, end: int)
    requires
        0 <= from <= end <= s.len(),
        forall|i: int| from <= i < end ==> s[i] != '\n',
        end == s.len() || s[end] == '\n',
    ensures
        line_end(s, from) == end,
    decreases end - from,
{
    if from < end {
        lemma_line_end(s, from + 1, end);
    }
}

proof fn lemma_line_end_bounds(s: Seq<char>, from: int)
    requires
        0 <= from <= s.len(),
    ensures
        from <= line_end(s, from) <= s.len(),
    decreases s.len() - from,
{
    if from < s.len() && s[from] != '\n' {
        lemma_line_end_bounds(s, from + 1);
    }
}

proof fn lemma_line_end_shift(s: Seq<char>, cut: int, from: int)
    requires
        0 <= cut <= from <= s.len(),
    ensures
        line_end(s, from) == cut + line_end(s.subrange(cut, s.len() as int), from - cut),
    decreases s.len() - from,
{
    if from < s.len() && s[from] != '\n' {
        lemma_line_end_shift(s, cut, from + 1);
    }
}

proof fn lemma_line_with_shift(s: Seq<char>, cut: int, from: int, prefix: Seq<char>)
    requires
        0 <= cut <= from <= s.len(),
    ensures
        line_with(s, from, prefix) == line_with(
            s.subrange(cut, s.len() as int),
            from - cut,
            prefix,
        ),
    decreases s.len() - from,
{
    let rest = s.subrange(cut, s.len() as int);
    lemma_line_end_shift(s, cut, from);
    lemma_line_end_bounds(s, from);
    let end = line_end(s, from);
    if from < s.len() {
        if from + prefix.len() <= end {
            assert(s.subrange(from, from + prefix.len()) =~= rest.subrange(
                from - cut,
                from - cut + prefix.len(),
            ));
        }
        assert(s.subrange(from, end) =~= rest.subrange(from - cut, end - cut));
        if end < s.len() {
            lemma_line_with_shift(s, cut, end + 1, prefix);
        }
    }
}

/// The line that is found is the first one that begins with what is looked for: a first line
/// that does is taken, and behind one that does not the search goes on.
pub proof fn law_the_first_matching_line_is_found(
    line: Seq<char>,
    rest: Seq<char>,
    prefix: Seq<char>,
)
    requires
        !line.contains('\n'),
        prefix.len() > 0,
    ensures
        ({
            let matching = line.len() >= prefix.len() && line.subrange(0, prefix.len() as int)
                == prefix;
            &&& matching ==> line_with(line.push('\n') + rest, 0, prefix) == Some(line)
            &&& matching ==> line_with(line, 0, prefix) == Some(line)
            &&& !matching ==> line_with(line.push('\n') + rest, 0, prefix) == line_with(
                rest,
                0,
                prefix,
            )
            &&& !matching ==> line_with(line, 0, prefix) is None
        }),
{
    let n = line.len() as int;
    let s = line.push('\n') + rest;
    assert forall|i: int| 0 <= i < n implies s[i] != '\n' && line[i] != '\n' by {
        assert(s[i] == line[i]);
        assert(line.contains(line[i]));
    }
    assert(s[n] == '\n');
    lemma_line_end(s, 0, n);
    lemma_line_end(line, 0, n);
    assert(s.subrange(0, n) =~= line);
    assert(line.subrange(0, n) =~= line);
    if n >= prefix.len() {
        assert(s.subrange(0, prefix.len() as int) =~= line.subrange(0, prefix.len() as int));
    }
    assert(s.subrange(n + 1, s.len() as int) =~= rest);
    lemma_line_with_shift(s, n + 1, n + 1, prefix);
}

/// What a status says of a field is what stands behind the field's name in the line that is
/// found; without a status or without such a line it is zero, or nothing where that is asked
/// for.
pub proof fn law_a_field_is_read_from_its_line(status: Seq<char>, field: Seq<char>, value: Seq<char>)
    ensures
        line_with(status, 0, field) == Some(field + value) ==> status_megabytes(
            Some(status),
            field,
        ) == megabytes(value),
        line_with(status, 0, field) is None ==> status_megabytes(Some(status), field) == 0
            && strict_megabytes(status, field) is None,
        status_megabytes(None, field) == 0,
        line_with(status, 0, field) == Some(field + value) && words(field + value).len() >= 2
            && parse_upto(words(field + value)[1], usize::MAX as nat) is Some ==> strict_megabytes(
            status,
            field,
        ) == Some((parse_upto(words(field + value)[1], usize::MAX as nat)->0 / 1024) as usize),
{
    let line = field + value;
    assert(line.subrange(field.len() as int, line.len() as int) =~= value);
}

} // verus!
