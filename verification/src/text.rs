//! Text as a sequence of characters: white space, prefixes, occurrences, splitting, lines and
//! numbers. Each function here takes a `&str` and is described over its view, a `Seq<char>`.
use vstd::prelude::*;

verus! {

/// The characters with the Unicode property `White_Space`.
pub open spec fn is_white_space(c: char) -> bool {
    ||| '\u{9}' <= c <= '\u{d}'
    ||| c == '\u{20}'
    ||| c == '\u{85}'
    ||| c == '\u{a0}'
    ||| c == '\u{1680}'
    ||| '\u{2000}' <= c <= '\u{200a}'
    ||| c == '\u{2028}'
    ||| c == '\u{2029}'
    ||| c == '\u{202f}'
    ||| c == '\u{205f}'
    ||| c == '\u{3000}'
}

/// Whether `c` is white space.
pub fn white_space(c: char) -> (result: bool)
    ensures
        result == is_white_space(c),
{
    ('\u{9}' <= c && c <= '\u{d}') || c == '\u{20}' || c == '\u{85}' || c == '\u{a0}' || c
        == '\u{1680}' || ('\u{2000}' <= c && c <= '\u{200a}') || c == '\u{2028}' || c == '\u{2029}'
        || c == '\u{202f}' || c == '\u{205f}' || c == '\u{3000}'
}

/// `s` without the white space at its start.
pub open spec fn trimmed_start(s: Seq<char>) -> Seq<char>
    decreases s.len(),
{
    if s.len() > 0 && is_white_space(s[0]) {
        trimmed_start(s.skip(1))
    } else {
        s
    }
}

/// `s` without the white space at its end.
pub open spec fn trimmed_end(s: Seq<char>) -> Seq<char>
    decreases s.len(),
{
    if s.len() > 0 && is_white_space(s.last()) {
        trimmed_end(s.drop_last())
    } else {
        s
    }
}

/// `s` without the white space at either end.
pub open spec fn trimmed(s: Seq<char>) -> Seq<char> {
    trimmed_end(trimmed_start(s))
}

/// Whether `s` begins with `prefix`.
pub open spec fn begins_with(s: Seq<char>, prefix: Seq<char>) -> bool {
    prefix.len() <= s.len() && s.take(prefix.len() as int) == prefix
}

/// Whether `part` stands in `s` at position `at`.
pub open spec fn occurs_at(s: Seq<char>, part: Seq<char>, at: int) -> bool {
    0 <= at && at + part.len() <= s.len() && s.subrange(at, at + part.len()) == part
}

/// Whether `part` stands anywhere in `s`.
pub open spec fn holds_text(s: Seq<char>, part: Seq<char>) -> bool {
    exists|at: int| occurs_at(s, part, at)
}

/// The position of the first `a` or `b` in `s`, or the length of `s` where there is none.
pub open spec fn first_of(s: Seq<char>, a: char, b: char) -> int
    decreases s.len(),
{
    if s.len() == 0 || s[0] == a || s[0] == b {
        0
    } else {
        1 + first_of(s.skip(1), a, b)
    }
}

/// The pieces of `s` between the separators `a` and `b`. There is always one piece more than
/// there are separators.
pub open spec fn pieces(s: Seq<char>, a: char, b: char) -> Seq<Seq<char>>
    decreases s.len(),
    via pieces_decreases
{
    let at = first_of(s, a, b);
    if at >= s.len() {
        seq![s]
    } else {
        seq![s.take(at)] + pieces(s.skip(at + 1), a, b)
    }
}

#[via_fn]
proof fn pieces_decreases(s: Seq<char>, a: char, b: char) {
    lemma_first_of(s, a, b);
}

/// No piece between separators holds a separator.
pub proof fn pieces_hold_no_separator(s: Seq<char>, a: char, b: char, i: int, j: int)
    requires
        0 <= i < pieces(s, a, b).len(),
        0 <= j < pieces(s, a, b)[i].len(),
    ensures
        pieces(s, a, b)[i][j] != a,
        pieces(s, a, b)[i][j] != b,
    decreases s.len(),
{
    lemma_first_of(s, a, b);
    let at = first_of(s, a, b);
    if at < s.len() {
        let rest = s.skip(at + 1);
        if i > 0 {
            assert(pieces(s, a, b)[i] == pieces(rest, a, b)[i - 1]);
            pieces_hold_no_separator(rest, a, b, i - 1, j);
        }
    }
}

/// `s` without one carriage return at its end.
pub open spec fn without_carriage_return(s: Seq<char>) -> Seq<char> {
    if s.len() > 0 && s.last() == '\r' {
        s.drop_last()
    } else {
        s
    }
}

/// The lines of `s`. A line ends at a line feed, or at a carriage return and a line feed; the
/// last line need not end.
pub open spec fn line_texts(s: Seq<char>) -> Seq<Seq<char>>
    decreases s.len(),
    via line_texts_decreases
{
    let at = first_of(s, '\n', '\n');
    if s.len() == 0 {
        Seq::empty()
    } else if at >= s.len() {
        seq![s]
    } else {
        seq![without_carriage_return(s.take(at))] + line_texts(s.skip(at + 1))
    }
}

#[via_fn]
proof fn line_texts_decreases(s: Seq<char>) {
    lemma_first_of(s, '\n', '\n');
}

/// What the slices of a vector hold.
pub open spec fn texts(v: Seq<&str>) -> Seq<Seq<char>> {
    v.map_values(|x: &str| x@)
}

/// What the strings of a vector hold.
pub open spec fn strings(v: Seq<String>) -> Seq<Seq<char>> {
    v.map_values(|x: String| x@)
}

/// What an optional string holds.
pub open spec fn string_option(v: Option<String>) -> Option<Seq<char>> {
    match v {
        Some(x) => Some(x@),
        None => None,
    }
}

/// What an optional slice holds.
pub open spec fn text_option(v: Option<&str>) -> Option<Seq<char>> {
    match v {
        Some(x) => Some(x@),
        None => None,
    }
}

/// `first_of` finds the first separator and nothing before it.
pub proof fn lemma_first_of(s: Seq<char>, a: char, b: char)
    ensures
        0 <= first_of(s, a, b) <= s.len(),
        forall|i: int| 0 <= i < first_of(s, a, b) ==> s[i] != a && s[i] != b,
        first_of(s, a, b) < s.len() ==> s[first_of(s, a, b)] == a || s[first_of(s, a, b)] == b,
    decreases s.len(),
{
    if s.len() > 0 && s[0] != a && s[0] != b {
        lemma_first_of(s.skip(1), a, b);
        assert forall|i: int| 0 <= i < first_of(s, a, b) implies s[i] != a && s[i] != b by {
            if i > 0 {
                assert(s[i] == s.skip(1)[i - 1]);
            }
        }
    }
}

/// A position before which no separator stands, and at which one stands or the text ends, is
/// the first one.
pub proof fn lemma_first_of_is(s: Seq<char>, a: char, b: char, at: int)
    requires
        0 <= at <= s.len(),
        forall|i: int| 0 <= i < at ==> s[i] != a && s[i] != b,
        at < s.len() ==> s[at] == a || s[at] == b,
    ensures
        first_of(s, a, b) == at,
{
    lemma_first_of(s, a, b);
    let found = first_of(s, a, b);
    if found < at {
        assert(s[found] != a && s[found] != b);
    } else if at < found {
        assert(s[at] != a && s[at] != b);
    }
}

/// The characters of `s`.
pub fn chars_of(s: &str) -> (result: Vec<char>)
    ensures
        result@ == s@,
{
    let mut result: Vec<char> = Vec::new();
    for c in it: s.chars()
        invariant
            result@ == it.seq().take(it.index()),
            it.seq() == s@,
    {
        result.push(c);
        assert(it.seq().take(it.index() + 1) == it.seq().take(it.index() as int).push(c));
    }
    assert(s@.take(s@.len() as int) == s@);
    result
}


/// Trimming a text whose first `n` characters are white space trims what follows them.
proof fn lemma_trimmed_start_skip(s: Seq<char>, n: int)
    requires
        0 <= n <= s.len(),
        forall|i: int| 0 <= i < n ==> is_white_space(s[i]),
    ensures
        trimmed_start(s) == trimmed_start(s.skip(n)),
    decreases n,
{
    if n == 0 {
        assert(s.skip(0) == s);
    } else {
        lemma_trimmed_start_skip(s.skip(1), n - 1);
        assert(s.skip(1).skip(n - 1) == s.skip(n));
    }
}

/// Trimming a text whose last characters, from `n` on, are white space trims what precedes them.
proof fn lemma_trimmed_end_take(s: Seq<char>, n: int)
    requires
        0 <= n <= s.len(),
        forall|i: int| n <= i < s.len() ==> is_white_space(s[i]),
    ensures
        trimmed_end(s) == trimmed_end(s.take(n)),
    decreases s.len(),
{
    if n == s.len() {
        assert(s.take(n) == s);
    } else {
        lemma_trimmed_end_take(s.drop_last(), n);
        assert(s.drop_last().take(n) == s.take(n));
    }
}

/// `s` without the white space at its start.
pub fn trim_start(s: &str) -> (result: &str)
    ensures
        result@ == trimmed_start(s@),
{
    let cs = chars_of(s);
    let mut start: usize = 0;
    while start < cs.len() && white_space(cs[start])
        invariant
            start <= cs.len(),
            cs@ == s@,
            forall|i: int| 0 <= i < start ==> is_white_space(s@[i]),
        decreases cs.len() - start,
    {
        start = start + 1;
    }
    proof {
        lemma_trimmed_start_skip(s@, start as int);
        assert(s@.subrange(start as int, s@.len() as int) == s@.skip(start as int));
    }
    s.substring_char(start, cs.len())
}

/// `s` without the white space at either end.
pub fn trim(s: &str) -> (result: &str)
    ensures
        result@ == trimmed(s@),
{
    let rest = trim_start(s);
    let cs = chars_of(rest);
    let mut end: usize = cs.len();
    while end > 0 && white_space(cs[end - 1])
        invariant
            end <= cs.len(),
            cs@ == rest@,
            forall|i: int| end <= i < rest@.len() ==> is_white_space(rest@[i]),
        decreases end,
    {
        end = end - 1;
    }
    proof {
        lemma_trimmed_end_take(rest@, end as int);
        assert(rest@.subrange(0, end as int) == rest@.take(end as int));
    }
    rest.substring_char(0, end)
}

/// Whether `a` and `b` hold the same text.
pub fn same(a: &str, b: &str) -> (result: bool)
    ensures
        result == (a@ == b@),
{
    a.to_owned() == b.to_owned()
}

/// Whether `part` stands in `cs` at position `at`.
fn matches_at(cs: &Vec<char>, part: &Vec<char>, at: usize) -> (result: bool)
    requires
        at <= cs.len(),
    ensures
        result == occurs_at(cs@, part@, at as int),
{
    if part.len() > cs.len() - at {
        return false;
    }
    let mut i: usize = 0;
    while i < part.len()
        invariant
            i <= part.len() <= cs.len() - at,
            at <= cs.len(),
            forall|j: int| 0 <= j < i ==> cs@[at + j] == part@[j],
        decreases part.len() - i,
    {
        if cs[at + i] != part[i] {
            assert(cs@.subrange(at as int, at + part@.len())[i as int] != part@[i as int]);
            return false;
        }
        i = i + 1;
    }
    assert(cs@.subrange(at as int, at + part@.len()) =~= part@);
    true
}

/// Whether `s` begins with `prefix`.
pub fn starts_with(s: &str, prefix: &str) -> (result: bool)
    ensures
        result == begins_with(s@, prefix@),
{
    let cs = chars_of(s);
    let part = chars_of(prefix);
    assert(prefix@.len() <= s@.len() ==> s@.take(prefix@.len() as int) == s@.subrange(
        0,
        prefix@.len() as int,
    ));
    matches_at(&cs, &part, 0)
}

/// `s` without `prefix`, where it begins with it.
pub fn strip_prefix<'a>(s: &'a str, prefix: &str) -> (result: Option<&'a str>)
    ensures
        text_option(result) == (if begins_with(s@, prefix@) {
            Some(s@.skip(prefix@.len() as int))
        } else {
            None
        }),
{
    if starts_with(s, prefix) {
        let from = prefix.unicode_len();
        let to = s.unicode_len();
        assert(s@.subrange(from as int, to as int) =~= s@.skip(prefix@.len() as int));
        Some(s.substring_char(from, to))
    } else {
        None
    }
}

/// The first position at which `part` stands in `s`.
pub fn find(s: &str, part: &str) -> (result: Option<usize>)
    ensures
        match result {
            Some(at) => occurs_at(s@, part@, at as int) && forall|i: int|
                0 <= i < at ==> !occurs_at(s@, part@, i),
            None => !holds_text(s@, part@),
        },
{
    let cs = chars_of(s);
    let ps = chars_of(part);
    let mut at: usize = 0;
    while at < cs.len()
        invariant
            at <= cs.len(),
            cs@ == s@,
            ps@ == part@,
            forall|i: int| 0 <= i < at ==> !occurs_at(s@, part@, i),
        decreases cs.len() - at,
    {
        if matches_at(&cs, &ps, at) {
            return Some(at);
        }
        at = at + 1;
    }
    if matches_at(&cs, &ps, at) {
        return Some(at);
    }
    None
}

/// Whether `part` stands anywhere in `s`.
pub fn contains(s: &str, part: &str) -> (result: bool)
    ensures
        result == holds_text(s@, part@),
{
    match find(s, part) {
        Some(at) => {
            assert(occurs_at(s@, part@, at as int));
            true
        },
        None => false,
    }
}

/// The position of the first `a` or `b` in `cs` from `from` on, or the length of `cs`.
fn next_of(cs: &Vec<char>, from: usize, a: char, b: char) -> (result: usize)
    requires
        from <= cs.len(),
    ensures
        from <= result <= cs.len(),
        result == from + first_of(cs@.skip(from as int), a, b),
{
    let mut at: usize = from;
    let ghost rest = cs@.skip(from as int);
    while at < cs.len() && cs[at] != a && cs[at] != b
        invariant
            from <= at <= cs.len(),
            rest == cs@.skip(from as int),
            forall|i: int| 0 <= i < at - from ==> rest[i] != a && rest[i] != b,
        decreases cs.len() - at,
    {
        assert(rest[at - from] == cs@[at as int]);
        at = at + 1;
    }
    proof {
        if at < cs.len() {
            assert(rest[at - from] == cs@[at as int]);
        }
        lemma_first_of_is(rest, a, b, at - from);
    }
    at
}

/// The position of the first `c` in `s`, or the length of `s`.
pub fn position_of(s: &str, c: char) -> (result: usize)
    ensures
        result == first_of(s@, c, c),
        result <= s@.len(),
{
    let cs = chars_of(s);
    assert(s@.skip(0) == s@);
    next_of(&cs, 0, c, c)
}

/// The pieces of `s` between the separators `a` and `b`.
pub fn split<'a>(s: &'a str, a: char, b: char) -> (result: Vec<&'a str>)
    ensures
        texts(result@) == pieces(s@, a, b),
{
    let cs = chars_of(s);
    let mut result: Vec<&'a str> = Vec::new();
    let mut from: usize = 0;
    assert(s@.skip(0) == s@);
    loop
        invariant_except_break
            from <= cs.len(),
            cs@ == s@,
            pieces(s@, a, b) == texts(result@) + pieces(s@.skip(from as int), a, b),
        ensures
            texts(result@) == pieces(s@, a, b),
        decreases cs.len() - from,
    {
        let at = next_of(&cs, from, a, b);
        let piece = s.substring_char(from, at);
        let ghost rest = s@.skip(from as int);
        let ghost before = texts(result@);
        result.push(piece);
        proof {
            assert(texts(result@) =~= before.push(piece@));
            if at < cs.len() {
                assert(piece@ =~= rest.take(at - from));
                assert(rest.skip(at - from + 1) =~= s@.skip(at + 1));
                assert(before + (seq![piece@] + pieces(s@.skip(at + 1), a, b)) =~= texts(result@)
                    + pieces(s@.skip(at + 1), a, b));
            } else {
                assert(piece@ =~= rest);
                assert(before + seq![piece@] =~= texts(result@));
            }
        }
        if at == cs.len() {
            break;
        }
        from = at + 1;
    }
    result
}

/// The lines of `s`.
pub fn lines<'a>(s: &'a str) -> (result: Vec<&'a str>)
    ensures
        texts(result@) == line_texts(s@),
{
    let cs = chars_of(s);
    let mut result: Vec<&'a str> = Vec::new();
    let mut from: usize = 0;
    assert(s@.skip(0) == s@);
    assert(line_texts(s@) =~= texts(result@) + line_texts(s@.skip(0)));
    while from < cs.len()
        invariant
            from <= cs.len(),
            cs@ == s@,
            line_texts(s@) == texts(result@) + line_texts(s@.skip(from as int)),
        decreases cs.len() - from,
    {
        let at = next_of(&cs, from, '\n', '\n');
        let ghost rest = s@.skip(from as int);
        let ghost before = texts(result@);
        if at == cs.len() {
            let line = s.substring_char(from, at);
            result.push(line);
            proof {
                assert(texts(result@) =~= before.push(line@));
                assert(line@ =~= rest);
                assert(before + seq![line@] =~= texts(result@));
                assert(s@.skip(at as int).len() == 0);
                assert(texts(result@) + line_texts(s@.skip(at as int)) =~= texts(result@));
            }
            from = at;
        } else {
            let end = if at > from && cs[at - 1] == '\r' {
                at - 1
            } else {
                at
            };
            let line = s.substring_char(from, end);
            result.push(line);
            proof {
                assert(texts(result@) =~= before.push(line@));
                assert(line@ =~= without_carriage_return(rest.take(at - from)));
                assert(rest.skip(at - from + 1) =~= s@.skip(at + 1));
                assert(before + (seq![line@] + line_texts(s@.skip(at + 1))) =~= texts(result@)
                    + line_texts(s@.skip(at + 1)));
            }
            from = at + 1;
        }
    }
    assert(s@.skip(from as int).len() == 0);
    assert(texts(result@) + line_texts(s@.skip(from as int)) =~= texts(result@));
    result
}

/// The number that the decimal digits of `s` write.
pub open spec fn decimal_value(s: Seq<char>) -> int
    decreases s.len(),
{
    if s.len() == 0 {
        0
    } else {
        10 * decimal_value(s.drop_last()) + (s.last() as int - '0' as int)
    }
}

/// Whether `s` is one decimal digit or more, and nothing else.
pub open spec fn is_decimal(s: Seq<char>) -> bool {
    s.len() > 0 && forall|i: int| 0 <= i < s.len() ==> '0' <= #[trigger] s[i] <= '9'
}

/// The digits of a number that may begin with a plus sign.
pub open spec fn unsigned_digits(s: Seq<char>) -> Seq<char> {
    if s.len() > 0 && s[0] == '+' {
        s.skip(1)
    } else {
        s
    }
}

/// The number that `s` writes in decimal, if it is one and fits 64 bits.
pub open spec fn unsigned_value(s: Seq<char>) -> Option<u64> {
    let digits = unsigned_digits(s);
    if is_decimal(digits) && decimal_value(digits) <= u64::MAX {
        Some(decimal_value(digits) as u64)
    } else {
        None
    }
}

/// A number never shrinks when digits are written after it.
proof fn lemma_decimal_value_grows(s: Seq<char>, n: int)
    requires
        0 <= n <= s.len(),
        forall|i: int| 0 <= i < s.len() ==> '0' <= #[trigger] s[i] <= '9',
    ensures
        0 <= decimal_value(s.take(n)) <= decimal_value(s),
    decreases s.len(),
{
    if s.len() == 0 {
        assert(s.take(n) =~= s);
    } else if n < s.len() {
        lemma_decimal_value_grows(s.drop_last(), n);
        assert(s.drop_last().take(n) =~= s.take(n));
    } else {
        lemma_decimal_value_grows(s.drop_last(), s.len() - 1);
        assert(s.drop_last().take(s.len() - 1) =~= s.drop_last());
        assert(s.take(n) =~= s);
    }
}

/// The number that `s` writes in decimal, with a plus sign before it or not.
pub fn parse_unsigned(s: &str) -> (result: Option<u64>)
    ensures
        result == unsigned_value(s@),
{
    let cs = chars_of(s);
    let start: usize = if cs.len() > 0 && cs[0] == '+' {
        1
    } else {
        0
    };
    let ghost digits = unsigned_digits(s@);
    assert(digits =~= s@.skip(start as int));
    if start == cs.len() {
        return None;
    }
    let mut value: u64 = 0;
    let mut i: usize = start;
    assert(digits.take(0).len() == 0);
    while i < cs.len()
        invariant
            start <= i <= cs.len(),
            cs@ == s@,
            digits == unsigned_digits(s@),
            digits == s@.skip(start as int),
            forall|j: int| 0 <= j < i - start ==> '0' <= #[trigger] digits[j] <= '9',
            value == decimal_value(digits.take(i - start)),
        decreases cs.len() - i,
    {
        let c = cs[i];
        assert(digits[i - start] == c);
        if c < '0' || '9' < c {
            return None;
        }
        let digit: u64 = (c as u32 - '0' as u32) as u64;
        assert(digits.take(i + 1 - start).drop_last() =~= digits.take(i - start));
        assert(digits.take(i + 1 - start).last() == c);
        assert(decimal_value(digits.take(i + 1 - start)) == 10 * value + digit);
        let grown = match value.checked_mul(10) {
            Some(tens) => tens.checked_add(digit),
            None => None,
        };
        match grown {
            Some(next) => {
                value = next;
            },
            None => {
                proof {
                    if is_decimal(digits) {
                        lemma_decimal_value_grows(digits, i + 1 - start);
                    }
                }
                return None;
            },
        }
        i = i + 1;
    }
    assert(digits.take(i - start) =~= digits);
    Some(value)
}

/// The texts of `parts` with `separator` between each two.
pub open spec fn joined(parts: Seq<Seq<char>>, separator: Seq<char>) -> Seq<char>
    decreases parts.len(),
{
    if parts.len() == 0 {
        Seq::empty()
    } else if parts.len() == 1 {
        parts[0]
    } else {
        joined(parts.drop_last(), separator) + separator + parts.last()
    }
}

/// The strings of `parts` with `separator` between each two.
pub fn join(parts: &Vec<String>, separator: &str) -> (result: String)
    ensures
        result@ == joined(strings(parts@), separator@),
{
    let mut result = String::new();
    let mut i: usize = 0;
    assert(strings(parts@).take(0) =~= Seq::empty());
    while i < parts.len()
        invariant
            i <= parts.len(),
            result@ == joined(strings(parts@).take(i as int), separator@),
        decreases parts.len() - i,
    {
        let ghost done = strings(parts@).take(i as int);
        let ghost next = strings(parts@).take(i + 1);
        assert(next.drop_last() =~= done);
        assert(next.last() == parts@[i as int]@);
        if i > 0 {
            result.append(separator);
        }
        result.append(parts[i].as_str());
        assert(joined(next, separator@) =~= result@);
        i = i + 1;
    }
    assert(strings(parts@).take(i as int) =~= strings(parts@));
    result
}

/// The first separator of a text is not moved by what is put behind it.
pub proof fn lemma_first_of_concat(s: Seq<char>, t: Seq<char>, a: char, b: char)
    requires
        t.len() > 0,
        t[0] == a,
    ensures
        first_of(s + t, a, b) == first_of(s, a, b),
    decreases s.len(),
{
    if s.len() == 0 {
        assert((s + t)[0] == a);
    } else {
        assert((s + t)[0] == s[0]);
        if s[0] != a && s[0] != b {
            assert((s + t).skip(1) =~= s.skip(1) + t);
            lemma_first_of_concat(s.skip(1), t, a, b);
        }
    }
}

/// The pieces of two texts with a separator between them are those of both.
pub proof fn lemma_pieces_append(s: Seq<char>, value: Seq<char>, a: char, b: char)
    ensures
        pieces(s + seq![a] + value, a, b) == pieces(s, a, b) + pieces(
            value,
            a,
            b,
        ),
    decreases s.len(),
{
    let whole = s + seq![a] + value;
    let tail = seq![a] + value;
    assert(whole =~= s + tail);
    lemma_first_of_concat(s, tail, a, b);
    lemma_first_of(s, a, b);
    let at = first_of(s, a, b);
    if at >= s.len() {
        assert(whole.take(at) =~= s);
        assert(whole.skip(at + 1) =~= value);
    } else {
        assert(whole.take(at) =~= s.take(at));
        assert(whole.skip(at + 1) =~= s.skip(at + 1) + seq![a] + value);
        lemma_pieces_append(s.skip(at + 1), value, a, b);
        assert(seq![s.take(at)] + (pieces(s.skip(at + 1), a, b) + pieces(value, a, b))
            =~= pieces(s, a, b) + pieces(value, a, b));
    }
}

/// The texts of `parts` that hold no separator are the pieces of what joins them.
pub proof fn lemma_pieces_of_joined(parts: Seq<Seq<char>>, a: char)
    requires
        parts.len() > 0,
        forall|i: int, j: int|
            0 <= i < parts.len() && 0 <= j < parts[i].len() ==> #[trigger] parts[i][j] != a,
    ensures
        pieces(joined(parts, seq![a]), a, a) == parts,
    decreases parts.len(),
{
    let last = parts.last();
    assert forall|j: int| 0 <= j < last.len() implies #[trigger] last[j] != a by {
        assert(parts[parts.len() - 1][j] != a);
    }
    lemma_first_of_is(last, a, a, last.len() as int);
    if parts.len() == 1 {
        assert(parts =~= seq![last]);
    } else {
        let rest = parts.drop_last();
        assert forall|i: int, j: int|
            0 <= i < rest.len() && 0 <= j < rest[i].len() implies #[trigger] rest[i][j] != a by {
            assert(parts[i][j] != a);
        }
        lemma_pieces_of_joined(rest, a);
        lemma_pieces_append(joined(rest, seq![a]), last, a, a);
        assert(rest + seq![last] =~= parts);
    }
}

/// White space is the space, the tab and the line ends of ASCII, and the other characters with the
/// property.
pub proof fn white_space_characters(c: char)
    ensures
        c <= '\u{7f}' ==> (is_white_space(c) <==> c == ' ' || c == '\t' || c == '\n' || c == '\u{b}'
            || c == '\u{c}' || c == '\r'),
        c > '\u{7f}' && is_white_space(c) ==> c == '\u{85}' || c == '\u{a0}' || c == '\u{1680}' || (
        '\u{2000}' <= c <= '\u{200a}') || c == '\u{2028}' || c == '\u{2029}' || c == '\u{202f}' || c
            == '\u{205f}' || c == '\u{3000}',
        is_white_space('\u{85}') && is_white_space('\u{a0}') && is_white_space('\u{1680}')
            && is_white_space('\u{2000}') && is_white_space('\u{200a}') && is_white_space(
            '\u{2028}',
        ) && is_white_space('\u{2029}') && is_white_space('\u{202f}') && is_white_space('\u{205f}')
            && is_white_space('\u{3000}'),
{
}

/// Whether all characters of `s` are white space.
pub open spec fn is_all_white(s: Seq<char>) -> bool {
    forall|i: int| 0 <= i < s.len() ==> is_white_space(#[trigger] s[i])
}

/// Trimming the start takes off the white space there, all of it and nothing else.
pub proof fn white_start_is_taken_off(white: Seq<char>, kept: Seq<char>)
    requires
        is_all_white(white),
        kept.len() > 0 ==> !is_white_space(kept[0]),
    ensures
        trimmed_start(white + kept) == kept,
    decreases white.len(),
{
    let whole = white + kept;
    if white.len() > 0 {
        let rest = white.skip(1);
        assert(whole[0] == white[0]);
        assert forall|i: int| 0 <= i < rest.len() implies is_white_space(#[trigger] rest[i]) by {
            assert(rest[i] == white[i + 1]);
        }
        white_start_is_taken_off(rest, kept);
        assert(whole.skip(1) =~= rest + kept);
    } else {
        assert(whole =~= kept);
    }
}

proof fn lemma_white_end_is_taken_off(kept: Seq<char>, white: Seq<char>)
    requires
        is_all_white(white),
        kept.len() > 0 ==> !is_white_space(kept.last()),
    ensures
        trimmed_end(kept + white) == kept,
    decreases white.len(),
{
    let whole = kept + white;
    if white.len() > 0 {
        let rest = white.drop_last();
        assert(whole.last() == white[white.len() - 1]);
        assert forall|i: int| 0 <= i < rest.len() implies is_white_space(#[trigger] rest[i]) by {
            assert(rest[i] == white[i]);
        }
        lemma_white_end_is_taken_off(kept, rest);
        assert(whole.drop_last() =~= kept + rest);
    } else {
        assert(whole =~= kept);
    }
}

/// Trimming takes off the white space at both ends, all of it and nothing else.
pub proof fn white_ends_are_taken_off(before: Seq<char>, kept: Seq<char>, after: Seq<char>)
    requires
        is_all_white(before),
        is_all_white(after),
        kept.len() > 0 ==> !is_white_space(kept[0]) && !is_white_space(kept.last()),
    ensures
        trimmed(before + kept + after) == kept,
{
    let whole = before + kept + after;
    if kept.len() > 0 {
        assert(whole =~= before + (kept + after));
        white_start_is_taken_off(before, kept + after);
        lemma_white_end_is_taken_off(kept, after);
    } else {
        assert forall|i: int| 0 <= i < whole.len() implies is_white_space(#[trigger] whole[i]) by {
            if i < before.len() {
                assert(whole[i] == before[i]);
            } else {
                assert(whole[i] == after[i - before.len()]);
            }
        }
        assert(whole + Seq::<char>::empty() =~= whole);
        white_start_is_taken_off(whole, Seq::empty());
        assert(kept =~= Seq::empty());
    }
}

/// A text is found wherever it stands, and only where it stands.
pub proof fn text_is_found_where_it_stands(s: Seq<char>, part: Seq<char>, before: Seq<char>, after: Seq<char>)
    ensures
        s == before + part + after ==> holds_text(s, part),
        s == part + after ==> begins_with(s, part),
        holds_text(s, part) ==> exists|at: int|
            0 <= at <= s.len() - part.len() && #[trigger] s.skip(at).take(part.len() as int) == part,
        begins_with(s, part) ==> s == part + s.skip(part.len() as int),
{
    if s == before + part + after {
        let at = before.len() as int;
        assert(s.subrange(at, at + part.len()) =~= part);
        assert(occurs_at(s, part, at));
    }
    if s == part + after {
        assert(s.take(part.len() as int) =~= part);
    }
    if holds_text(s, part) {
        let at = choose|at: int| occurs_at(s, part, at);
        assert(s.skip(at).take(part.len() as int) =~= s.subrange(at, at + part.len()));
    }
    if begins_with(s, part) {
        assert(s =~= s.take(part.len() as int) + s.skip(part.len() as int));
    }
}

/// A text without separators is one piece, and a separator parts the pieces before it from those
/// behind it.
pub proof fn separators_part_pieces(s: Seq<char>, separator: char, t: Seq<char>, a: char, b: char)
    requires
        separator == a || separator == b,
    ensures
        (forall|i: int| 0 <= i < s.len() ==> s[i] != a && s[i] != b) ==> pieces(s, a, b) == seq![s],
        pieces(s + seq![separator] + t, a, b) == pieces(s, a, b) + pieces(t, a, b),
    decreases s.len(),
{
    lemma_first_of(s, a, b);
    let at = first_of(s, a, b);
    let whole = s + seq![separator] + t;
    assert(forall|i: int| 0 <= i < s.len() ==> whole[i] == s[i]);
    assert(whole[s.len() as int] == separator);
    lemma_first_of_is(whole, a, b, at);
    assert(whole.take(at) =~= s.take(at));
    if at >= s.len() {
        assert(s.take(at) =~= s);
        assert(whole.skip(at + 1) =~= t);
    } else {
        let rest = s.skip(at + 1);
        assert(whole.skip(at + 1) =~= rest + seq![separator] + t);
        separators_part_pieces(rest, separator, t, a, b);
        assert(pieces(whole, a, b) =~= pieces(s, a, b) + pieces(t, a, b));
        assert(s[at] == a || s[at] == b);
    }
}

/// A line feed ends a line, with a carriage return before it where there is one; the last line needs
/// none. Nothing has no lines.
pub proof fn line_feeds_end_lines(line: Seq<char>, rest: Seq<char>)
    requires
        forall|i: int| 0 <= i < line.len() ==> line[i] != '\n',
    ensures
        line_texts(Seq::empty()) == Seq::<Seq<char>>::empty(),
        line.len() > 0 ==> line_texts(line) == seq![line],
        line_texts(line + seq!['\r', '\n'] + rest) == seq![line] + line_texts(rest),
        line.len() == 0 || line.last() != '\r' ==> line_texts(line + seq!['\n'] + rest) == seq![line]
            + line_texts(rest),
{
    lemma_first_of_is(line, '\n', '\n', line.len() as int);
    let n = line.len() as int;
    let plain = line + seq!['\n'] + rest;
    assert(forall|i: int| 0 <= i < n ==> plain[i] == line[i]);
    lemma_first_of_is(plain, '\n', '\n', n);
    assert(plain.take(n) =~= line);
    assert(plain.skip(n + 1) =~= rest);
    let returned = line + seq!['\r', '\n'] + rest;
    assert(forall|i: int| 0 <= i < n ==> returned[i] == line[i]);
    assert(returned[n] == '\r' && returned[n + 1] == '\n');
    lemma_first_of_is(returned, '\n', '\n', n + 1);
    assert(returned.take(n + 1) =~= line.push('\r'));
    assert(line.push('\r').drop_last() =~= line);
    assert(returned.skip(n + 2) =~= rest);
}

/// A number is read digit by digit, from the left, with a plus sign before it or not; what holds
/// anything else, or is too large, is no number.
pub proof fn numbers_are_read_digit_by_digit(digits: Seq<char>, last: char, value: u64)
    requires
        unsigned_value(digits) == Some(value),
    ensures
        '0' <= last <= '9' && 10 * value + (last as int - '0' as int) <= u64::MAX
            ==> unsigned_value(digits.push(last)) == Some(
            (10 * value + (last as int - '0' as int)) as u64,
        ),
        '0' <= last <= '9' && 10 * value + (last as int - '0' as int) > u64::MAX ==> unsigned_value(
            digits.push(last),
        ) is None,
        !('0' <= last <= '9') ==> unsigned_value(digits.push(last)) is None,
        '0' <= last <= '9' ==> unsigned_value(seq![last]) == Some((last as int - '0' as int) as u64),
        digits[0] != '+' ==> unsigned_value(seq!['+'] + digits) == Some(value),
        unsigned_value(Seq::empty()) is None,
{
    let before = unsigned_digits(digits);
    let after = unsigned_digits(digits.push(last));
    assert(after =~= before.push(last));
    assert(after.drop_last() =~= before);
    assert forall|i: int| 0 <= i < before.len() implies after[i] == before[i] by {}
    assert(after[before.len() as int] == last);
    if !('0' <= last <= '9') {
        assert(!is_decimal(after));
    } else {
        lemma_decimal_value_grows(before, 0);
        assert(decimal_value(before) == value);
        assert(is_decimal(after));
        assert(decimal_value(after) == 10 * value + (last as int - '0' as int));
    }
    let one = seq![last];
    assert(one.drop_last() =~= Seq::empty());
    assert(unsigned_digits(one) =~= one || last == '+');
    assert(decimal_value(one) == 10 * decimal_value(Seq::empty()) + (last as int - '0' as int));
    let signed = seq!['+'] + digits;
    assert(unsigned_digits(signed) =~= digits);
    assert(digits[0] != '+' ==> before == digits);
}

/// Texts are joined with the separator between each two, and nowhere else.
pub proof fn separator_stands_between(parts: Seq<Seq<char>>, last: Seq<char>, separator: Seq<char>)
    ensures
        joined(Seq::empty(), separator) == Seq::<char>::empty(),
        joined(seq![last], separator) == last,
        parts.len() > 0 ==> joined(parts.push(last), separator) == joined(parts, separator)
            + separator + last,
{
    assert(parts.push(last).drop_last() =~= parts);
}

} // verus!
