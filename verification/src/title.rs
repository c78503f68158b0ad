//! Terminal titles: the live-activity prefix that programs write before them, and what is left
//! of a title once that prefix is taken off.
use vstd::prelude::*;

use crate::text;
use crate::text::{chars_of, find, starts_with, trim, white_space};

verus! {

/// What `char::is_alphanumeric` says of a character: whether it is a letter or a number in
/// Unicode.
pub uninterp spec fn is_alphanumeric(c: char) -> bool;

/// `char::is_alphanumeric`. The contract names the result, and says what it is for the ASCII
/// characters: true for the digits and the letters, false for the others.
pub assume_specification[ char::is_alphanumeric ](c: char) -> (result: bool)
    ensures
        result == is_alphanumeric(c),
        c <= '\u{7f}' ==> result == ('0' <= c <= '9' || 'a' <= c <= 'z' || 'A' <= c <= 'Z'),
;

/// Whether `c` can stand in the part of a prefix before its white space.
pub open spec fn is_marker(c: char) -> bool {
    !is_alphanumeric(c) && !text::is_white_space(c)
}

/// The number of markers at the start of `s`.
pub open spec fn marker_count(s: Seq<char>) -> int
    decreases s.len(),
{
    if s.len() > 0 && is_marker(s[0]) {
        1 + marker_count(s.skip(1))
    } else {
        0
    }
}

/// The number of white space characters at the start of `s`.
pub open spec fn white_space_count(s: Seq<char>) -> int {
    s.len() - text::trimmed_start(s).len()
}

/// The length of the activity prefix of a title: one marker or more, and the white space that
/// follows them. A title has one only where white space comes right after its markers.
pub open spec fn prefix_length(title: Seq<char>) -> Option<int> {
    let markers = marker_count(title);
    if 0 < markers < title.len() && !is_alphanumeric(title[markers]) {
        Some(markers + white_space_count(title.skip(markers)))
    } else {
        None
    }
}

/// The activity prefix of a title.
pub open spec fn title_prefix(title: Seq<char>) -> Option<Seq<char>> {
    match prefix_length(title) {
        Some(n) => Some(title.take(n)),
        None => None,
    }
}

/// A title without its activity prefix.
pub open spec fn title_without_prefix(title: Seq<char>) -> Seq<char> {
    match prefix_length(title) {
        Some(n) => title.skip(n),
        None => title,
    }
}

/// What follows the first `part` in `s`.
pub open spec fn after_first(s: Seq<char>, part: Seq<char>) -> Option<Seq<char>>
    decreases s.len(),
{
    if text::begins_with(s, part) {
        Some(s.skip(part.len() as int))
    } else if s.len() == 0 {
        None
    } else {
        after_first(s.skip(1), part)
    }
}

/// Whether a title says that its program waits for the user.
pub open spec fn asks_for_action(title: Seq<char>) -> bool {
    text::begins_with(title, "[ ! ] Action Required"@) || text::begins_with(
        title,
        "[ . ] Action Required"@,
    )
}

/// The part of a title that is kept in records: not its activity prefix, and not a request for
/// action, of which only what follows ` | ` is kept.
pub open spec fn lasting_title(title: Seq<char>) -> Seq<char> {
    if asks_for_action(title) {
        match after_first(title, " | "@) {
            Some(rest) => rest,
            None => Seq::empty(),
        }
    } else {
        title_without_prefix(title)
    }
}

/// Whether a custom title holds anything but white space.
pub open spec fn is_blank(title: Seq<char>) -> bool {
    text::trimmed(title).len() == 0
}

/// The title to show: the custom title where there is one, behind the activity prefix of the
/// terminal's title; else the terminal's title.
pub open spec fn shown_title(terminal_title: Seq<char>, custom_title: Option<Seq<char>>) -> Seq<
    char,
> {
    match custom_title {
        Some(custom) if !is_blank(custom) => match title_prefix(terminal_title) {
            Some(prefix) => prefix + custom,
            None => custom,
        },
        _ => terminal_title,
    }
}

proof fn lemma_trimmed_start_is_suffix(s: Seq<char>)
    ensures
        text::trimmed_start(s).len() <= s.len(),
        text::trimmed_start(s) == s.skip(s.len() - text::trimmed_start(s).len()),
    decreases s.len(),
{
    if s.len() > 0 && text::is_white_space(s[0]) {
        lemma_trimmed_start_is_suffix(s.skip(1));
        let rest = text::trimmed_start(s.skip(1));
        assert(s.skip(1).skip(s.skip(1).len() - rest.len()) =~= s.skip(s.len() - rest.len()));
    } else {
        assert(s.skip(0) =~= s);
    }
}

proof fn lemma_white_space_count(s: Seq<char>, n: int)
    requires
        0 <= n <= s.len(),
        forall|i: int| 0 <= i < n ==> text::is_white_space(s[i]),
        n < s.len() ==> !text::is_white_space(s[n]),
    ensures
        white_space_count(s) == n,
    decreases n,
{
    if n > 0 {
        assert forall|i: int| 0 <= i < n - 1 implies text::is_white_space(s.skip(1)[i]) by {
            assert(s.skip(1)[i] == s[i + 1]);
        }
        lemma_white_space_count(s.skip(1), n - 1);
    }
}

proof fn lemma_marker_count(s: Seq<char>, n: int)
    requires
        0 <= n <= s.len(),
        forall|i: int| 0 <= i < n ==> is_marker(s[i]),
        n < s.len() ==> !is_marker(s[n]),
    ensures
        marker_count(s) == n,
    decreases n,
{
    if n > 0 {
        assert forall|i: int| 0 <= i < n - 1 implies is_marker(s.skip(1)[i]) by {
            assert(s.skip(1)[i] == s[i + 1]);
        }
        lemma_marker_count(s.skip(1), n - 1);
    }
}

proof fn lemma_marker_count_bounds(s: Seq<char>)
    ensures
        0 <= marker_count(s) <= s.len(),
        forall|i: int| 0 <= i < marker_count(s) ==> is_marker(#[trigger] s[i]),
    decreases s.len(),
{
    if s.len() > 0 && is_marker(s[0]) {
        lemma_marker_count_bounds(s.skip(1));
        assert forall|i: int| 0 <= i < marker_count(s) implies is_marker(#[trigger] s[i]) by {
            if i > 0 {
                assert(s[i] == s.skip(1)[i - 1]);
            }
        }
    }
}

proof fn lemma_after_first(s: Seq<char>, part: Seq<char>, at: int)
    requires
        text::occurs_at(s, part, at),
        forall|i: int| 0 <= i < at ==> !text::occurs_at(s, part, i),
    ensures
        after_first(s, part) == Some(s.skip(at + part.len())),
    decreases at,
{
    assert(part.len() <= s.len() ==> s.take(part.len() as int) =~= s.subrange(
        0,
        part.len() as int,
    ));
    if at == 0 {
    } else {
        assert(!text::occurs_at(s, part, 0));
        let rest = s.skip(1);
        assert(rest.subrange(at - 1, at - 1 + part.len()) =~= s.subrange(at, at + part.len()));
        assert forall|i: int| 0 <= i < at - 1 implies !text::occurs_at(rest, part, i) by {
            assert(!text::occurs_at(s, part, i + 1));
            if i + part.len() <= rest.len() {
                assert(rest.subrange(i, i + part.len()) =~= s.subrange(i + 1, i + 1 + part.len()));
            }
        }
        lemma_after_first(rest, part, at - 1);
        assert(rest.skip(at - 1 + part.len()) =~= s.skip(at + part.len()));
    }
}

proof fn lemma_after_first_none(s: Seq<char>, part: Seq<char>)
    requires
        !text::holds_text(s, part),
    ensures
        after_first(s, part) is None,
    decreases s.len(),
{
    assert(!text::occurs_at(s, part, 0));
    assert(part.len() <= s.len() ==> s.take(part.len() as int) =~= s.subrange(
        0,
        part.len() as int,
    ));
    if s.len() > 0 {
        let rest = s.skip(1);
        assert forall|i: int| !text::occurs_at(rest, part, i) by {
            assert(!text::occurs_at(s, part, i + 1));
            if 0 <= i && i + part.len() <= rest.len() {
                assert(rest.subrange(i, i + part.len()) =~= s.subrange(i + 1, i + 1 + part.len()));
            }
        }
        lemma_after_first_none(rest, part);
    }
}

/// The prefix of a title lies within it, and ends where the first character that is neither a
/// marker nor white space begins.
pub proof fn prefix_length_bounds(title: Seq<char>)
    ensures
        match prefix_length(title) {
            Some(n) => 2 <= n <= title.len() && is_marker(title[0]) && text::is_white_space(
                title[n - 1],
            ) && (n < title.len() ==> !text::is_white_space(title[n])),
            None => true,
        },
{
    lemma_marker_count_bounds(title);
    let markers = marker_count(title);
    if prefix_length(title) is Some {
        let rest = title.skip(markers);
        lemma_marker_stops(title);
        assert(text::is_white_space(rest[0]));
        lemma_white_space_run(rest);
        let count = white_space_count(rest);
        assert(title[markers + count - 1] == rest[count - 1]);
        if markers + count < title.len() {
            assert(title[markers + count] == rest[count]);
        }
    }
}

proof fn lemma_marker_stops(s: Seq<char>)
    ensures
        marker_count(s) < s.len() ==> !is_marker(s[marker_count(s)]),
    decreases s.len(),
{
    lemma_marker_count_bounds(s);
    if s.len() > 0 && is_marker(s[0]) {
        lemma_marker_stops(s.skip(1));
        lemma_marker_count_bounds(s.skip(1));
    }
}

proof fn lemma_white_space_run(s: Seq<char>)
    ensures
        0 <= white_space_count(s) <= s.len(),
        forall|i: int| 0 <= i < white_space_count(s) ==> text::is_white_space(#[trigger] s[i]),
        white_space_count(s) < s.len() ==> !text::is_white_space(s[white_space_count(s)]),
    decreases s.len(),
{
    lemma_trimmed_start_is_suffix(s);
    if s.len() > 0 && text::is_white_space(s[0]) {
        lemma_white_space_run(s.skip(1));
        assert forall|i: int| 0 <= i < white_space_count(s) implies text::is_white_space(
            #[trigger] s[i],
        ) by {
            if i > 0 {
                assert(s[i] == s.skip(1)[i - 1]);
            }
        }
    }
}

/// A title is its prefix and what is left without it.
pub proof fn title_is_prefix_and_rest(title: Seq<char>)
    ensures
        match title_prefix(title) {
            Some(prefix) => prefix + title_without_prefix(title) == title,
            None => title_without_prefix(title) == title,
        },
{
    prefix_length_bounds(title);
    if let Some(n) = prefix_length(title) {
        assert(title.take(n) + title.skip(n) =~= title);
    }
}

/// The activity prefix of a title is the run of markers that it begins with, followed by the run of
/// white space behind them: a title that is made of these two and of a rest that begins with
/// neither has them as its prefix, and the rest is left without it.
pub proof fn prefix_is_markers_and_white_space(
    markers: Seq<char>,
    white: Seq<char>,
    rest: Seq<char>,
)
    requires
        markers.len() > 0,
        forall|i: int|
            0 <= i < markers.len() ==> !is_alphanumeric(#[trigger] markers[i])
                && !text::is_white_space(markers[i]),
        white.len() > 0,
        text::is_all_white(white),
        !is_alphanumeric(white[0]),
        rest.len() > 0 ==> !text::is_white_space(rest[0]),
    ensures
        title_prefix(markers + white + rest) == Some(markers + white),
        title_without_prefix(markers + white + rest) == rest,
{
    let title = markers + white + rest;
    let m = markers.len() as int;
    let tail = title.skip(m);
    assert(forall|i: int| 0 <= i < m ==> title[i] == markers[i]);
    assert(title[m] == white[0]);
    lemma_marker_count(title, m);
    assert(tail =~= white + rest);
    assert forall|i: int| 0 <= i < white.len() implies text::is_white_space(tail[i]) by {
        assert(tail[i] == white[i]);
    }
    lemma_white_space_count(tail, white.len() as int);
    assert(title.take(m + white.len()) =~= markers + white);
    assert(title.skip(m + white.len()) =~= rest);
}

/// A title that begins with a letter, a number or white space, or in which no white space follows
/// the markers, has no prefix, and nothing is taken off it.
pub proof fn other_titles_have_no_prefix(title: Seq<char>, markers: int)
    requires
        0 <= markers <= title.len(),
        forall|i: int|
            0 <= i < markers ==> !is_alphanumeric(#[trigger] title[i]) && !text::is_white_space(
                title[i],
            ),
        markers < title.len() ==> is_alphanumeric(title[markers]) || (markers == 0
            && text::is_white_space(title[0])),
    ensures
        title_prefix(title) is None,
        title_without_prefix(title) == title,
{
    lemma_marker_count(title, markers);
}

/// Of a title that asks for action, what follows the first ` | ` is kept, and nothing where there is
/// none. Of any other, what is left without the prefix.
pub proof fn lasting_title_is_the_rest(title: Seq<char>, at: int)
    ensures
        ({
            let asks = text::begins_with(title, "[ ! ] Action Required"@) || text::begins_with(
                title,
                "[ . ] Action Required"@,
            );
            &&& !asks ==> lasting_title(title) == title_without_prefix(title)
            &&& asks && !text::holds_text(title, " | "@) ==> lasting_title(title) == Seq::<
                char,
            >::empty()
            &&& asks && text::occurs_at(title, " | "@, at) && (forall|i: int|
                0 <= i < at ==> !text::occurs_at(title, " | "@, i)) ==> lasting_title(title)
                == title.skip(at + 3)
        }),
{
    reveal_strlit(" | ");
    assert(" | "@.len() == 3);
    if !text::holds_text(title, " | "@) {
        lemma_after_first_none(title, " | "@);
    } else if text::occurs_at(title, " | "@, at) && (forall|i: int|
        0 <= i < at ==> !text::occurs_at(title, " | "@, i)) {
        lemma_after_first(title, " | "@, at);
    }
}

/// A custom title is shown behind the prefix of the terminal's title, if that has one. Without a
/// custom title, or with one of white space alone, the terminal's title is shown.
pub proof fn custom_title_comes_behind_the_prefix(terminal_title: Seq<char>, custom: Seq<char>)
    ensures
        shown_title(terminal_title, None) == terminal_title,
        text::is_all_white(custom) ==> shown_title(terminal_title, Some(custom)) == terminal_title,
        !text::is_all_white(custom) ==> shown_title(terminal_title, Some(custom)) == match
            title_prefix(terminal_title) {
            Some(prefix) => prefix + custom,
            None => custom,
        },
{
    if text::is_all_white(custom) {
        text::white_ends_are_taken_off(custom, Seq::empty(), Seq::empty());
        assert(custom + Seq::<char>::empty() + Seq::<char>::empty() =~= custom);
    } else {
        lemma_trimmed_keeps(custom);
    }
}

proof fn lemma_trimmed_keeps(s: Seq<char>)
    requires
        !text::is_all_white(s),
    ensures
        text::trimmed(s).len() > 0,
    decreases s.len(),
{
    let begun = text::trimmed_start(s);
    let i = choose|i: int| 0 <= i < s.len() && !text::is_white_space(#[trigger] s[i]);
    lemma_white_space_run(s);
    lemma_trimmed_start_is_suffix(s);
    assert(white_space_count(s) <= i);
    assert(begun.len() > 0 && !text::is_white_space(begun[0]));
    lemma_trimmed_end_keeps(begun);
}

proof fn lemma_trimmed_end_keeps(s: Seq<char>)
    requires
        s.len() > 0,
        !text::is_white_space(s[0]),
    ensures
        text::trimmed_end(s).len() > 0,
    decreases s.len(),
{
    if text::is_white_space(s.last()) {
        assert(s.len() > 1);
        lemma_trimmed_end_keeps(s.drop_last());
    }
}

/// The length of the activity prefix of a title.
fn prefix_end(title: &str) -> (result: Option<usize>)
    ensures
        match result {
            Some(n) => prefix_length(title@) == Some(n as int) && n <= title@.len(),
            None => prefix_length(title@) is None,
        },
{
    let cs = chars_of(title);
    let mut markers: usize = 0;
    while markers < cs.len() && !cs[markers].is_alphanumeric() && !white_space(cs[markers])
        invariant
            markers <= cs.len(),
            cs@ == title@,
            forall|i: int| 0 <= i < markers ==> is_marker(title@[i]),
        decreases cs.len() - markers,
    {
        markers = markers + 1;
    }
    proof {
        lemma_marker_count(title@, markers as int);
    }
    if markers == 0 || markers == cs.len() || cs[markers].is_alphanumeric() {
        return None;
    }
    let ghost rest = title@.skip(markers as int);
    let mut end: usize = markers;
    while end < cs.len() && white_space(cs[end])
        invariant
            markers <= end <= cs.len(),
            cs@ == title@,
            rest == title@.skip(markers as int),
            forall|i: int| 0 <= i < end - markers ==> text::is_white_space(rest[i]),
        decreases cs.len() - end,
    {
        assert(rest[end - markers] == title@[end as int]);
        end = end + 1;
    }
    proof {
        if end < cs.len() {
            assert(rest[end - markers] == title@[end as int]);
        }
        lemma_white_space_count(rest, end - markers);
    }
    Some(end)
}

/// The activity prefix of a title: markers that are neither letters, numbers nor white space, and
/// the white space that follows them.
pub fn terminal_title_prefix(title: &str) -> (result: Option<&str>)
    ensures
        text::text_option(result) == title_prefix(title@),
{
    match prefix_end(title) {
        Some(end) => {
            assert(title@.subrange(0, end as int) =~= title@.take(end as int));
            Some(title.substring_char(0, end))
        },
        None => None,
    }
}

/// A title without its activity prefix.
pub fn terminal_title_without_prefix(title: &str) -> (result: &str)
    ensures
        result@ == title_without_prefix(title@),
{
    match prefix_end(title) {
        Some(end) => {
            let length = title.unicode_len();
            assert(title@.subrange(end as int, length as int) =~= title@.skip(end as int));
            title.substring_char(end, length)
        },
        None => title,
    }
}

/// The part of a title that is kept in records.
pub fn terminal_title_for_persistence(title: &str) -> (result: String)
    ensures
        result@ == lasting_title(title@),
{
    if starts_with(title, "[ ! ] Action Required") || starts_with(title, "[ . ] Action Required") {
        match find(title, " | ") {
            Some(at) => {
                let width = " | ".unicode_len();
                let length = title.unicode_len();
                proof {
                    lemma_after_first(title@, " | "@, at as int);
                    assert(title@.subrange(at + width, length as int) =~= title@.skip(
                        at + " | "@.len(),
                    ));
                }
                return title.substring_char(at + width, length).to_owned();
            },
            None => {
                proof {
                    lemma_after_first_none(title@, " | "@);
                }
                return String::new();
            },
        }
    }
    terminal_title_without_prefix(title).to_owned()
}

/// The title to show for a terminal that has `terminal_title` and may have a custom title.
pub fn compose_terminal_thread_title(terminal_title: &str, custom_title: Option<&str>) -> (result:
    String)
    ensures
        result@ == shown_title(terminal_title@, text::text_option(custom_title)),
{
    match custom_title {
        Some(custom) => {
            if trim(custom).is_empty() {
                return terminal_title.to_owned();
            }
            match terminal_title_prefix(terminal_title) {
                Some(prefix) => prefix.to_owned().concat(custom),
                None => custom.to_owned(),
            }
        },
        None => terminal_title.to_owned(),
    }
}

} // verus!
