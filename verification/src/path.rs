//! Paths, as the texts that write them. Two texts name the same path when they have the same
//! components: repeated and trailing slashes count for nothing, and neither does a `.` anywhere but
//! at the very start. What is shown of a path is its text.
use vstd::prelude::*;

use crate::text;
use crate::text::{chars_of, position_of, same};

verus! {

/// The path of the root directory, as a component.
pub open spec fn root_component() -> Seq<char> {
    seq!['/']
}

/// Whether what stands between two slashes counts for nothing.
pub open spec fn is_idle(piece: Seq<char>) -> bool {
    piece.len() == 0 || piece == seq!['.']
}

/// What stands before the first slash.
pub open spec fn first_piece(s: Seq<char>) -> Seq<char> {
    s.take(text::first_of(s, '/', '/'))
}

/// What stands behind the first slash.
pub open spec fn behind_first(s: Seq<char>) -> Seq<char> {
    let at = text::first_of(s, '/', '/');
    if at < s.len() {
        s.skip(at + 1)
    } else {
        Seq::empty()
    }
}

/// The components of a text behind its start.
pub open spec fn body_components(s: Seq<char>) -> Seq<Seq<char>>
    decreases s.len(),
    via body_components_decreases
{
    if s.len() == 0 {
        Seq::empty()
    } else if is_idle(first_piece(s)) {
        body_components(behind_first(s))
    } else {
        seq![first_piece(s)] + body_components(behind_first(s))
    }
}

#[via_fn]
proof fn body_components_decreases(s: Seq<char>) {
    text::lemma_first_of(s, '/', '/');
}

/// Whether a text names a path from the root.
pub open spec fn is_rooted(s: Seq<char>) -> bool {
    s.len() > 0 && s[0] == '/'
}

/// Whether a text starts with the component `.`.
pub open spec fn starts_here(s: Seq<char>) -> bool {
    s.len() > 0 && s[0] == '.' && (s.len() == 1 || s[1] == '/')
}

/// Whether a text starts with the root or with `.`, which are components nowhere else.
pub open spec fn has_start(s: Seq<char>) -> bool {
    is_rooted(s) || starts_here(s)
}

/// The components of the path that a text names.
pub open spec fn components_of(s: Seq<char>) -> Seq<Seq<char>> {
    if has_start(s) {
        seq![s.take(1)] + body_components(s.skip(1))
    } else {
        body_components(s)
    }
}

/// Whether two texts name the same path.
pub open spec fn is_same(a: Seq<char>, b: Seq<char>) -> bool {
    components_of(a) == components_of(b)
}

/// Whether one of `paths` is the path that `wanted` names.
pub open spec fn is_among(paths: Seq<Seq<char>>, wanted: Seq<char>) -> bool {
    exists|i: int| 0 <= i < paths.len() && is_same(#[trigger] paths[i], wanted)
}

/// Whether no two of `paths` are the same path.
pub open spec fn are_different(paths: Seq<Seq<char>>) -> bool {
    forall|i: int, j: int|
        0 <= i < j < paths.len() ==> !is_same(#[trigger] paths[i], #[trigger] paths[j])
}

/// The number of components.
pub open spec fn depth_of(s: Seq<char>) -> int {
    components_of(s).len() as int
}

/// Whether a component is a name: neither the root, nor `.`, nor `..`.
pub open spec fn is_name(component: Seq<char>) -> bool {
    component != root_component() && component != seq!['.'] && component != seq!['.', '.']
}

/// The final component of a path, where it is a name.
pub open spec fn final_name(components: Seq<Seq<char>>) -> Option<Seq<char>> {
    if components.len() > 0 && is_name(components.last()) {
        Some(components.last())
    } else {
        None
    }
}

/// The path without its final component, unless it is empty or the root alone.
pub open spec fn parent_of(components: Seq<Seq<char>>) -> Option<Seq<Seq<char>>> {
    if components.len() > 0 && components.last() != root_component() {
        Some(components.drop_last())
    } else {
        None
    }
}

/// Whether the path `components` is `base` or lies below it.
pub open spec fn lies_under(components: Seq<Seq<char>>, base: Seq<Seq<char>>) -> bool {
    base.len() <= components.len() && components.take(base.len() as int) == base
}

/// Whether a text names the path that `base` names, or one below it.
pub open spec fn is_under(s: Seq<char>, base: Seq<char>) -> bool {
    lies_under(components_of(s), components_of(base))
}

/// Whether a component is not empty and holds no slash.
pub open spec fn is_component(component: Seq<char>) -> bool {
    component.len() > 0 && forall|j: int| 0 <= j < component.len() ==> #[trigger] component[j]
        != '/'
}

/// Whether a text has no two slashes in a row.
pub open spec fn has_no_double_slash(s: Seq<char>) -> bool {
    forall|i: int| 0 <= i < s.len() - 1 ==> !(#[trigger] s[i] == '/' && s[i + 1] == '/')
}

/// The text of the path that `rest` names from `base` on: a slash is put between the two, unless
/// `base` is empty or ends with one. A path from the root takes the place of `base`.
pub open spec fn joined_text(base: Seq<char>, rest: Seq<char>) -> Seq<char> {
    if is_rooted(rest) || base.len() == 0 {
        rest
    } else if base.last() == '/' {
        base + rest
    } else {
        base + seq!['/'] + rest
    }
}

/// What is left of a text behind its first `count` components, where it is behind its start.
pub open spec fn behind_components(s: Seq<char>, count: int) -> Seq<char>
    decreases s.len(),
    via behind_components_decreases
{
    if count <= 0 || s.len() == 0 {
        s
    } else if is_idle(first_piece(s)) {
        behind_components(behind_first(s), count)
    } else {
        behind_components(behind_first(s), count - 1)
    }
}

#[via_fn]
proof fn behind_components_decreases(s: Seq<char>, count: int) {
    text::lemma_first_of(s, '/', '/');
}

/// A text without what counts for nothing at its start.
pub open spec fn without_idle_start(s: Seq<char>) -> Seq<char>
    decreases s.len(),
    via without_idle_start_decreases
{
    if s.len() > 0 && is_idle(first_piece(s)) {
        without_idle_start(behind_first(s))
    } else {
        s
    }
}

#[via_fn]
proof fn without_idle_start_decreases(s: Seq<char>) {
    text::lemma_first_of(s, '/', '/');
}

/// The position of the last slash in a text, or -1 where there is none.
pub open spec fn last_slash(s: Seq<char>) -> int
    decreases s.len(),
{
    if s.len() == 0 {
        -1
    } else if s.last() == '/' {
        s.len() - 1
    } else {
        last_slash(s.drop_last())
    }
}

proof fn lemma_last_slash(s: Seq<char>)
    ensures
        -1 <= last_slash(s) < s.len(),
        last_slash(s) >= 0 ==> s[last_slash(s)] == '/',
        forall|i: int| last_slash(s) < i < s.len() ==> s[i] != '/',
    decreases s.len(),
{
    if s.len() > 0 && s.last() != '/' {
        let rest = s.drop_last();
        lemma_last_slash(rest);
        assert forall|i: int| last_slash(s) < i < s.len() implies s[i] != '/' by {
            if i < rest.len() {
                assert(s[i] == rest[i]);
            }
        }
    }
}

/// A text without what counts for nothing at its end.
pub open spec fn without_idle_end(s: Seq<char>) -> Seq<char>
    decreases s.len(),
    via without_idle_end_decreases
{
    let at = last_slash(s);
    if s.len() == 0 || !is_idle(s.skip(at + 1)) {
        s
    } else if at < 0 {
        Seq::empty()
    } else {
        without_idle_end(s.take(at))
    }
}

#[via_fn]
proof fn without_idle_end_decreases(s: Seq<char>) {
    lemma_last_slash(s);
}

/// The text of what is left of a path behind its first `count` components. What counts for nothing
/// at either end is left out; what stands within stays as it is written.
pub open spec fn stripped_text(s: Seq<char>, count: int) -> Seq<char> {
    if count <= 0 {
        if has_start(s) {
            s.take(1) + without_idle_end(s.skip(1))
        } else {
            without_idle_end(s)
        }
    } else if has_start(s) {
        without_idle_end(without_idle_start(behind_components(s.skip(1), count - 1)))
    } else {
        without_idle_end(without_idle_start(behind_components(s, count)))
    }
}

/// The components of a text behind its start, with another behind a slash, are those of both.
pub proof fn lemma_body_of_joined(s: Seq<char>, t: Seq<char>)
    ensures
        body_components(s + seq!['/'] + t) == body_components(s) + body_components(t),
    decreases s.len(),
{
    let whole = s + seq!['/'] + t;
    let tail = seq!['/'] + t;
    assert(whole =~= s + tail);
    text::lemma_first_of_concat(s, tail, '/', '/');
    text::lemma_first_of(s, '/', '/');
    let at = text::first_of(s, '/', '/');
    assert(whole.take(at) =~= s.take(at));
    if at >= s.len() {
        assert(whole.skip(at + 1) =~= t);
        assert(s.take(at) =~= s);
        assert(body_components(Seq::empty()) =~= Seq::empty());
        assert(body_components(s) =~= if is_idle(s) {
            Seq::empty()
        } else {
            seq![s]
        });
    } else {
        let rest = s.skip(at + 1);
        assert(whole.skip(at + 1) =~= rest + seq!['/'] + t);
        lemma_body_of_joined(rest, t);
        assert(seq![first_piece(s)] + (body_components(rest) + body_components(t)) =~= seq![
            first_piece(s),
        ] + body_components(rest) + body_components(t));
    }
}

/// A `.` at the start of a text counts for nothing among the components behind it.
pub proof fn lemma_body_behind_start(s: Seq<char>)
    requires
        starts_here(s),
    ensures
        body_components(s.skip(1)) == body_components(s),
{
    let rest = s.skip(1);
    if s.len() == 1 {
        text::lemma_first_of_is(s, '/', '/', 1);
        assert(first_piece(s) =~= seq!['.']);
        assert(behind_first(s) =~= rest);
    } else {
        text::lemma_first_of_is(s, '/', '/', 1);
        assert(first_piece(s) =~= seq!['.']);
        text::lemma_first_of_is(rest, '/', '/', 0);
        assert(first_piece(rest) =~= Seq::empty());
        assert(behind_first(rest) =~= behind_first(s));
        assert(body_components(rest) == body_components(behind_first(rest)));
        assert(body_components(s) == body_components(behind_first(s)));
    }
}

/// What is joined to a path lies under it, unless it is from the root.
pub proof fn joined_lies_under(base: Seq<char>, rest: Seq<char>)
    requires
        base.len() > 0,
        !is_rooted(rest),
    ensures
        components_of(joined_text(base, rest)) == components_of(base) + body_components(rest),
        is_under(joined_text(base, rest), base),
{
    let whole = joined_text(base, rest);
    let slash = seq!['/'];
    assert(whole[0] == base[0]);
    assert(whole.take(1) =~= base.take(1));
    if base.last() == '/' {
        let front = base.drop_last();
        assert(base =~= front + slash + Seq::<char>::empty());
        assert(whole =~= front + slash + rest);
        assert(body_components(Seq::empty()) =~= Seq::empty());
        if base.len() == 1 {
            assert(whole.skip(1) =~= rest);
            assert(base.skip(1) =~= Seq::empty());
        } else {
            let inner = front.skip(1);
            assert(whole.skip(1) =~= inner + slash + rest);
            assert(base.skip(1) =~= inner + slash + Seq::<char>::empty());
            lemma_body_of_joined(inner, rest);
            lemma_body_of_joined(inner, Seq::empty());
            lemma_body_of_joined(front, rest);
            lemma_body_of_joined(front, Seq::empty());
            assert(whole[1] == base[1]);
        }
    } else {
        lemma_body_of_joined(base, rest);
        lemma_body_of_joined(base.skip(1), rest);
        assert(whole.skip(1) =~= base.skip(1) + slash + rest);
        assert(base.len() > 1 ==> whole[1] == base[1]);
        assert(whole[1] == '/' || base.len() > 1);
    }
    let all = components_of(whole);
    assert(all =~= components_of(base) + body_components(rest));
    assert(all.take(components_of(base).len() as int) =~= components_of(base));
}

proof fn lemma_body_behind_components(s: Seq<char>, count: int)
    requires
        0 <= count <= body_components(s).len(),
    ensures
        body_components(behind_components(s, count)) == body_components(s).skip(count),
    decreases s.len(),
{
    text::lemma_first_of(s, '/', '/');
    let all = body_components(s);
    if count <= 0 || s.len() == 0 {
        assert(all.skip(count) =~= all);
    } else if is_idle(first_piece(s)) {
        lemma_body_behind_components(behind_first(s), count);
    } else {
        let rest = body_components(behind_first(s));
        lemma_body_behind_components(behind_first(s), count - 1);
        assert(all.skip(count) =~= rest.skip(count - 1));
    }
}

proof fn lemma_body_without_idle_start(s: Seq<char>)
    ensures
        body_components(without_idle_start(s)) == body_components(s),
        without_idle_start(s).len() > 0 ==> !is_idle(first_piece(without_idle_start(s))),
    decreases s.len(),
{
    text::lemma_first_of(s, '/', '/');
    if s.len() > 0 && is_idle(first_piece(s)) {
        lemma_body_without_idle_start(behind_first(s));
    }
}

proof fn lemma_body_without_idle_end(s: Seq<char>)
    ensures
        body_components(without_idle_end(s)) == body_components(s),
        text::begins_with(s, without_idle_end(s)),
        without_idle_end(s).len() < s.len() ==> s[without_idle_end(s).len() as int] == '/'
            || without_idle_end(s).len() == 0,
    decreases s.len(),
{
    let kept = without_idle_end(s);
    let at = last_slash(s);
    lemma_last_slash(s);
    if s.len() == 0 || !is_idle(s.skip(at + 1)) {
        assert(s.take(s.len() as int) =~= s);
    } else {
        let last = s.skip(at + 1);
        text::lemma_first_of(last, '/', '/');
        assert(last.take(last.len() as int) =~= last);
        assert(text::first_of(last, '/', '/') == last.len()) by {
            let found = text::first_of(last, '/', '/');
            if found < last.len() {
                assert(last[found] == s[at + 1 + found]);
            }
        }
        assert(body_components(Seq::empty()) =~= Seq::empty());
        assert(body_components(last) =~= Seq::empty());
        if at < 0 {
            assert(last =~= s);
            assert(s.take(0) =~= Seq::empty());
        } else {
            let front = s.take(at);
            lemma_body_without_idle_end(front);
            assert(s =~= front + seq!['/'] + last);
            lemma_body_of_joined(front, last);
            assert(body_components(front) + body_components(last) =~= body_components(front));
            assert(s.take(kept.len() as int) =~= front.take(kept.len() as int));
        }
    }
}

/// What is left of a path behind its first components is the path of the components behind them.
/// It starts with the root or with `.` only where nothing was taken off a path that does.
pub proof fn stripped_path_has_the_rest(s: Seq<char>, count: int)
    requires
        0 <= count <= depth_of(s),
    ensures
        components_of(stripped_text(s, count)) == components_of(s).skip(count),
        has_start(stripped_text(s, count)) ==> count == 0 && has_start(s),
{
    let all = components_of(s);
    if has_start(s) && count == 0 {
        let body = s.skip(1);
        let kept = without_idle_end(body);
        let left = s.take(1) + kept;
        lemma_body_without_idle_end(body);
        assert(left.skip(1) =~= kept);
        assert(left.take(1) =~= s.take(1));
        assert(left[0] == s[0]);
        if kept.len() > 0 {
            assert(body.take(kept.len() as int)[0] == body[0]);
            assert(left[1] == s[1]);
        }
        assert(all.skip(0) =~= all);
    } else {
        let rest = if has_start(s) {
            behind_components(s.skip(1), count - 1)
        } else {
            behind_components(s, count)
        };
        if has_start(s) {
            lemma_body_behind_components(s.skip(1), count - 1);
            assert(all.skip(count) =~= body_components(s.skip(1)).skip(count - 1));
        } else {
            lemma_body_behind_components(s, count);
        }
        lemma_body_without_idle_start(rest);
        let begun = if count == 0 {
            s
        } else {
            without_idle_start(rest)
        };
        assert(begun.len() > 0 ==> !is_idle(first_piece(begun))) by {
            if count == 0 && s.len() > 0 {
                lemma_first_piece_counts(s);
            }
        }
        lemma_body_without_idle_end(begun);
        let left = without_idle_end(begun);
        if left.len() > 0 {
            assert(left[0] == begun[0]) by {
                assert(begun.take(left.len() as int)[0] == begun[0]);
            }
            if is_rooted(left) {
                text::lemma_first_of_is(begun, '/', '/', 0);
                assert(first_piece(begun) =~= Seq::empty());
            }
            if starts_here(left) {
                if left.len() > 1 {
                    assert(begun.take(left.len() as int)[1] == begun[1]);
                }
                text::lemma_first_of_is(begun, '/', '/', 1);
                assert(first_piece(begun) =~= seq!['.']);
            }
        }
    }
}

proof fn lemma_first_piece_counts(s: Seq<char>)
    requires
        s.len() > 0,
        !has_start(s),
    ensures
        !is_idle(first_piece(s)),
{
    text::lemma_first_of(s, '/', '/');
    let at = text::first_of(s, '/', '/');
    if is_idle(first_piece(s)) {
        assert(first_piece(s).len() == at);
        if at == 1 {
            assert(s[0] == first_piece(s)[0]);
        }
    }
}

/// Only the empty text has no components.
pub proof fn nonempty_path_has_components(s: Seq<char>)
    requires
        s.len() > 0,
    ensures
        depth_of(s) > 0,
{
    if !has_start(s) {
        lemma_first_piece_counts(s);
    }
}

/// What was joined to a path is what is left of the joined path behind the path.
pub proof fn joined_path_is_stripped_again(base: Seq<char>, rest: Seq<char>)
    requires
        base.len() > 0,
        !is_rooted(rest),
    ensures
        components_of(stripped_text(joined_text(base, rest), depth_of(base))) == body_components(
            rest,
        ),
{
    let whole = joined_text(base, rest);
    joined_lies_under(base, rest);
    let n = depth_of(base);
    assert(components_of(whole).skip(n) =~= body_components(rest));
    nonempty_path_has_components(base);
    stripped_path_has_the_rest(whole, n);
}

/// A path lies under another just where its components are those of the other and some more, or none.
pub proof fn paths_lie_under_their_beginnings(s: Seq<char>, base: Seq<char>)
    ensures
        is_under(s, base) <==> components_of(s).len() >= components_of(base).len() && forall|i: int|
            0 <= i < components_of(base).len() ==> #[trigger] components_of(base)[i]
                == components_of(s)[i],
        is_same(s, base) <==> is_under(s, base) && is_under(base, s),
        depth_of(s) == components_of(s).len(),
{
    let whole = components_of(s);
    let start = components_of(base);
    let n = start.len() as int;
    if is_under(s, base) {
        assert forall|i: int| 0 <= i < n implies #[trigger] start[i] == whole[i] by {
            assert(whole.take(n)[i] == whole[i]);
        }
    }
    if whole.len() >= n && forall|i: int| 0 <= i < n ==> #[trigger] start[i] == whole[i] {
        assert(whole.take(n) =~= start);
    }
    assert(whole.take(whole.len() as int) =~= whole);
    assert(start.take(n) =~= start);
}

/// The components of a text are what stands between its slashes, but for what is empty, and for each
/// `.` that does not start it; a slash at the start is a component of its own.
pub proof fn components_stand_between_slashes(piece: Seq<char>, rest: Seq<char>)
    requires
        forall|i: int| 0 <= i < piece.len() ==> piece[i] != '/',
    ensures
        body_components(Seq::empty()) == Seq::<Seq<char>>::empty(),
        piece.len() > 0 && piece != seq!['.'] ==> body_components(piece + seq!['/'] + rest)
            == seq![piece] + body_components(rest) && body_components(piece) == seq![piece],
        piece.len() == 0 || piece == seq!['.'] ==> body_components(piece + seq!['/'] + rest)
            == body_components(rest),
        components_of(seq!['/'] + rest) == seq![seq!['/']] + body_components(rest),
        rest.len() == 0 || rest[0] == '/' ==> components_of(seq!['.'] + rest) == seq![seq!['.']]
            + body_components(rest),
        piece.len() > 0 && piece != seq!['.'] ==> components_of(piece + seq!['/'] + rest) == seq![
            piece,
        ] + body_components(rest),
{
    let n = piece.len() as int;
    let whole = piece + seq!['/'] + rest;
    assert(forall|i: int| 0 <= i < n ==> whole[i] == piece[i]);
    assert(whole[n] == '/');
    text::lemma_first_of_is(whole, '/', '/', n);
    text::lemma_first_of_is(piece, '/', '/', n);
    assert(whole.take(n) =~= piece);
    assert(whole.skip(n + 1) =~= rest);
    assert(piece.take(n) =~= piece);
    assert(body_components(Seq::empty()) =~= Seq::empty());
    if n > 0 {
        assert(seq![piece] + Seq::<Seq<char>>::empty() =~= seq![piece]);
    }
    let rooted = seq!['/'] + rest;
    assert(rooted.skip(1) =~= rest);
    assert(rooted.take(1) =~= seq!['/']);
    let here = seq!['.'] + rest;
    assert(here.skip(1) =~= rest);
    assert(here.take(1) =~= seq!['.']);
    if n > 0 && piece != seq!['.'] {
        if whole[0] == '.' && whole[1] == '/' {
            assert(n == 1);
            assert(piece =~= seq!['.']);
        }
        assert(!has_start(whole));
    }
}

/// Joining puts a slash between two texts where there is none, and gives a path from the root as it is.
pub proof fn joining_puts_a_slash_between(base: Seq<char>, rest: Seq<char>)
    ensures
        rest.len() > 0 && rest[0] == '/' ==> joined_text(base, rest) == rest,
        joined_text(Seq::empty(), rest) == rest,
        (rest.len() == 0 || rest[0] != '/') && base.len() > 0 && base.last() != '/' ==> joined_text(
            base,
            rest,
        ) == base + seq!['/'] + rest,
        (rest.len() == 0 || rest[0] != '/') && base.len() > 0 && base.last() == '/' ==> joined_text(
            base,
            rest,
        ) == base + rest,
{
}

/// The final name of a path is its last component, unless that is the root, `.` or `..`.
pub proof fn final_names_are_names(components: Seq<Seq<char>>)
    ensures
        components.len() == 0 ==> final_name(components) is None,
        components.len() > 0 && components.last() != seq!['/'] && components.last() != seq!['.']
            && components.last() != seq!['.', '.'] ==> final_name(components) == Some(
            components.last(),
        ),
        components.len() > 0 && (components.last() == seq!['/'] || components.last() == seq!['.']
            || components.last() == seq!['.', '.']) ==> final_name(components) is None,
{
}

/// A path, held as its text.
pub struct TreePath {
    text: String,
}

impl View for TreePath {
    type V = Seq<char>;

    closed spec fn view(&self) -> Seq<char> {
        self.text@
    }
}

impl Clone for TreePath {
    fn clone(&self) -> (result: Self)
        ensures
            result@ == self@,
    {
        TreePath { text: self.text.clone() }
    }
}

fn starts_with_component(s: &str) -> (result: bool)
    ensures
        result == has_start(s@),
{
    let cs = chars_of(s);
    if cs.len() == 0 {
        return false;
    }
    cs[0] == '/' || (cs[0] == '.' && (cs.len() == 1 || cs[1] == '/'))
}

fn idle(piece: &str) -> (result: bool)
    ensures
        result == is_idle(piece@),
{
    proof {
        reveal_strlit(".");
        assert("."@ =~= seq!['.']);
    }
    piece.is_empty() || same(piece, ".")
}

/// What stands before the first slash, and what stands behind it.
fn split_first(s: &str) -> (result: (&str, &str))
    ensures
        result.0@ == first_piece(s@),
        result.1@ == behind_first(s@),
        s@.len() > 0 ==> result.1@.len() < s@.len(),
{
    let at = position_of(s, '/');
    let length = s.unicode_len();
    proof {
        text::lemma_first_of(s@, '/', '/');
    }
    let first = s.substring_char(0, at);
    assert(first@ =~= first_piece(s@));
    if at < length {
        let rest = s.substring_char(at + 1, length);
        assert(rest@ =~= behind_first(s@));
        (first, rest)
    } else {
        let rest = s.substring_char(length, length);
        assert(rest@ =~= behind_first(s@));
        (first, rest)
    }
}

fn skip_idle_start(s: &str) -> (result: &str)
    ensures
        result@ == without_idle_start(s@),
{
    let mut rest = s;
    while !rest.is_empty()
        invariant
            without_idle_start(rest@) == without_idle_start(s@),
        decreases rest@.len(),
    {
        let (first, behind) = split_first(rest);
        if !idle(first) {
            return rest;
        }
        rest = behind;
    }
    rest
}

fn skip_components(s: &str, count: usize) -> (result: &str)
    ensures
        result@ == behind_components(s@, count as int),
{
    let mut rest = s;
    let mut left: usize = count;
    while left > 0 && !rest.is_empty()
        invariant
            behind_components(rest@, left as int) == behind_components(s@, count as int),
        decreases rest@.len(),
    {
        let (first, behind) = split_first(rest);
        if !idle(first) {
            left = left - 1;
        }
        rest = behind;
    }
    rest
}

fn find_last_slash(s: &str) -> (result: Option<usize>)
    ensures
        match result {
            Some(at) => at < s@.len() && last_slash(s@) == at,
            None => last_slash(s@) == -1,
        },
{
    let cs = chars_of(s);
    let mut end: usize = cs.len();
    assert(s@.take(end as int) =~= s@);
    while end > 0 && cs[end - 1] != '/'
        invariant
            end <= cs.len(),
            cs@ == s@,
            last_slash(s@) == last_slash(s@.take(end as int)),
        decreases end,
    {
        assert(s@.take(end as int).last() == cs@[end - 1]);
        assert(s@.take(end as int).drop_last() =~= s@.take(end - 1));
        end = end - 1;
    }
    if end > 0 {
        assert(s@.take(end as int).last() == cs@[end - 1]);
        Some(end - 1)
    } else {
        None
    }
}

fn skip_idle_end(s: &str) -> (result: &str)
    ensures
        result@ == without_idle_end(s@),
{
    let mut rest = s;
    while !rest.is_empty()
        invariant
            without_idle_end(rest@) == without_idle_end(s@),
        decreases rest@.len(),
    {
        let length = rest.unicode_len();
        match find_last_slash(rest) {
            Some(at) => {
                let last = rest.substring_char(at + 1, length);
                assert(last@ =~= rest@.skip(at + 1));
                if !idle(last) {
                    return rest;
                }
                let kept = rest.substring_char(0, at);
                assert(kept@ =~= rest@.take(at as int));
                rest = kept;
            },
            None => {
                assert(rest@.skip(0) =~= rest@);
                if !idle(rest) {
                    return rest;
                }
                let kept = rest.substring_char(0, 0);
                assert(kept@ =~= Seq::empty());
                rest = kept;
            },
        }
    }
    rest
}

/// The components of the path that a text names.
pub fn components(s: &str) -> (result: Vec<String>)
    ensures
        text::strings(result@) == components_of(s@),
{
    let mut result: Vec<String> = Vec::new();
    let length = s.unicode_len();
    let mut rest = s;
    assert(text::strings(result@) =~= Seq::empty());
    if starts_with_component(s) {
        let start = s.substring_char(0, 1);
        assert(start@ =~= s@.take(1));
        result.push(start.to_owned());
        assert(text::strings(result@) =~= seq![s@.take(1)]);
        rest = s.substring_char(1, length);
        assert(rest@ =~= s@.skip(1));
    } else {
        assert(text::strings(result@) + body_components(rest@) =~= components_of(s@));
    }
    while !rest.is_empty()
        invariant
            text::strings(result@) + body_components(rest@) == components_of(s@),
        decreases rest@.len(),
    {
        let (first, behind) = split_first(rest);
        if !idle(first) {
            let ghost before = text::strings(result@);
            result.push(first.to_owned());
            assert(text::strings(result@) =~= before.push(first@));
            assert(before + (seq![first@] + body_components(behind@)) =~= text::strings(result@)
                + body_components(behind@));
        }
        rest = behind;
    }
    assert(text::strings(result@) + body_components(rest@) =~= text::strings(result@));
    result
}

fn same_components(a: &Vec<String>, b: &Vec<String>, count: usize) -> (result: bool)
    requires
        count <= a@.len(),
        count <= b@.len(),
    ensures
        result == (text::strings(a@).take(count as int) == text::strings(b@).take(count as int)),
{
    let ghost here = text::strings(a@);
    let ghost there = text::strings(b@);
    let mut i: usize = 0;
    while i < count
        invariant
            i <= count <= a@.len(),
            count <= b@.len(),
            here == text::strings(a@),
            there == text::strings(b@),
            forall|j: int| 0 <= j < i ==> here[j] == there[j],
        decreases count - i,
    {
        assert(here[i as int] == a@[i as int]@);
        assert(there[i as int] == b@[i as int]@);
        if a[i] != b[i] {
            assert(here.take(count as int)[i as int] != there.take(count as int)[i as int]);
            return false;
        }
        i = i + 1;
    }
    assert(here.take(count as int) =~= there.take(count as int));
    true
}

impl TreePath {
    /// The path that `text` names.
    pub fn parse(text: &str) -> (result: TreePath)
        ensures
            result@ == text@,
    {
        TreePath { text: text.to_owned() }
    }

    /// The text of this path.
    pub fn as_str(&self) -> (result: &str)
        ensures
            result@ == self@,
    {
        self.text.as_str()
    }

    /// A copy of the text of this path.
    pub fn to_text(&self) -> (result: String)
        ensures
            result@ == self@,
    {
        self.text.clone()
    }

    /// The components of this path.
    pub fn components(&self) -> (result: Vec<String>)
        ensures
            text::strings(result@) == components_of(self@),
    {
        components(self.text.as_str())
    }

    /// Whether this and `other` are the same path.
    pub fn same_path(&self, other: &TreePath) -> (result: bool)
        ensures
            result == is_same(self@, other@),
    {
        same_path_text(self.text.as_str(), other.text.as_str())
    }

    /// Whether this path is `base` or lies below it.
    pub fn starts_with(&self, base: &TreePath) -> (result: bool)
        ensures
            result == is_under(self@, base@),
    {
        let here = self.components();
        let there = base.components();
        let ghost whole = components_of(self@);
        let ghost start = components_of(base@);
        assert(whole.len() == here@.len());
        assert(start.len() == there@.len());
        if there.len() > here.len() {
            return false;
        }
        assert(start.take(start.len() as int) =~= start);
        same_components(&here, &there, there.len())
    }

    /// What is left of this path below `base`, where it lies under it.
    pub fn strip_prefix(&self, base: &TreePath) -> (result: Option<TreePath>)
        ensures
            match result {
                Some(rest) => is_under(self@, base@) && rest@ == stripped_text(
                    self@,
                    depth_of(base@),
                ),
                None => !is_under(self@, base@),
            },
    {
        if self.starts_with(base) {
            Some(self.behind(base.depth()))
        } else {
            None
        }
    }

    /// What is left of this path behind its first `count` components.
    fn behind(&self, count: usize) -> (result: TreePath)
        ensures
            result@ == stripped_text(self@, count as int),
    {
        let whole = self.text.as_str();
        let length = whole.unicode_len();
        let has_start = starts_with_component(whole);
        if !has_start {
            let rest = if count == 0 {
                whole
            } else {
                skip_idle_start(skip_components(whole, count))
            };
            return TreePath::parse(skip_idle_end(rest));
        }
        let start = whole.substring_char(0, 1);
        let body = whole.substring_char(1, length);
        assert(start@ =~= whole@.take(1));
        assert(body@ =~= whole@.skip(1));
        if count == 0 {
            TreePath { text: start.to_owned().concat(skip_idle_end(body)) }
        } else {
            TreePath::parse(skip_idle_end(skip_idle_start(skip_components(body, count - 1))))
        }
    }

    /// The path that `rest` names from this path on.
    pub fn join(&self, rest: &TreePath) -> (result: TreePath)
        ensures
            result@ == joined_text(self@, rest@),
    {
        TreePath { text: join_text(self.text.as_str(), rest.text.as_str()) }
    }

    /// The number of components.
    pub fn depth(&self) -> (result: usize)
        ensures
            result == depth_of(self@),
    {
        let found = self.components();
        assert(text::strings(found@).len() == found@.len());
        found.len()
    }

    /// The final component, where it is a name.
    pub fn file_name(&self) -> (result: Option<String>)
        ensures
            text::string_option(result) == final_name(components_of(self@)),
    {
        let found = self.components();
        name_of_last(&found, found.len())
    }

    /// The final component of the path without its own final component, where it is a name.
    pub fn parent_name(&self) -> (result: Option<String>)
        ensures
            text::string_option(result) == match parent_of(components_of(self@)) {
                Some(parent) => final_name(parent),
                None => None,
            },
    {
        let found = self.components();
        let ghost all = components_of(self@);
        assert(all.len() == found@.len());
        if found.len() == 0 {
            return None;
        }
        proof {
            reveal_strlit("/");
            assert("/"@ =~= root_component());
        }
        assert(all.last() == found@.last()@);
        if same(found[found.len() - 1].as_str(), "/") {
            return None;
        }
        assert(all.drop_last() =~= all.take(found@.len() - 1));
        name_of_last(&found, found.len() - 1)
    }
}

fn name_of_last(found: &Vec<String>, count: usize) -> (result: Option<String>)
    requires
        count <= found@.len(),
    ensures
        text::string_option(result) == final_name(text::strings(found@).take(count as int)),
{
    let ghost all = text::strings(found@).take(count as int);
    if count == 0 {
        return None;
    }
    assert(all.last() == found@[count - 1]@);
    let last = &found[count - 1];
    proof {
        reveal_strlit("/");
        reveal_strlit(".");
        reveal_strlit("..");
        assert("/"@ =~= root_component());
        assert("."@ =~= seq!['.']);
        assert(".."@ =~= seq!['.', '.']);
    }
    if same(last.as_str(), "/") || same(last.as_str(), ".") || same(last.as_str(), "..") {
        None
    } else {
        Some(last.clone())
    }
}

/// The text of the path that `rest` names from `base` on.
pub fn join_text(base: &str, rest: &str) -> (result: String)
    ensures
        result@ == joined_text(base@, rest@),
{
    let front = chars_of(base);
    let back = chars_of(rest);
    if back.len() > 0 && back[0] == '/' {
        return rest.to_owned();
    }
    if front.len() == 0 {
        return rest.to_owned();
    }
    if front[front.len() - 1] == '/' {
        return base.to_owned().concat(rest);
    }
    proof {
        reveal_strlit("/");
        assert("/"@ =~= seq!['/']);
    }
    base.to_owned().concat("/").concat(rest)
}

/// Whether two texts name the same path.
pub fn same_path_text(a: &str, b: &str) -> (result: bool)
    ensures
        result == is_same(a@, b@),
{
    let here = components(a);
    let there = components(b);
    let ghost left = components_of(a@);
    let ghost right = components_of(b@);
    assert(left.len() == here@.len());
    assert(right.len() == there@.len());
    if here.len() != there.len() {
        return false;
    }
    assert(left.take(left.len() as int) =~= left);
    assert(right.take(right.len() as int) =~= right);
    same_components(&here, &there, here.len())
}

} // verus!
