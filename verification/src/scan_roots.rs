//! Where to look for the files that `.worktreeinclude` selects: the directories that its patterns
//! are confined to.
use vstd::prelude::*;

use crate::path;
use crate::path::TreePath;
use crate::text;
use crate::text::{chars_of, contains, join, lines, same, split, starts_with, strip_prefix, trim};

verus! {

/// `s` without the slashes at its start.
pub open spec fn without_leading_slashes(s: Seq<char>) -> Seq<char>
    decreases s.len(),
{
    if s.len() > 0 && s[0] == '/' {
        without_leading_slashes(s.skip(1))
    } else {
        s
    }
}

/// The pattern of a line: without the white space at either end, without the escape of a first
/// `#` or `!`, and without slashes at its start.
pub open spec fn line_pattern(line: Seq<char>) -> Seq<char> {
    let pattern = text::trimmed(line);
    if pattern.len() == 0 || pattern[0] == '#' || pattern[0] == '!' {
        Seq::empty()
    } else if text::begins_with(pattern, "\\#"@) || text::begins_with(pattern, "\\!"@) {
        without_leading_slashes(pattern.skip(2))
    } else {
        without_leading_slashes(pattern)
    }
}

/// Whether a component of a pattern stands for more than itself.
pub open spec fn is_glob(component: Seq<char>) -> bool {
    exists|i: int|
        0 <= i < component.len() && (#[trigger] component[i] == '*' || component[i] == '?'
            || component[i] == '[' || component[i] == ']')
}

/// The number of components of a pattern before the first that stands for more than itself.
pub open spec fn literal_count(parts: Seq<Seq<char>>) -> int
    decreases parts.len(),
{
    if parts.len() == 0 || is_glob(parts[0]) {
        0
    } else {
        1 + literal_count(parts.skip(1))
    }
}

/// Whether a pattern leads out of the directory that it is confined to.
pub open spec fn leaves_root(pattern: Seq<char>) -> bool {
    text::pieces(pattern, '/', '/').contains(seq!['.', '.'])
}

/// Those of `parts` that are not empty.
pub open spec fn filled(parts: Seq<Seq<char>>) -> Seq<Seq<char>>
    decreases parts.len(),
{
    if parts.len() == 0 {
        Seq::empty()
    } else if parts.last().len() == 0 {
        filled(parts.drop_last())
    } else {
        filled(parts.drop_last()).push(parts.last())
    }
}

/// The text of the directory that a pattern is confined to. One without a slash matches at any
/// depth, and one with an escape is not looked into.
pub open spec fn pattern_root(pattern: Seq<char>) -> Seq<char> {
    if !text::holds_text(pattern, "/"@) || text::holds_text(pattern, "\\"@) {
        Seq::empty()
    } else {
        let parts = text::pieces(pattern, '/', '/');
        text::joined(filled(parts.take(literal_count(parts))), seq!['/'])
    }
}

/// The directories that the patterns of lines are confined to; none where one leads out.
pub open spec fn line_roots(lines: Seq<Seq<char>>) -> Option<Seq<Seq<char>>>
    decreases lines.len(),
{
    if lines.len() == 0 {
        Some(Seq::empty())
    } else {
        match line_roots(lines.drop_last()) {
            None => None,
            Some(roots) => {
                let pattern = line_pattern(lines.last());
                if pattern.len() == 0 {
                    Some(roots)
                } else if leaves_root(pattern) {
                    None
                } else {
                    Some(roots.push(pattern_root(pattern)))
                }
            },
        }
    }
}

/// Whether one directory is another or lies below it.
pub open spec fn lies_in(root: Seq<char>, other: Seq<char>) -> bool {
    path::lies_under(path::components_of(root), path::components_of(other))
}

/// How deep a directory is.
pub open spec fn depth_of(root: Seq<char>) -> int {
    path::components_of(root).len() as int
}

/// Whether a directory lies in one of `roots`.
pub open spec fn is_covered(root: Seq<char>, roots: Seq<Seq<char>>) -> bool {
    exists|i: int| 0 <= i < roots.len() && lies_in(root, #[trigger] roots[i])
}

/// `kept` with those of `roots` that are `depth` deep, in their order, but for those that lie in
/// one that is there already.
pub open spec fn with_depth(
    kept: Seq<Seq<char>>,
    roots: Seq<Seq<char>>,
    depth: int,
) -> Seq<Seq<char>>
    decreases roots.len(),
{
    if roots.len() == 0 {
        kept
    } else {
        let earlier = with_depth(kept, roots.drop_last(), depth);
        if depth_of(roots.last()) == depth && !is_covered(roots.last(), earlier) {
            earlier.push(roots.last())
        } else {
            earlier
        }
    }
}

/// Those of `roots` that are less than `depth` deep, the least deep first, but for those that lie
/// in another.
pub open spec fn outermost(roots: Seq<Seq<char>>, depth: int) -> Seq<Seq<char>>
    decreases depth,
{
    if depth <= 0 {
        Seq::empty()
    } else {
        with_depth(outermost(roots, depth - 1), roots, depth - 1)
    }
}

/// The depth of the deepest of `roots`.
pub open spec fn deepest(roots: Seq<Seq<char>>) -> int
    decreases roots.len(),
{
    if roots.len() == 0 {
        0
    } else if depth_of(roots.last()) > deepest(roots.drop_last()) {
        depth_of(roots.last())
    } else {
        deepest(roots.drop_last())
    }
}

/// The directories to look in for what a `.worktreeinclude` selects; none where a pattern leads
/// out.
pub open spec fn scan_roots(contents: Seq<char>) -> Option<Seq<Seq<char>>> {
    match line_roots(text::line_texts(contents)) {
        Some(roots) => Some(outermost(roots, deepest(roots) + 1)),
        None => None,
    }
}

/// No two of `roots` lie one in the other.
pub open spec fn is_disjoint(roots: Seq<Seq<char>>) -> bool {
    forall|i: int, j: int|
        0 <= i < roots.len() && 0 <= j < roots.len() && i != j ==> !lies_in(
            #[trigger] roots[i],
            #[trigger] roots[j],
        )
}

proof fn lemma_covered_by_more(root: Seq<char>, roots: Seq<Seq<char>>, added: Seq<char>)
    ensures
        is_covered(root, roots) ==> is_covered(root, roots.push(added)),
        lies_in(root, added) ==> is_covered(root, roots.push(added)),
{
    if is_covered(root, roots) {
        let i = choose|i: int| 0 <= i < roots.len() && lies_in(root, #[trigger] roots[i]);
        assert(roots.push(added)[i] == roots[i]);
    }
    assert(roots.push(added)[roots.len() as int] == added);
}

proof fn lemma_with_depth(kept: Seq<Seq<char>>, roots: Seq<Seq<char>>, depth: int)
    requires
        is_disjoint(kept),
        forall|i: int| 0 <= i < kept.len() ==> depth_of(#[trigger] kept[i]) < depth,
    ensures
        ({
            let after = with_depth(kept, roots, depth);
            &&& is_disjoint(after)
            &&& forall|i: int| 0 <= i < after.len() ==> depth_of(#[trigger] after[i]) <= depth
            &&& forall|i: int|
                0 <= i < after.len() ==> kept.contains(#[trigger] after[i]) || roots.contains(
                    after[i],
                )
            &&& forall|root: Seq<char>| is_covered(root, kept) ==> is_covered(root, after)
            &&& forall|i: int|
                0 <= i < roots.len() && depth_of(#[trigger] roots[i]) == depth ==> is_covered(
                    roots[i],
                    after,
                )
        }),
    decreases roots.len(),
{
    if roots.len() == 0 {
        assert forall|i: int| 0 <= i < kept.len() implies kept.contains(#[trigger] kept[i]) by {}
    } else {
        let rest = roots.drop_last();
        let last = roots.last();
        lemma_with_depth(kept, rest, depth);
        let earlier = with_depth(kept, rest, depth);
        let after = with_depth(kept, roots, depth);
        assert(roots[roots.len() - 1] == last);
        assert(lies_in(last, last)) by {
            let parts = path::components_of(last);
            assert(parts.take(parts.len() as int) =~= parts);
        }
        assert forall|root: Seq<char>| is_covered(root, earlier) implies is_covered(
            root,
            after,
        ) by {
            lemma_covered_by_more(root, earlier, last);
        }
        lemma_covered_by_more(last, earlier, last);
        assert forall|i: int| 0 <= i < after.len() implies kept.contains(#[trigger] after[i])
            || roots.contains(after[i]) by {
            if i < earlier.len() {
                assert(after[i] == earlier[i]);
                if rest.contains(earlier[i]) {
                    let k = choose|k: int| 0 <= k < rest.len() && rest[k] == earlier[i];
                    assert(roots[k] == earlier[i]);
                }
            }
        }
        assert forall|i: int|
            0 <= i < roots.len() && depth_of(#[trigger] roots[i]) == depth implies is_covered(
            roots[i],
            after,
        ) by {
            if i < rest.len() {
                assert(rest[i] == roots[i]);
            }
        }
        if depth_of(last) == depth && !is_covered(last, earlier) {
            assert forall|i: int, j: int|
                0 <= i < after.len() && 0 <= j < after.len() && i != j implies !lies_in(
                #[trigger] after[i],
                #[trigger] after[j],
            ) by {
                if i < earlier.len() && j < earlier.len() {
                    assert(after[i] == earlier[i] && after[j] == earlier[j]);
                } else if j < earlier.len() {
                    assert(after[j] == earlier[j]);
                } else {
                    assert(after[i] == earlier[i]);
                    if lies_in(earlier[i], last) {
                        let found = path::components_of(earlier[i]);
                        let wanted = path::components_of(last);
                        assert(found.len() == wanted.len());
                        assert(found.take(wanted.len() as int) =~= found);
                        assert(lies_in(last, earlier[i]));
                    }
                }
            }
        }
    }
}

proof fn lemma_outermost(roots: Seq<Seq<char>>, depth: int)
    ensures
        is_disjoint(outermost(roots, depth)),
        forall|i: int|
            0 <= i < outermost(roots, depth).len() ==> roots.contains(
                #[trigger] outermost(roots, depth)[i],
            ) && depth_of(outermost(roots, depth)[i]) < depth,
        forall|i: int|
            0 <= i < roots.len() && depth_of(#[trigger] roots[i]) < depth ==> is_covered(
                roots[i],
                outermost(roots, depth),
            ),
    decreases depth,
{
    if depth > 0 {
        lemma_outermost(roots, depth - 1);
        let earlier = outermost(roots, depth - 1);
        lemma_with_depth(earlier, roots, depth - 1);
        let after = outermost(roots, depth);
        assert forall|i: int| 0 <= i < after.len() implies roots.contains(#[trigger] after[i]) by {
            if earlier.contains(after[i]) {
                let k = choose|k: int| 0 <= k < earlier.len() && earlier[k] == after[i];
                assert(roots.contains(earlier[k]));
            }
        }
    }
}

proof fn lemma_deepest(roots: Seq<Seq<char>>, i: int)
    requires
        0 <= i < roots.len(),
    ensures
        depth_of(roots[i]) <= deepest(roots),
    decreases roots.len(),
{
    if i < roots.len() - 1 {
        lemma_deepest(roots.drop_last(), i);
    }
}

/// The directories that are looked in are disjoint, each is the directory of a pattern, and the
/// directory of every pattern lies in one of them: everything is found, and nothing twice.
pub proof fn scan_roots_cover_every_pattern(contents: Seq<char>)
    requires
        scan_roots(contents) is Some,
    ensures
        is_disjoint(scan_roots(contents)->0),
        forall|i: int|
            0 <= i < scan_roots(contents)->0.len() ==> (line_roots(
                text::line_texts(contents),
            )->0).contains(#[trigger] (scan_roots(contents)->0)[i]),
        forall|i: int|
            0 <= i < (line_roots(text::line_texts(contents))->0).len() ==> is_covered(
                #[trigger] (line_roots(text::line_texts(contents))->0)[i],
                scan_roots(contents)->0,
            ),
{
    let roots = line_roots(text::line_texts(contents))->0;
    lemma_outermost(roots, deepest(roots) + 1);
    assert forall|i: int| 0 <= i < roots.len() implies is_covered(
        #[trigger] roots[i],
        scan_roots(contents)->0,
    ) by {
        lemma_deepest(roots, i);
    }
}

/// The components of a single part, behind the start of a text, are the part itself or nothing.
proof fn lemma_body_of_part(part: Seq<char>)
    requires
        path::is_component(part),
    ensures
        path::body_components(part) == if path::is_idle(part) {
            Seq::empty()
        } else {
            seq![part]
        },
{
    text::lemma_first_of(part, '/', '/');
    assert(part.take(part.len() as int) =~= part);
    assert(path::body_components(Seq::empty()) =~= Seq::empty());
    assert(seq![part] + Seq::<Seq<char>>::empty() =~= seq![part]);
}

proof fn lemma_body_stays_inside(parts: Seq<Seq<char>>)
    requires
        stays_inside(parts),
    ensures
        stays_inside(path::body_components(text::joined(parts, seq!['/']))),
    decreases parts.len(),
{
    if parts.len() > 0 {
        let last = parts.last();
        assert(path::is_component(parts[parts.len() - 1]));
        lemma_body_of_part(last);
        if parts.len() > 1 {
            let rest = parts.drop_last();
            assert forall|i: int| 0 <= i < rest.len() implies path::is_component(
                #[trigger] rest[i],
            ) && rest[i] != seq!['.', '.'] by {
                assert(path::is_component(parts[i]));
            }
            lemma_body_stays_inside(rest);
            path::lemma_body_of_joined(text::joined(rest, seq!['/']), last);
        }
    }
}

proof fn lemma_literal_count(parts: Seq<Seq<char>>)
    ensures
        0 <= literal_count(parts) <= parts.len(),
    decreases parts.len(),
{
    if parts.len() > 0 {
        lemma_literal_count(parts.skip(1));
    }
}

proof fn lemma_filled(parts: Seq<Seq<char>>, i: int)
    requires
        0 <= i < filled(parts).len(),
    ensures
        parts.contains(filled(parts)[i]),
        filled(parts)[i].len() > 0,
    decreases parts.len(),
{
    let rest = parts.drop_last();
    if i < filled(rest).len() {
        lemma_filled(rest, i);
        let k = choose|k: int| 0 <= k < rest.len() && rest[k] == filled(parts)[i];
        assert(parts[k] == filled(parts)[i]);
    } else {
        assert(parts[parts.len() - 1] == filled(parts)[i]);
    }
}

/// Whether `parts` are components of a path none of which leads upward.
pub open spec fn stays_inside(parts: Seq<Seq<char>>) -> bool {
    forall|i: int|
        0 <= i < parts.len() ==> path::is_component(#[trigger] parts[i]) && parts[i] != seq![
            '.',
            '.',
        ]
}

/// Whether a text is that of a directory inside: it is made of parts that stay inside, with a
/// slash between each two.
pub open spec fn is_inside(root: Seq<char>) -> bool {
    exists|parts: Seq<Seq<char>>| #[trigger]
        stays_inside(parts) && root == text::joined(parts, seq!['/'])
}

proof fn lemma_pattern_root_is_inside(pattern: Seq<char>)
    requires
        !leaves_root(pattern),
    ensures
        is_inside(pattern_root(pattern)),
{
    let empty = Seq::<Seq<char>>::empty();
    assert(stays_inside(empty));
    assert(text::joined(empty, seq!['/']) =~= Seq::empty());
    let parts = text::pieces(pattern, '/', '/');
    lemma_literal_count(parts);
    let taken = parts.take(literal_count(parts));
    let kept = filled(taken);
    assert forall|i: int| 0 <= i < kept.len() implies path::is_component(#[trigger] kept[i])
        && kept[i] != seq!['.', '.'] by {
        lemma_filled(taken, i);
        let k = choose|k: int| 0 <= k < taken.len() && taken[k] == kept[i];
        assert(parts[k] == kept[i]);
        assert forall|j: int| 0 <= j < parts[k].len() implies #[trigger] parts[k][j] != '/' by {
            text::pieces_hold_no_separator(pattern, '/', '/', k, j);
        }
    }
    assert(stays_inside(kept));
}

proof fn lemma_line_roots_are_inside(lines: Seq<Seq<char>>, i: int)
    requires
        line_roots(lines) is Some,
        0 <= i < (line_roots(lines)->0).len(),
    ensures
        is_inside((line_roots(lines)->0)[i]),
    decreases lines.len(),
{
    let rest = line_roots(lines.drop_last())->0;
    let roots = line_roots(lines)->0;
    if i < rest.len() {
        assert(roots[i] == rest[i]);
        lemma_line_roots_are_inside(lines.drop_last(), i);
    } else {
        lemma_pattern_root_is_inside(line_pattern(lines.last()));
    }
}

/// No directory that is looked in leads upward or starts from the root.
pub proof fn scan_roots_stay_inside(contents: Seq<char>, i: int)
    requires
        scan_roots(contents) is Some,
        0 <= i < (scan_roots(contents)->0).len(),
    ensures
        is_inside((scan_roots(contents)->0)[i]),
        stays_inside(path::components_of((scan_roots(contents)->0)[i])),
{
    scan_roots_cover_every_pattern(contents);
    let roots = line_roots(text::line_texts(contents))->0;
    let root = (scan_roots(contents)->0)[i];
    let k = choose|k: int| 0 <= k < roots.len() && roots[k] == root;
    lemma_line_roots_are_inside(text::line_texts(contents), k);
    let parts = choose|parts: Seq<Seq<char>>| #[trigger]
        stays_inside(parts) && root == text::joined(parts, seq!['/']);
    lemma_inside_components(parts);
}

/// A text of parts that stay inside is not from the root, and its components are among its parts.
pub proof fn lemma_inside_components(parts: Seq<Seq<char>>)
    requires
        stays_inside(parts),
    ensures
        !path::is_rooted(text::joined(parts, seq!['/'])),
        stays_inside(path::components_of(text::joined(parts, seq!['/']))),
{
    let root = text::joined(parts, seq!['/']);
    lemma_inside_text(parts);
    lemma_body_stays_inside(parts);
    if path::starts_here(root) {
        path::lemma_body_behind_start(root);
        let found = path::components_of(root);
        assert(root.take(1) =~= seq!['.']);
        assert forall|i: int| 0 <= i < found.len() implies path::is_component(#[trigger] found[i])
            && found[i] != seq!['.', '.'] by {
            if i > 0 {
                assert(found[i] == path::body_components(root)[i - 1]);
            }
        }
    }
}

/// A text of parts that stay inside neither begins nor ends with a slash, and has no two in a row.
pub proof fn lemma_inside_text(parts: Seq<Seq<char>>)
    requires
        stays_inside(parts),
    ensures
        ({
            let root = text::joined(parts, seq!['/']);
            &&& parts.len() > 0 ==> root.len() > 0
            &&& root.len() > 0 ==> root[0] != '/' && root.last() != '/'
            &&& path::has_no_double_slash(root)
        }),
    decreases parts.len(),
{
    let root = text::joined(parts, seq!['/']);
    if parts.len() == 1 {
        assert(path::is_component(parts[0]));
    } else if parts.len() > 1 {
        let rest = parts.drop_last();
        assert forall|i: int| 0 <= i < rest.len() implies path::is_component(#[trigger] rest[i])
            && rest[i] != seq!['.', '.'] by {
            assert(path::is_component(parts[i]));
        }
        lemma_inside_text(rest);
        let before = text::joined(rest, seq!['/']);
        let last = parts.last();
        assert(path::is_component(parts[parts.len() - 1]));
        let n = before.len() as int;
        assert(forall|i: int| 0 <= i < n ==> root[i] == before[i]);
        assert(root[n] == '/');
        assert(forall|i: int| 0 <= i < last.len() ==> root[n + 1 + i] == last[i]);
        assert forall|i: int| 0 <= i < root.len() - 1 implies !(#[trigger] root[i] == '/' && root[i
            + 1] == '/') by {
            if i > n {
                assert(root[i] == last[i - n - 1]);
            } else if i < n - 1 {
                assert(root[i] == before[i] && root[i + 1] == before[i + 1]);
            } else if i == n {
                assert(root[i + 1] == last[0]);
            }
        }
    }
}

fn skip_leading_slashes(s: &str) -> (result: &str)
    ensures
        result@ == without_leading_slashes(s@),
{
    let cs = chars_of(s);
    let mut start: usize = 0;
    assert(s@.skip(0) =~= s@);
    while start < cs.len() && cs[start] == '/'
        invariant
            start <= cs.len(),
            cs@ == s@,
            without_leading_slashes(s@) == without_leading_slashes(s@.skip(start as int)),
        decreases cs.len() - start,
    {
        assert(s@.skip(start as int)[0] == '/');
        assert(s@.skip(start as int).skip(1) =~= s@.skip(start + 1));
        start = start + 1;
    }
    assert(start < cs.len() ==> s@.skip(start as int)[0] == cs@[start as int]);
    assert(s@.subrange(start as int, s@.len() as int) =~= s@.skip(start as int));
    s.substring_char(start, cs.len())
}

fn pattern_of(line: &str) -> (result: &str)
    ensures
        result@ == line_pattern(line@),
{
    let pattern = trim(line);
    proof {
        reveal_strlit("#");
        reveal_strlit("!");
        reveal_strlit("\\#");
        reveal_strlit("\\!");
        reveal_strlit("");
        assert(pattern@.len() > 0 ==> pattern@.take(1) =~= seq![pattern@[0]]);
        assert(pattern@.len() > 0 ==> pattern@.take(1)[0] == pattern@[0]);
        assert("#"@ =~= seq!['#']);
        assert("!"@ =~= seq!['!']);
    }
    if pattern.is_empty() || starts_with(pattern, "#") || starts_with(pattern, "!") {
        assert(""@ =~= Seq::<char>::empty());
        return "";
    }
    let unescaped = match strip_prefix(pattern, "\\#") {
        Some(rest) => rest,
        None => match strip_prefix(pattern, "\\!") {
            Some(rest) => rest,
            None => pattern,
        },
    };
    skip_leading_slashes(unescaped)
}

fn has_glob(component: &str) -> (result: bool)
    ensures
        result == is_glob(component@),
{
    let cs = chars_of(component);
    let mut i: usize = 0;
    while i < cs.len()
        invariant
            i <= cs.len(),
            cs@ == component@,
            forall|j: int|
                0 <= j < i ==> !(#[trigger] component@[j] == '*' || component@[j] == '?'
                    || component@[j] == '[' || component@[j] == ']'),
        decreases cs.len() - i,
    {
        let c = cs[i];
        if c == '*' || c == '?' || c == '[' || c == ']' {
            assert(component@[i as int] == c);
            return true;
        }
        i = i + 1;
    }
    false
}

fn has_upward_part(parts: &Vec<&str>) -> (result: bool)
    ensures
        result == text::texts(parts@).contains(seq!['.', '.']),
{
    proof {
        reveal_strlit("..");
        assert(".."@ =~= seq!['.', '.']);
    }
    let ghost all = text::texts(parts@);
    let mut i: usize = 0;
    while i < parts.len()
        invariant
            i <= parts.len(),
            ".."@ == seq!['.', '.'],
            all == text::texts(parts@),
            forall|j: int| 0 <= j < i ==> #[trigger] all[j] != seq!['.', '.'],
        decreases parts.len() - i,
    {
        assert(all[i as int] == parts@[i as int]@);
        if same(parts[i], "..") {
            return true;
        }
        i = i + 1;
    }
    false
}

fn root_of(pattern: &str, parts: &Vec<&str>) -> (result: String)
    requires
        text::texts(parts@) == text::pieces(pattern@, '/', '/'),
    ensures
        result@ == pattern_root(pattern@),
{
    if !contains(pattern, "/") || contains(pattern, "\\") {
        return String::new();
    }
    let ghost all = text::texts(parts@);
    let mut kept: Vec<String> = Vec::new();
    let mut count: usize = 0;
    assert(all.skip(0) =~= all);
    assert(all.take(0) =~= Seq::empty());
    assert(text::strings(kept@) =~= Seq::empty());
    while count < parts.len() && !has_glob(parts[count])
        invariant
            count <= parts.len(),
            all == text::texts(parts@),
            literal_count(all) == count + literal_count(all.skip(count as int)),
            text::strings(kept@) == filled(all.take(count as int)),
        decreases parts.len() - count,
    {
        let part = parts[count];
        assert(all.skip(count as int)[0] == part@);
        assert(all.skip(count as int).skip(1) =~= all.skip(count + 1));
        assert(all.take(count + 1).drop_last() =~= all.take(count as int));
        assert(all.take(count + 1).last() == part@);
        let ghost before = text::strings(kept@);
        if !part.is_empty() {
            kept.push(part.to_owned());
            assert(text::strings(kept@) =~= before.push(part@));
        }
        count = count + 1;
    }
    assert(count < parts.len() ==> all.skip(count as int)[0] == parts@[count as int]@);
    assert(literal_count(all) == count);
    proof {
        reveal_strlit("/");
        assert("/"@ =~= seq!['/']);
    }
    join(&kept, "/")
}

fn roots_of_lines(contents: &str) -> (result: Option<Vec<String>>)
    ensures
        match result {
            Some(roots) => line_roots(text::line_texts(contents@)) == Some(
                text::strings(roots@),
            ),
            None => line_roots(text::line_texts(contents@)) is None,
        },
{
    let listed = lines(contents);
    let ghost all = text::line_texts(contents@);
    let mut roots: Vec<String> = Vec::new();
    let mut i: usize = 0;
    assert(all.take(0) =~= Seq::empty());
    assert(text::strings(roots@) =~= Seq::empty());
    while i < listed.len()
        invariant
            i <= listed.len(),
            text::texts(listed@) == all,
            all == text::line_texts(contents@),
            line_roots(all.take(i as int)) == Some(text::strings(roots@)),
        decreases listed.len() - i,
    {
        let ghost now = all.take(i + 1);
        assert(now.drop_last() =~= all.take(i as int));
        assert(now.last() == listed@[i as int]@);
        let ghost before = text::strings(roots@);
        let pattern = pattern_of(listed[i]);
        if !pattern.is_empty() {
            let parts = split(pattern, '/', '/');
            if has_upward_part(&parts) {
                proof {
                    lemma_line_roots_fail(all, i + 1);
                }
                return None;
            }
            let root = root_of(pattern, &parts);
            roots.push(root);
            assert(text::strings(roots@) =~= before.push(root@));
        }
        i = i + 1;
    }
    assert(all.take(i as int) =~= all);
    Some(roots)
}

proof fn lemma_line_roots_fail(lines: Seq<Seq<char>>, n: int)
    requires
        0 <= n <= lines.len(),
        line_roots(lines.take(n)) is None,
    ensures
        line_roots(lines) is None,
    decreases lines.len(),
{
    if n < lines.len() {
        assert(lines.drop_last().take(n) =~= lines.take(n));
        lemma_line_roots_fail(lines.drop_last(), n);
    } else {
        assert(lines.take(n) =~= lines);
    }
}

/// A line without anything but white space, and one that begins with `#` or `!`, holds no pattern. Of
/// any other, the escape of a first `#` or `!` and the slashes at the start do not belong to it.
pub proof fn patterns_are_read_from_lines(line: Seq<char>, slashes: Seq<char>, rest: Seq<char>)
    requires
        forall|i: int| 0 <= i < slashes.len() ==> #[trigger] slashes[i] == '/',
        rest.len() > 0 ==> rest[0] != '/',
    ensures
        ({
            let pattern = text::trimmed(line);
            let escaped = text::begins_with(pattern, "\\#"@) || text::begins_with(
                pattern,
                "\\!"@,
            );
            &&& pattern.len() == 0 || pattern[0] == '#' || pattern[0] == '!' ==> line_pattern(
                line,
            ).len() == 0
            &&& pattern.len() > 0 && pattern[0] != '#' && pattern[0] != '!' && !escaped && pattern
                == slashes + rest ==> line_pattern(line) == rest
            &&& escaped && pattern.skip(2) == slashes + rest ==> line_pattern(line) == rest
        }),
{
    lemma_leading_slashes(slashes, rest);
    reveal_strlit("\\#");
    reveal_strlit("\\!");
    let pattern = text::trimmed(line);
    if text::begins_with(pattern, "\\#"@) {
        assert(pattern.take(2)[0] == '\\');
    }
    if text::begins_with(pattern, "\\!"@) {
        assert(pattern.take(2)[0] == '\\');
    }
}

proof fn lemma_leading_slashes(slashes: Seq<char>, rest: Seq<char>)
    requires
        forall|i: int| 0 <= i < slashes.len() ==> #[trigger] slashes[i] == '/',
        rest.len() > 0 ==> rest[0] != '/',
    ensures
        without_leading_slashes(slashes + rest) == rest,
    decreases slashes.len(),
{
    let whole = slashes + rest;
    if slashes.len() > 0 {
        let fewer = slashes.skip(1);
        assert(whole[0] == slashes[0]);
        assert forall|i: int| 0 <= i < fewer.len() implies #[trigger] fewer[i] == '/' by {
            assert(fewer[i] == slashes[i + 1]);
        }
        lemma_leading_slashes(fewer, rest);
        assert(whole.skip(1) =~= fewer + rest);
    } else {
        assert(whole =~= rest);
    }
}

/// Whether a character stands for more than itself in a pattern.
pub open spec fn is_glob_character(c: char) -> bool {
    c == '*' || c == '?' || c == '[' || c == ']'
}

/// A pattern of several parts is confined to the directory of those before the first part that stands
/// for more than itself. One of a single part, and one with a backslash, is confined to none.
pub proof fn patterns_are_confined_to_their_literal_parts(parts: Seq<Seq<char>>, k: int)
    requires
        parts.len() > 1,
        0 <= k <= parts.len(),
        forall|i: int|
            0 <= i < parts.len() ==> (#[trigger] parts[i]).len() > 0,
        forall|i: int, j: int|
            0 <= i < parts.len() && 0 <= j < parts[i].len() ==> (#[trigger] parts[i][j]) != '/'
                && parts[i][j] != '\\',
        forall|i: int, j: int|
            0 <= i < k && 0 <= j < parts[i].len() ==> !is_glob_character(#[trigger] parts[i][j]),
        k < parts.len() ==> exists|j: int|
            0 <= j < parts[k].len() && is_glob_character(#[trigger] parts[k][j]),
    ensures
        pattern_root(text::joined(parts, seq!['/'])) == text::joined(parts.take(k), seq!['/']),
        pattern_root(parts[0]) == Seq::<char>::empty(),
        pattern_root(text::joined(parts, seq!['/']) + seq!['\\']) == Seq::<char>::empty(),
{
    let pattern = text::joined(parts, seq!['/']);
    reveal_strlit("/");
    reveal_strlit("\\");
    assert forall|i: int, j: int|
        0 <= i < parts.len() && 0 <= j < parts[i].len() implies #[trigger] parts[i][j] != '/' by {}
    text::lemma_pieces_of_joined(parts, '/');
    lemma_joined_holds_no_backslash(parts);
    let front = text::joined(parts.drop_last(), seq!['/']);
    assert(pattern == front + seq!['/'] + parts.last());
    assert("/"@ =~= seq!['/']);
    assert("\\"@ =~= seq!['\\']);
    text::text_is_found_where_it_stands(pattern, "/"@, front, parts.last());
    assert(!text::holds_text(pattern, "\\"@)) by {
        if text::holds_text(pattern, "\\"@) {
            let at = choose|at: int| text::occurs_at(pattern, "\\"@, at);
            assert(pattern.subrange(at, at + 1)[0] == '\\');
            assert(pattern[at] == '\\');
        }
    }
    lemma_literal_count_is(parts, k);
    lemma_filled_is_all(parts.take(k));
    assert(!text::holds_text(parts[0], "/"@)) by {
        if text::holds_text(parts[0], "/"@) {
            let at = choose|at: int| text::occurs_at(parts[0], "/"@, at);
            assert(parts[0].subrange(at, at + 1)[0] == '/');
            assert(parts[0][at] == '/');
        }
    }
    let escaped = pattern + seq!['\\'];
    assert(escaped =~= pattern + "\\"@ + Seq::<char>::empty());
    text::text_is_found_where_it_stands(escaped, "\\"@, pattern, Seq::empty());
}

proof fn lemma_joined_holds_no_backslash(parts: Seq<Seq<char>>)
    requires
        forall|i: int, j: int|
            0 <= i < parts.len() && 0 <= j < parts[i].len() ==> (#[trigger] parts[i][j]) != '\\',
    ensures
        forall|i: int|
            0 <= i < text::joined(parts, seq!['/']).len() ==> #[trigger] text::joined(
                parts,
                seq!['/'],
            )[i] != '\\',
    decreases parts.len(),
{
    if parts.len() == 1 {
        assert(forall|j: int| 0 <= j < parts[0].len() ==> parts[0][j] != '\\');
    } else if parts.len() > 1 {
        let rest = parts.drop_last();
        assert forall|i: int, j: int|
            0 <= i < rest.len() && 0 <= j < rest[i].len() implies (#[trigger] rest[i][j])
            != '\\' by {
            assert(rest[i][j] == parts[i][j]);
        }
        lemma_joined_holds_no_backslash(rest);
        let front = text::joined(rest, seq!['/']);
        let whole = text::joined(parts, seq!['/']);
        let last = parts.last();
        assert forall|i: int| 0 <= i < whole.len() implies #[trigger] whole[i] != '\\' by {
            if i < front.len() {
                assert(whole[i] == front[i]);
            } else if i > front.len() {
                let j = i - front.len() - 1;
                assert(whole[i] == last[j]);
                assert(parts[parts.len() - 1][j] != '\\');
            }
        }
    }
}

proof fn lemma_literal_count_is(parts: Seq<Seq<char>>, k: int)
    requires
        0 <= k <= parts.len(),
        forall|i: int, j: int|
            0 <= i < k && 0 <= j < parts[i].len() ==> !is_glob_character(#[trigger] parts[i][j]),
        k < parts.len() ==> exists|j: int|
            0 <= j < parts[k].len() && is_glob_character(#[trigger] parts[k][j]),
    ensures
        literal_count(parts) == k,
    decreases k,
{
    if k > 0 {
        assert(!is_glob(parts[0])) by {
            if is_glob(parts[0]) {
                let j = choose|j: int|
                    0 <= j < parts[0].len() && (#[trigger] parts[0][j] == '*' || parts[0][j] == '?'
                        || parts[0][j] == '[' || parts[0][j] == ']');
                assert(!is_glob_character(parts[0][j]));
            }
        }
        let rest = parts.skip(1);
        assert forall|i: int, j: int|
            0 <= i < k - 1 && 0 <= j < rest[i].len() implies !is_glob_character(
            #[trigger] rest[i][j],
        ) by {
            assert(rest[i] == parts[i + 1]);
            assert(!is_glob_character(parts[i + 1][j]));
        }
        if k < parts.len() {
            assert(rest[k - 1] == parts[k]);
            let j = choose|j: int|
                0 <= j < parts[k].len() && is_glob_character(#[trigger] parts[k][j]);
            assert(is_glob_character(rest[k - 1][j]));
        }
        lemma_literal_count_is(rest, k - 1);
    } else if parts.len() > 0 {
        let j = choose|j: int|
            0 <= j < parts[0].len() && is_glob_character(#[trigger] parts[0][j]);
        assert(parts[0][j] == '*' || parts[0][j] == '?' || parts[0][j] == '[' || parts[0][j]
            == ']');
        assert(is_glob(parts[0]));
    }
}

proof fn lemma_filled_is_all(parts: Seq<Seq<char>>)
    requires
        forall|i: int| 0 <= i < parts.len() ==> (#[trigger] parts[i]).len() > 0,
    ensures
        filled(parts) == parts,
    decreases parts.len(),
{
    if parts.len() > 0 {
        let rest = parts.drop_last();
        assert(parts[parts.len() - 1].len() > 0);
        assert forall|i: int| 0 <= i < rest.len() implies (#[trigger] rest[i]).len() > 0 by {
            assert(rest[i] == parts[i]);
        }
        lemma_filled_is_all(rest);
        assert(rest.push(parts.last()) =~= parts);
    } else {
        assert(filled(parts) =~= parts);
    }
}

/// A file is refused just where a part of one of its patterns, between slashes, is `..`. Else each
/// line that holds a pattern gives the directory that the pattern is confined to.
pub proof fn upward_patterns_are_refused(lines: Seq<Seq<char>>)
    ensures
        line_roots(lines) is None <==> exists|i: int|
            0 <= i < lines.len() && text::pieces(line_pattern(#[trigger] lines[i]), '/', '/').contains(
                seq!['.', '.'],
            ),
        line_roots(lines) matches Some(roots) ==> forall|i: int|
            0 <= i < lines.len() && line_pattern(#[trigger] lines[i]).len() > 0 ==> roots.contains(
                pattern_root(line_pattern(lines[i])),
            ),
    decreases lines.len(),
{
    let leads_up = |line: Seq<char>|
        text::pieces(line_pattern(line), '/', '/').contains(seq!['.', '.']);
    if lines.len() > 0 {
        let rest = lines.drop_last();
        let last = lines.last();
        upward_patterns_are_refused(rest);
        assert(lines[lines.len() - 1] == last);
        let empty = Seq::<char>::empty();
        assert(!leads_up(last) || line_pattern(last).len() > 0) by {
            if line_pattern(last).len() == 0 {
                assert(line_pattern(last) =~= empty);
                let parts = text::pieces(empty, '/', '/');
                assert(parts =~= seq![empty]);
                assert(parts[0].len() == 0);
                if parts.contains(seq!['.', '.']) {
                    let i = choose|i: int| 0 <= i < parts.len() && parts[i] == seq!['.', '.'];
                    assert(parts[i].len() == 2);
                }
            }
        }
        if exists|i: int| 0 <= i < rest.len() && leads_up(#[trigger] rest[i]) {
            let i = choose|i: int| 0 <= i < rest.len() && leads_up(#[trigger] rest[i]);
            assert(lines[i] == rest[i]);
        }
        if exists|i: int| 0 <= i < lines.len() && leads_up(#[trigger] lines[i]) {
            let i = choose|i: int| 0 <= i < lines.len() && leads_up(#[trigger] lines[i]);
            if i < rest.len() {
                assert(lines[i] == rest[i]);
            }
        }
        if let Some(roots) = line_roots(lines) {
            let earlier = line_roots(rest)->0;
            assert forall|i: int|
                0 <= i < lines.len() && line_pattern(
                    #[trigger] lines[i],
                ).len() > 0 implies roots.contains(pattern_root(line_pattern(lines[i]))) by {
                let root = pattern_root(line_pattern(lines[i]));
                if i < rest.len() {
                    assert(rest[i] == lines[i]);
                    let k = choose|k: int| 0 <= k < earlier.len() && earlier[k] == root;
                    assert(roots[k] == root);
                } else {
                    assert(roots[earlier.len() as int] == root);
                }
            }
        }
    }
}

/// Everything is found, and nothing twice: the directory of every pattern is one of those that are
/// looked in or lies below one; none of these lies below another; and the less deep come first.
pub proof fn every_pattern_is_looked_for(contents: Seq<char>, line: int)
    requires
        scan_roots(contents) is Some,
        0 <= line < text::line_texts(contents).len(),
        line_pattern(text::line_texts(contents)[line]).len() > 0,
    ensures
        ({
            let roots = scan_roots(contents)->0;
            let wanted = pattern_root(line_pattern(text::line_texts(contents)[line]));
            &&& exists|i: int|
                0 <= i < roots.len() && path::is_under(wanted, #[trigger] roots[i])
            &&& forall|i: int, j: int|
                0 <= i < roots.len() && 0 <= j < roots.len() && i != j ==> !path::is_under(
                    #[trigger] roots[i],
                    #[trigger] roots[j],
                )
            &&& forall|i: int, j: int|
                0 <= i < j < roots.len() ==> path::depth_of(#[trigger] roots[i]) <= path::depth_of(
                    #[trigger] roots[j],
                )
        }),
{
    let listed = text::line_texts(contents);
    let all = line_roots(listed)->0;
    let roots = scan_roots(contents)->0;
    let wanted = pattern_root(line_pattern(listed[line]));
    upward_patterns_are_refused(listed);
    scan_roots_cover_every_pattern(contents);
    let k = choose|k: int| 0 <= k < all.len() && all[k] == wanted;
    assert(is_covered(all[k], roots));
    let i = choose|i: int| 0 <= i < roots.len() && lies_in(wanted, #[trigger] roots[i]);
    assert(path::is_under(wanted, roots[i]));
    assert forall|i: int, j: int|
        0 <= i < roots.len() && 0 <= j < roots.len() && i != j implies !path::is_under(
        #[trigger] roots[i],
        #[trigger] roots[j],
    ) by {
        assert(!lies_in(roots[i], roots[j]));
    }
    lemma_outermost_sorted(all, deepest(all) + 1);
}

proof fn lemma_outermost_sorted(roots: Seq<Seq<char>>, depth: int)
    ensures
        forall|i: int, j: int|
            0 <= i < j < outermost(roots, depth).len() ==> path::depth_of(
                #[trigger] outermost(roots, depth)[i],
            ) <= path::depth_of(#[trigger] outermost(roots, depth)[j]),
    decreases depth,
{
    if depth > 0 {
        lemma_outermost_sorted(roots, depth - 1);
        lemma_outermost(roots, depth - 1);
        lemma_with_depth_sorted(outermost(roots, depth - 1), roots, depth - 1);
    }
}

proof fn lemma_with_depth_sorted(kept: Seq<Seq<char>>, roots: Seq<Seq<char>>, depth: int)
    requires
        forall|i: int| 0 <= i < kept.len() ==> depth_of(#[trigger] kept[i]) < depth,
        forall|i: int, j: int|
            0 <= i < j < kept.len() ==> path::depth_of(#[trigger] kept[i]) <= path::depth_of(
                #[trigger] kept[j],
            ),
    ensures
        ({
            let after = with_depth(kept, roots, depth);
            &&& forall|i: int| 0 <= i < after.len() ==> depth_of(#[trigger] after[i]) <= depth
            &&& forall|i: int, j: int|
                0 <= i < j < after.len() ==> path::depth_of(#[trigger] after[i]) <= path::depth_of(
                    #[trigger] after[j],
                )
        }),
    decreases roots.len(),
{
    if roots.len() > 0 {
        let earlier = with_depth(kept, roots.drop_last(), depth);
        let after = with_depth(kept, roots, depth);
        lemma_with_depth_sorted(kept, roots.drop_last(), depth);
        assert forall|i: int, j: int| 0 <= i < j < after.len() implies path::depth_of(
            #[trigger] after[i],
        ) <= path::depth_of(#[trigger] after[j]) by {
            assert(after[i] == earlier[i]);
            assert(depth_of(earlier[i]) <= depth);
            if j < earlier.len() {
                assert(after[j] == earlier[j]);
            } else {
                assert(depth_of(after[j]) == depth);
            }
        }
        assert forall|i: int| 0 <= i < after.len() implies depth_of(#[trigger] after[i])
            <= depth by {
            if i < earlier.len() {
                assert(after[i] == earlier[i]);
            }
        }
    }
}

fn covered(root: &str, roots: &Vec<String>) -> (result: bool)
    ensures
        result == is_covered(root@, text::strings(roots@)),
{
    let ghost all = text::strings(roots@);
    let parsed = TreePath::parse(root);
    let mut i: usize = 0;
    while i < roots.len()
        invariant
            i <= roots.len(),
            all == text::strings(roots@),
            parsed@ == root@,
            forall|j: int| 0 <= j < i ==> !lies_in(root@, #[trigger] all[j]),
        decreases roots.len() - i,
    {
        assert(all[i as int] == roots@[i as int]@);
        if parsed.starts_with(&TreePath::parse(roots[i].as_str())) {
            return true;
        }
        i = i + 1;
    }
    false
}

/// The directories to look in for what a `.worktreeinclude` with these contents selects, each
/// relative to the worktree; or what to tell of a pattern that leads out of the worktree.
pub fn worktree_include_scan_roots(contents: &str) -> (result: Result<Vec<String>, String>)
    ensures
        match result {
            Ok(roots) => scan_roots(contents@) == Some(text::strings(roots@)),
            Err(message) => scan_roots(contents@) is None && message@
                == ".worktreeinclude patterns cannot leave the worktree root"@,
        },
{
    let roots = match roots_of_lines(contents) {
        Some(roots) => roots,
        None => {
            return Err(".worktreeinclude patterns cannot leave the worktree root".to_owned());
        },
    };
    let ghost all = text::strings(roots@);
    let mut max_depth: usize = 0;
    let mut i: usize = 0;
    assert(all.take(0) =~= Seq::empty());
    while i < roots.len()
        invariant
            i <= roots.len(),
            all == text::strings(roots@),
            max_depth == deepest(all.take(i as int)),
        decreases roots.len() - i,
    {
        assert(all.take(i + 1).drop_last() =~= all.take(i as int));
        assert(all.take(i + 1).last() == roots@[i as int]@);
        let depth = TreePath::parse(roots[i].as_str()).depth();
        if depth > max_depth {
            max_depth = depth;
        }
        i = i + 1;
    }
    assert(all.take(i as int) =~= all);
    let mut kept: Vec<String> = Vec::new();
    let mut depth: usize = 0;
    assert(text::strings(kept@) =~= Seq::empty());
    loop
        invariant_except_break
            depth <= max_depth,
            text::strings(kept@) == outermost(all, depth as int),
        invariant
            all == text::strings(roots@),
            max_depth == deepest(all),
        ensures
            text::strings(kept@) == outermost(all, deepest(all) + 1),
        decreases max_depth - depth,
    {
        let ghost earlier = outermost(all, depth as int);
        let mut j: usize = 0;
        assert(all.take(0) =~= Seq::empty());
        while j < roots.len()
            invariant
                j <= roots.len(),
                all == text::strings(roots@),
                text::strings(kept@) == with_depth(
                    earlier,
                    all.take(j as int),
                    depth as int,
                ),
            decreases roots.len() - j,
        {
            assert(all.take(j + 1).drop_last() =~= all.take(j as int));
            assert(all.take(j + 1).last() == roots@[j as int]@);
            let ghost before = text::strings(kept@);
            if TreePath::parse(roots[j].as_str()).depth() == depth && !covered(
                roots[j].as_str(),
                &kept,
            ) {
                kept.push(roots[j].clone());
                assert(text::strings(kept@) =~= before.push(roots@[j as int]@));
            }
            j = j + 1;
        }
        assert(all.take(j as int) =~= all);
        assert(outermost(all, depth + 1) == with_depth(earlier, all, depth as int));
        if depth == max_depth {
            break;
        }
        depth = depth + 1;
    }
    Ok(kept)
}

} // verus!
