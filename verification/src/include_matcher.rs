//! The patterns of a `.worktreeinclude`, and which files they select.
use ignore::gitignore::{Gitignore, GitignoreBuilder};
use vstd::prelude::*;

use crate::path;
use crate::text;
use crate::text::lines;

verus! {

/// The builder of a set of patterns, of the `ignore` crate.
#[verifier::external_type_specification]
#[verifier::external_body]
pub struct ExGitignoreBuilder(GitignoreBuilder);

/// A set of patterns, of the `ignore` crate.
#[verifier::external_type_specification]
#[verifier::external_body]
pub struct ExGitignore(Gitignore);

/// The directory that the patterns of a builder are for, without `./` at its start.
pub uninterp spec fn builder_root(builder: GitignoreBuilder) -> Seq<char>;

/// The patterns that were added to a builder, in their order.
pub uninterp spec fn builder_patterns(builder: GitignoreBuilder) -> Seq<Seq<char>>;

/// The directory of a set of patterns, as `Gitignore::path` gives it.
pub uninterp spec fn matcher_root(matcher: Gitignore) -> Seq<char>;

/// The patterns of a set, in their order.
pub uninterp spec fn matcher_patterns(matcher: Gitignore) -> Seq<Seq<char>>;

/// What `GitignoreBuilder::add_line` says of a line that it refuses.
pub uninterp spec fn line_error(line: Seq<char>) -> Option<Seq<char>>;

/// What `GitignoreBuilder::build` says of patterns that it cannot build a set from.
pub uninterp spec fn build_error(patterns: Seq<Seq<char>>) -> Option<Seq<char>>;

/// Whether `Gitignore::matched_path_or_any_parents` finds that a set of patterns in the directory
/// `root` selects a path, or one that it lies under.
pub uninterp spec fn selects(
    root: Seq<char>,
    patterns: Seq<Seq<char>>,
    path: Seq<char>,
    is_dir: bool,
) -> bool;

/// A directory without `./` at its start.
pub open spec fn without_current(root: Seq<char>) -> Seq<char> {
    if text::begins_with(root, "./"@) {
        root.skip(2)
    } else {
        root
    }
}

/// The pattern of a line: the line without the white space at its end, unless that is escaped.
pub open spec fn written_pattern(line: Seq<char>) -> Seq<char> {
    if line.len() >= 2 && line[line.len() - 2] == '\\' && line[line.len() - 1] == ' ' {
        line
    } else {
        text::trimmed_end(line)
    }
}

/// Whether a line holds a pattern: it is no comment, and not blank.
pub open spec fn holds_pattern(line: Seq<char>) -> bool {
    !(line.len() > 0 && line[0] == '#') && written_pattern(line).len() > 0
}

/// The patterns of lines, in their order.
pub open spec fn patterns_of(lines: Seq<Seq<char>>) -> Seq<Seq<char>>
    decreases lines.len(),
{
    if lines.len() == 0 {
        Seq::empty()
    } else if holds_pattern(lines.last()) {
        patterns_of(lines.drop_last()).push(written_pattern(lines.last()))
    } else {
        patterns_of(lines.drop_last())
    }
}

/// `GitignoreBuilder::new`: a builder without patterns for a directory, of which it leaves out a
/// `./` at the start.
#[verifier::external_body]
fn new_builder(root: &str) -> (result: GitignoreBuilder)
    ensures
        builder_root(result) == without_current(root@),
        builder_patterns(result) == Seq::<Seq<char>>::empty(),
{
    GitignoreBuilder::new(root)
}

/// `GitignoreBuilder::add_line`, with an error as its text. The pattern of the line is added; a
/// comment or a blank line adds nothing and is never refused, and a line that is refused adds
/// nothing. Whether a line is refused, and what is said of it, rests on the line alone. Of `from`,
/// the file that the line is in, nothing is said: the builder only keeps it beside the pattern.
#[verifier::external_body]
fn add_line(builder: &mut GitignoreBuilder, from: &str, line: &str) -> (result: Result<(), String>)
    ensures
        builder_root(*final(builder)) == builder_root(*old(builder)),
        builder_patterns(*final(builder)) == (if result is Ok && holds_pattern(line@) {
            builder_patterns(*old(builder)).push(written_pattern(line@))
        } else {
            builder_patterns(*old(builder))
        }),
        match result {
            Ok(_) => line_error(line@) is None,
            Err(message) => line_error(line@) == Some(message@),
        },
        !holds_pattern(line@) ==> result is Ok,
{
    match builder.add_line(Some(std::path::PathBuf::from(from)), line) {
        Ok(_) => Ok(()),
        Err(error) => Err(error.to_string()),
    }
}

/// `GitignoreBuilder::build`, with an error as its text: the set of the patterns that were added,
/// for the directory that the builder is for. Without patterns the set is for the empty path, and
/// can always be built; else whether it can be built rests on the patterns alone.
#[verifier::external_body]
fn build(builder: &GitignoreBuilder) -> (result: Result<Gitignore, String>)
    ensures
        match result {
            Ok(matcher) => build_error(builder_patterns(*builder)) is None && matcher_root(matcher)
                == (if builder_patterns(*builder).len() == 0 {
                Seq::empty()
            } else {
                builder_root(*builder)
            }) && matcher_patterns(matcher) == builder_patterns(*builder),
            Err(message) => build_error(builder_patterns(*builder)) == Some(message@),
        },
        builder_patterns(*builder).len() == 0 ==> result is Ok,
{
    match builder.build() {
        Ok(matcher) => Ok(matcher),
        Err(error) => Err(error.to_string()),
    }
}

/// Whether a text that begins with `root` goes on with another component there, or ends.
pub open spec fn ends_at_component(root: Seq<char>, s: Seq<char>) -> bool {
    root.len() == 0 || root.last() == '/' || s.len() == root.len() || s[root.len() as int] == '/'
}

/// Whether `Gitignore::matched_path_or_any_parents` can be asked for a path: one from the root has
/// to be the directory of the patterns or lie in it, and behind the directory there may be no two
/// slashes.
pub open spec fn can_be_asked(root: Seq<char>, path: Seq<char>) -> bool {
    let asked = without_current(path);
    &&& path::is_rooted(asked) ==> text::begins_with(asked, root) && ends_at_component(root, asked)
    &&& text::begins_with(asked, root) ==> !text::begins_with(
        asked.skip(root.len() as int),
        seq!['/', '/'],
    )
}

/// `Gitignore::matched_path_or_any_parents`, and `Match::is_ignore` of what it returns: whether
/// the patterns select the path, or one that it lies under. The contract names the result, and
/// says that a set without patterns selects nothing.
#[verifier::external_body]
fn matched(matcher: &Gitignore, path: &str, is_dir: bool) -> (result: bool)
    requires
        matcher_patterns(*matcher).len() > 0 ==> can_be_asked(matcher_root(*matcher), path@),
    ensures
        result == selects(matcher_root(*matcher), matcher_patterns(*matcher), path@, is_dir),
        matcher_patterns(*matcher).len() == 0 ==> !result,
{
    matcher.matched_path_or_any_parents(path, is_dir).is_ignore()
}

/// Whether the patterns of a `.worktreeinclude` in the directory `root` select a file. Without
/// patterns they select none.
pub open spec fn includes(
    root: Seq<char>,
    patterns: Seq<Seq<char>>,
    file: Seq<char>,
    is_dir: bool,
) -> bool {
    patterns.len() > 0 && selects(without_current(root), patterns, file, is_dir)
}

/// Whether the text of a file is one of a file in the directory `root`.
pub open spec fn is_within(root: Seq<char>, file: Seq<char>) -> bool {
    &&& text::begins_with(file, root)
    &&& ends_at_component(root, file)
    &&& path::has_no_double_slash(file.skip(root.len() as int))
    &&& root.len() == 0 ==> !path::is_rooted(file)
}

/// The patterns of a directory can be asked for every file in it.
proof fn lemma_file_can_be_asked(root: Seq<char>, file: Seq<char>)
    requires
        is_within(root, file),
    ensures
        can_be_asked(without_current(root), file),
{
    reveal_strlit("./");
    let here = "./"@;
    assert(here =~= seq!['.', '/']);
    let asked = without_current(file);
    let base = without_current(root);
    let rest = file.skip(root.len() as int);
    assert(file =~= root + rest) by {
        assert(file.take(root.len() as int) =~= root);
    }
    if text::begins_with(root, here) {
        assert(file.take(2) =~= root.take(2));
        assert(asked =~= base + rest);
    } else if text::begins_with(file, here) {
        assert(file.take(2)[0] == '.' && file.take(2)[1] == '/');
        if root.len() >= 2 {
            assert(root.take(2) =~= file.take(2));
        }
        assert(asked =~= file.skip(2));
        if path::is_rooted(asked) {
            let at = 1 - root.len();
            assert(rest[at] == '/' && rest[at + 1] == '/');
        }
    } else {
        assert(asked =~= base + rest);
    }
    if text::begins_with(asked, base) {
        let left = asked.skip(base.len() as int);
        if text::begins_with(left, seq!['/', '/']) {
            assert(left.take(2)[0] == '/' && left.take(2)[1] == '/');
            let at = file.len() - left.len() - root.len();
            assert(rest[at] == left[0] && rest[at + 1] == left[1]);
        }
    }
    if path::is_rooted(asked) {
        assert(asked.take(base.len() as int) =~= base);
    }
}

/// What is said of the first of `lines` that is refused.
pub open spec fn first_line_error(lines: Seq<Seq<char>>) -> Option<Seq<char>>
    decreases lines.len(),
{
    if lines.len() == 0 {
        None
    } else {
        match first_line_error(lines.drop_last()) {
            Some(message) => Some(message),
            None => line_error(lines.last()),
        }
    }
}

/// Why a `.worktreeinclude` gives no set of patterns.
pub open spec fn matcher_error(contents: Seq<char>) -> Option<Seq<char>> {
    let listed = text::line_texts(contents);
    match first_line_error(listed) {
        Some(message) => Some(message),
        None => build_error(patterns_of(listed)),
    }
}

proof fn lemma_first_line_error_stays(lines: Seq<Seq<char>>, n: int)
    requires
        0 <= n <= lines.len(),
        first_line_error(lines.take(n)) is Some,
    ensures
        first_line_error(lines) == first_line_error(lines.take(n)),
    decreases lines.len(),
{
    if n < lines.len() {
        assert(lines.drop_last().take(n) =~= lines.take(n));
        lemma_first_line_error_stays(lines.drop_last(), n);
    } else {
        assert(lines.take(n) =~= lines);
    }
}

/// The first line that is refused is told, and none where no line is.
pub proof fn first_refused_line_is_told(lines: Seq<Seq<char>>, at: int)
    requires
        0 <= at <= lines.len(),
        forall|i: int| 0 <= i < at ==> line_error(#[trigger] lines[i]) is None,
        at < lines.len() ==> line_error(lines[at]) is Some,
    ensures
        at < lines.len() ==> first_line_error(lines) == line_error(lines[at]),
        at == lines.len() ==> first_line_error(lines) is None,
    decreases lines.len(),
{
    if lines.len() > 0 {
        let rest = lines.drop_last();
        let n = if at < rest.len() {
            at
        } else {
            rest.len() as int
        };
        assert forall|i: int| 0 <= i < n implies line_error(#[trigger] rest[i]) is None by {
            assert(rest[i] == lines[i]);
        }
        if at < rest.len() {
            assert(rest[at] == lines[at]);
        }
        first_refused_line_is_told(rest, n);
        assert(lines[lines.len() - 1] == lines.last());
    }
}

/// The patterns of a file come in the order of its lines, each as it is written but for the white
/// space at its end. A comment is none, and neither is a blank line.
pub proof fn patterns_come_in_order(lines: Seq<Seq<char>>, line: Seq<char>)
    ensures
        patterns_of(Seq::empty()) == Seq::<Seq<char>>::empty(),
        line.len() > 0 && line[0] == '#' ==> patterns_of(lines.push(line)) == patterns_of(lines),
        text::trimmed_end(line).len() == 0 ==> patterns_of(lines.push(line)) == patterns_of(lines),
        line.len() > 0 && line[0] != '#' && !text::is_white_space(line.last()) ==> patterns_of(
            lines.push(line),
        ) == patterns_of(lines).push(line),
{
    assert(lines.push(line).drop_last() =~= lines);
    if line.len() >= 2 && line[line.len() - 2] == '\\' && line[line.len() - 1] == ' ' {
        let rest = line.drop_last();
        assert(rest.last() == '\\');
        assert(text::trimmed_end(rest) == rest);
        assert(text::trimmed_end(line) == text::trimmed_end(rest));
    }
}

/// What a file selects is what its patterns select in its directory; without patterns it selects
/// nothing. A file of which a line is refused, or whose patterns give no set, is told of.
pub proof fn files_select_by_their_patterns(
    root: Seq<char>,
    patterns: Seq<Seq<char>>,
    file: Seq<char>,
    is_dir: bool,
    contents: Seq<char>,
)
    ensures
        patterns.len() == 0 ==> !includes(root, patterns, file, is_dir),
        patterns.len() > 0 && !text::begins_with(root, "./"@) ==> (includes(
            root,
            patterns,
            file,
            is_dir,
        ) <==> selects(root, patterns, file, is_dir)),
        patterns.len() > 0 && text::begins_with(root, "./"@) ==> (includes(
            root,
            patterns,
            file,
            is_dir,
        ) <==> selects(root.skip(2), patterns, file, is_dir)),
        first_line_error(text::line_texts(contents)) matches Some(message) ==> matcher_error(
            contents,
        ) == Some(message),
        first_line_error(text::line_texts(contents)) is None ==> matcher_error(contents)
            == build_error(patterns_of(text::line_texts(contents))),
{
}

/// The patterns of a `.worktreeinclude`.
pub struct IncludeMatcher {
    matcher: Gitignore,
    root: Ghost<Seq<char>>,
}

impl IncludeMatcher {
    /// The directory that the file is in.
    pub closed spec fn root(&self) -> Seq<char> {
        self.root@
    }

    /// The patterns of the file.
    pub closed spec fn patterns(&self) -> Seq<Seq<char>> {
        matcher_patterns(self.matcher)
    }

    /// The set of patterns is for the directory that the file is in.
    pub closed spec fn well_formed(&self) -> bool {
        matcher_root(self.matcher) == (if self.patterns().len() == 0 {
            Seq::empty()
        } else {
            without_current(self.root())
        })
    }

    /// The patterns of the file `include_path`, which holds `contents`.
    pub fn build_worktree_include_matcher(
        source_root: &str,
        include_path: &str,
        contents: &str,
    ) -> (result: Result<IncludeMatcher, String>)
        ensures
            match result {
                Ok(matcher) => matcher_error(contents@) is None && matcher.root() == source_root@
                    && matcher.patterns() == patterns_of(text::line_texts(contents@))
                    && matcher.well_formed(),
                Err(message) => matcher_error(contents@) == Some(message@),
            },
    {
        let mut builder = new_builder(source_root);
        let listed = lines(contents);
        let ghost all = text::line_texts(contents@);
        let mut i: usize = 0;
        assert(all.take(0) =~= Seq::empty());
        while i < listed.len()
            invariant
                i <= listed.len(),
                text::texts(listed@) == all,
                all == text::line_texts(contents@),
                builder_root(builder) == without_current(source_root@),
                builder_patterns(builder) == patterns_of(all.take(i as int)),
                first_line_error(all.take(i as int)) is None,
            decreases listed.len() - i,
        {
            assert(all[i as int] == listed@[i as int]@);
            assert(all.take(i + 1).drop_last() =~= all.take(i as int));
            assert(all.take(i + 1).last() == all[i as int]);
            match add_line(&mut builder, include_path, listed[i]) {
                Ok(_) => {},
                Err(message) => {
                    proof {
                        assert(first_line_error(all.take(i + 1)) == Some(message@));
                        lemma_first_line_error_stays(all, i + 1);
                    }
                    return Err(message);
                },
            }
            i = i + 1;
        }
        assert(all.take(i as int) =~= all);
        match build(&builder) {
            Ok(matcher) => Ok(IncludeMatcher { matcher, root: Ghost(source_root@) }),
            Err(message) => Err(message),
        }
    }

    /// Whether the patterns select a file of their directory.
    pub fn selects(&self, file: &str, is_dir: bool) -> (result: bool)
        requires
            self.well_formed(),
            is_within(self.root(), file@),
        ensures
            result == includes(self.root(), self.patterns(), file@, is_dir),
    {
        proof {
            lemma_file_can_be_asked(self.root(), file@);
        }
        matched(&self.matcher, file, is_dir)
    }
}

} // verus!
