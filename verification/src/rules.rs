//! The `[keep]` rules: which flagged directories to renew.
use crate::text;
use ignore::gitignore::{Gitignore, GitignoreBuilder};
use vstd::prelude::*;
use vstd::string::*;

verus! {

/// `ignore::gitignore::GitignoreBuilder`: the globs of a matcher to be.
#[verifier::external_type_specification]
#[verifier::external_body]
pub struct ExGitignoreBuilder(ignore::gitignore::GitignoreBuilder);

/// `ignore::gitignore::Gitignore`: a matcher over globs.
#[verifier::external_type_specification]
#[verifier::external_body]
pub struct ExGitignore(ignore::gitignore::Gitignore);

/// The globs that a builder holds, as they were written, in order.
pub uninterp spec fn builder_globs(builder: GitignoreBuilder) -> Seq<Seq<char>>;

/// The path that a builder was made with: globs match relative to it.
pub uninterp spec fn builder_root(builder: GitignoreBuilder) -> Seq<char>;

/// The globs that a matcher holds, as they were written, in order.
pub uninterp spec fn matcher_globs(matcher: Gitignore) -> Seq<Seq<char>>;

/// The path that a matcher was made with, where it holds a glob.
pub uninterp spec fn matcher_root(matcher: Gitignore) -> Seq<char>;

/// Whether `GitignoreBuilder::add_line` can parse a line as a glob.
pub uninterp spec fn glob_parses(line: Seq<char>) -> bool;

/// Whether `GitignoreBuilder::build` can compile these globs into one matcher.
pub uninterp spec fn globs_compile(globs: Seq<Seq<char>>) -> bool;

/// What `Gitignore::matched_path_or_any_parents` says of a path: the glob that
/// decides ignores it (`Some(true)`), the glob that decides is a `!` exception
/// (`Some(false)`), or no glob matches (`None`).
pub uninterp spec fn glob_verdict(
    root: Seq<char>,
    globs: Seq<Seq<char>>,
    path: Seq<char>,
    is_dir: bool,
) -> Option<bool>;

/// What a line of a gitignore file says, without the white space that does not
/// count: all that trails, unless the line ends in an escaped blank.
pub open spec fn glob_text(line: Seq<char>) -> Seq<char> {
    if "\\ "@.is_suffix_of(line) {
        line
    } else {
        text::trimmed_end(line)
    }
}

/// Whether a line of a gitignore file holds no glob.
pub open spec fn is_comment(line: Seq<char>) -> bool {
    "#"@.is_prefix_of(line) || glob_text(line).len() == 0
}

/// The globs of a gitignore file with these lines: comments and blank lines hold
/// none, and a line that does not parse is passed over.
pub open spec fn globs_in(lines: Seq<Seq<char>>) -> Seq<Seq<char>>
    decreases lines.len(),
{
    if lines.len() == 0 {
        Seq::empty()
    } else {
        let before = globs_in(lines.drop_last());
        let line = lines.last();
        if is_comment(line) || !glob_parses(line) {
            before
        } else {
            before.push(glob_text(line))
        }
    }
}

/// The globs that a rule list comes to: those of its lines, or none where they
/// cannot be compiled.
pub open spec fn compiled(lines: Seq<Seq<char>>) -> Seq<Seq<char>> {
    if globs_compile(globs_in(lines)) {
        globs_in(lines)
    } else {
        Seq::empty()
    }
}

/// Whether a path can be placed under the root directory: not where it is still
/// rooted once a leading `./` and two slashes are gone.
pub open spec fn under_root(path: Seq<char>) -> bool {
    !"///"@.is_prefix_of(path) && !".////"@.is_prefix_of(path)
}

/// Calls `GitignoreBuilder::new`: a builder for globs relative to `root`, without
/// globs.
#[verifier::external_body]
fn new_builder(root: &str) -> (builder: GitignoreBuilder)
    requires
        !"./"@.is_prefix_of(root@),
    ensures
        builder_globs(builder) == Seq::<Seq<char>>::empty(),
        builder_root(builder) == root@,
{
    GitignoreBuilder::new(root)
}

/// Calls `GitignoreBuilder::add_line` with a line that comes from no file. A
/// comment or a blank line is accepted and adds nothing; another line adds its
/// glob, or is refused and adds nothing.
#[verifier::external_body]
fn add_line(builder: &mut GitignoreBuilder, line: &str) -> (accepted: bool)
    ensures
        accepted == (is_comment(line@) || glob_parses(line@)),
        builder_globs(*final(builder)) == if is_comment(line@) || !glob_parses(line@) {
            builder_globs(*old(builder))
        } else {
            builder_globs(*old(builder)).push(glob_text(line@))
        },
        builder_root(*final(builder)) == builder_root(*old(builder)),
{
    builder.add_line(None, line).is_ok()
}

/// Calls `GitignoreBuilder::build`: a matcher over the builder's globs, where they
/// compile. A builder without globs always builds.
#[verifier::external_body]
fn build_matcher(builder: &GitignoreBuilder) -> (matcher: Option<Gitignore>)
    ensures
        matcher is Some <==> builder_globs(*builder).len() == 0 || globs_compile(
            builder_globs(*builder),
        ),
        matcher is Some ==> matcher_globs(matcher->0) == builder_globs(*builder),
        matcher is Some && builder_globs(*builder).len() > 0 ==> matcher_root(matcher->0)
            == builder_root(*builder),
{
    builder.build().ok()
}

/// Calls `Gitignore::matched_path_or_any_parents`, which looks at the path, then
/// at each of its parents, and takes the last glob that matches the first of them
/// that any glob matches. A matcher without globs matches nothing. It panics on a
/// path that is not under the matcher's root.
#[verifier::external_body]
fn match_path(matcher: &Gitignore, path: &str, is_dir: bool) -> (verdict: Option<bool>)
    requires
        matcher_globs(*matcher).len() > 0 ==> matcher_root(*matcher) == "/"@ && under_root(path@),
    ensures
        matcher_globs(*matcher).len() == 0 ==> verdict is None,
        matcher_globs(*matcher).len() > 0 ==> verdict == glob_verdict(
            matcher_root(*matcher),
            matcher_globs(*matcher),
            path@,
            is_dir,
        ),
{
    match matcher.matched_path_or_any_parents(path, is_dir) {
        ignore::Match::None => None,
        ignore::Match::Ignore(_) => Some(true),
        ignore::Match::Whitelist(_) => Some(false),
    }
}

/// The directories to renew: those that the `include` globs name and the
/// `exclude` globs do not. Each list is read as a gitignore file at the root
/// directory: the last glob that matches decides, and a leading `!` makes an
/// exception.
#[derive(Debug)]
pub struct KeepRules {
    included: Gitignore,
    excluded: Gitignore,
}

/// What a rule list says of a directory.
pub open spec fn list_verdict(globs: Seq<Seq<char>>, dir: Seq<char>) -> Option<bool> {
    if globs.len() == 0 {
        None
    } else {
        glob_verdict("/"@, globs, dir, true)
    }
}

/// Whether these verdicts of the two rule lists keep a directory.
pub open spec fn kept_by(included: Option<bool>, excluded: Option<bool>) -> bool {
    included == Some(true) && excluded != Some(true)
}

impl KeepRules {
    /// The globs that name the directories to renew.
    pub closed spec fn include_globs(self) -> Seq<Seq<char>> {
        matcher_globs(self.included)
    }

    /// The globs that carve directories out again.
    pub closed spec fn exclude_globs(self) -> Seq<Seq<char>> {
        matcher_globs(self.excluded)
    }

    /// Both lists match relative to the root directory.
    #[verifier::type_invariant]
    closed spec fn rooted(self) -> bool {
        &&& matcher_globs(self.included).len() > 0 ==> matcher_root(self.included) == "/"@
        &&& matcher_globs(self.excluded).len() > 0 ==> matcher_root(self.excluded) == "/"@
    }

    /// Whether the rules keep `dir`.
    pub open spec fn keeps(self, dir: Seq<char>) -> bool {
        under_root(dir) && kept_by(
            list_verdict(self.include_globs(), dir),
            list_verdict(self.exclude_globs(), dir),
        )
    }

    /// The rules with these lists. A line that is no glob is passed over.
    pub fn new(included: &[String], excluded: &[String]) -> (r: KeepRules)
        ensures
            r.include_globs() == compiled(included.deep_view()),
            r.exclude_globs() == compiled(excluded.deep_view()),
    {
        KeepRules { included: compile(included), excluded: compile(excluded) }
    }

    /// Whether the rules keep the directory `dir`. A path that cannot be placed
    /// under the root directory is never kept.
    pub fn matches(&self, dir: &str) -> (r: bool)
        ensures
            r == self.keeps(dir@),
    {
        proof {
            use_type_invariant(self);
        }
        if text::has_prefix(dir, "///") || text::has_prefix(dir, ".////") {
            return false;
        }
        keep_verdict(match_path(&self.included, dir, true), match_path(&self.excluded, dir, true))
    }
}

/// Whether these verdicts of the two rule lists keep a directory: included, and
/// not carved out again.
pub fn keep_verdict(included: Option<bool>, excluded: Option<bool>) -> (r: bool)
    ensures
        r == kept_by(included, excluded),
{
    match (included, excluded) {
        (Some(true), Some(true)) => false,
        (Some(true), _) => true,
        _ => false,
    }
}

/// Compiles a rule list into a matcher relative to the root directory.
fn compile(lines: &[String]) -> (matcher: Gitignore)
    ensures
        matcher_globs(matcher) == compiled(lines.deep_view()),
        matcher_globs(matcher).len() > 0 ==> matcher_root(matcher) == "/"@,
{
    proof {
        reveal_strlit("/");
        reveal_strlit("./");
    }
    let mut builder = new_builder("/");
    let ghost all = lines.deep_view();
    let mut i: usize = 0;
    assert(builder_globs(builder) =~= globs_in(all.take(0)));
    while i < lines.len()
        invariant
            all == lines.deep_view(),
            i <= all.len(),
            builder_globs(builder) == globs_in(all.take(i as int)),
            builder_root(builder) == "/"@,
        decreases all.len() - i,
    {
        assert(all.take(i + 1).drop_last() =~= all.take(i as int));
        assert(all.take(i + 1).last() == lines@[i as int]@);
        let _ = add_line(&mut builder, lines[i].as_str());
        i = i + 1;
    }
    assert(all.take(all.len() as int) =~= all);
    match build_matcher(&builder) {
        Some(matcher) => {
            assert(matcher_globs(matcher) =~= compiled(all));
            matcher
        },
        None => {
            let empty = new_builder("/");
            build_matcher(&empty).unwrap()
        },
    }
}

/// A directory that the `exclude` list names is never kept.
pub proof fn excluded_is_never_kept(rules: KeepRules, dir: Seq<char>)
    requires
        list_verdict(rules.exclude_globs(), dir) == Some(true),
    ensures
        !rules.keeps(dir),
{
}

/// Rules without an `include` glob keep nothing.
pub proof fn no_include_keeps_nothing(rules: KeepRules, dir: Seq<char>)
    requires
        rules.include_globs().len() == 0,
    ensures
        !rules.keeps(dir),
{
}

/// The globs of a rule list stand in the order of its lines: those of lines `a`
/// followed by lines `b` are those of `a` followed by those of `b`.
pub proof fn globs_stand_in_order(a: Seq<Seq<char>>, b: Seq<Seq<char>>)
    ensures
        globs_in(a + b) == globs_in(a) + globs_in(b),
    decreases b.len(),
{
    if b.len() == 0 {
        assert(a + b =~= a);
        assert(globs_in(a) + globs_in(b) =~= globs_in(a));
    } else {
        globs_stand_in_order(a, b.drop_last());
        assert((a + b).drop_last() =~= a + b.drop_last());
        assert(globs_in(a + b) =~= globs_in(a) + globs_in(b));
    }
}

/// A line that holds a glob gives that glob, and any other line gives none.
pub proof fn a_line_gives_its_glob(line: Seq<char>)
    ensures
        !is_comment(line) && glob_parses(line) ==> globs_in(seq![line]) == seq![glob_text(line)],
        is_comment(line) || !glob_parses(line) ==> globs_in(seq![line]).len() == 0,
{
    assert(seq![line].drop_last() =~= Seq::<Seq<char>>::empty());
    assert(globs_in(seq![line].drop_last()) =~= Seq::<Seq<char>>::empty());
    assert(seq![line].last() == line);
    assert(Seq::<Seq<char>>::empty().push(glob_text(line)) =~= seq![glob_text(line)]);
}

/// A rule list comes to the lines that hold a glob and parse, each without the white
/// space that does not count, in the order in which they were written; where these
/// cannot be compiled together, it comes to nothing.
pub proof fn rule_lists_keep_their_lines(lines: Seq<Seq<char>>)
    ensures
        ({
            let globs = lines.filter(
                |l: Seq<char>| !is_comment(l) && glob_parses(l),
            ).map_values(|l: Seq<char>| glob_text(l));
            &&& globs_compile(globs) ==> compiled(lines) == globs
            &&& !globs_compile(globs) ==> compiled(lines).len() == 0
        }),
{
    lemma_globs_are_filtered(lines);
}

/// The globs are those of the lines that hold one.
proof fn lemma_globs_are_filtered(lines: Seq<Seq<char>>)
    ensures
        globs_in(lines) == lines.filter(
            |l: Seq<char>| !is_comment(l) && glob_parses(l),
        ).map_values(|l: Seq<char>| glob_text(l)),
    decreases lines.len(),
{
    reveal(Seq::filter);
    if lines.len() > 0 {
        lemma_globs_are_filtered(lines.drop_last());
    }
    assert(globs_in(lines) =~= lines.filter(
        |l: Seq<char>| !is_comment(l) && glob_parses(l),
    ).map_values(|l: Seq<char>| glob_text(l)));
}

/// Where line `i` stands before line `j` and both hold a glob, the glob of line `i`
/// stands before the glob of line `j`.
pub proof fn earlier_lines_give_earlier_globs(lines: Seq<Seq<char>>, i: int, j: int)
    requires
        0 <= i < j < lines.len(),
        !is_comment(lines[i]) && glob_parses(lines[i]),
        !is_comment(lines[j]) && glob_parses(lines[j]),
    ensures
        exists|p: int, q: int|
            0 <= p < q < globs_in(lines).len() && #[trigger] globs_in(lines)[p] == glob_text(
                lines[i],
            ) && #[trigger] globs_in(lines)[q] == glob_text(lines[j]),
{
    let p = lemma_glob_stands_after(lines.take(j), i);
    let q = lemma_glob_stands_after(lines, j);
    let front = globs_in(lines.take(j));
    globs_stand_in_order(lines.take(j), lines.skip(j));
    assert(lines.take(j) + lines.skip(j) =~= lines);
    assert(lines.take(j)[i] == lines[i]);
    assert(globs_in(lines)[p] == front[p]);
    assert(globs_in(lines)[p] == glob_text(lines[i]));
    assert(globs_in(lines)[q] == glob_text(lines[j]));
}

/// The glob of a line stands right behind those of the lines before it.
proof fn lemma_glob_stands_after(lines: Seq<Seq<char>>, i: int) -> (p: int)
    requires
        0 <= i < lines.len(),
        !is_comment(lines[i]) && glob_parses(lines[i]),
    ensures
        p == globs_in(lines.take(i)).len(),
        0 <= p < globs_in(lines).len(),
        globs_in(lines)[p] == glob_text(lines[i]),
{
    let front = lines.take(i);
    let line = seq![lines[i]];
    let back = lines.skip(i + 1);
    globs_stand_in_order(front, line);
    globs_stand_in_order(front + line, back);
    assert(front + line + back =~= lines);
    a_line_gives_its_glob(lines[i]);
    let p = globs_in(front).len() as int;
    assert(globs_in(lines) == globs_in(front) + seq![glob_text(lines[i])] + globs_in(back));
    p
}

/// Comments, blank lines and lines that do not parse change nothing.
pub proof fn lines_without_a_glob_change_nothing(
    a: Seq<Seq<char>>,
    line: Seq<char>,
    b: Seq<Seq<char>>,
)
    requires
        is_comment(line) || !glob_parses(line),
    ensures
        compiled(a + seq![line] + b) == compiled(a + b),
{
    globs_stand_in_order(a + seq![line], b);
    globs_stand_in_order(a, seq![line]);
    globs_stand_in_order(a, b);
    a_line_gives_its_glob(line);
    assert(globs_in(a) + globs_in(seq![line]) =~= globs_in(a));
}

/// A line's glob is the line without the white space that trails; a line that ends in
/// an escaped blank is its own glob. A line holds none where it begins with `#` or is
/// blank.
pub proof fn globs_are_lines_without_trailing_space(line: Seq<char>)
    ensures
        glob_text(line).is_prefix_of(line),
        forall|k: int|
            glob_text(line).len() <= k < line.len() ==> text::white_space(#[trigger] line[k]),
        glob_text(line).len() > 0 && text::white_space(glob_text(line).last()) ==> line.len() >= 2
            && line[line.len() - 2] == '\\' && line[line.len() - 1] == ' ' && glob_text(line)
            == line,
        line.len() > 0 && line[0] == '#' ==> is_comment(line),
        (forall|k: int| 0 <= k < line.len() ==> text::white_space(#[trigger] line[k]))
            ==> is_comment(line),
        is_comment(line) ==> (line.len() > 0 && line[0] == '#') || (forall|k: int|
            0 <= k < line.len() ==> text::white_space(#[trigger] line[k])),
{
    reveal_strlit("\\ ");
    reveal_strlit("#");
    let tail = "\\ "@;
    assert(tail.len() == 2);
    text::trimming_the_end_leaves_the_front(line);
    let j = choose|j: int|
        0 <= j <= line.len() && #[trigger] line.take(j) == text::trimmed_end(line) && (forall|k:
            int| j <= k < line.len() ==> text::white_space(#[trigger] line[k])) && (j > 0
            ==> !text::white_space(line[j - 1]));
    if tail.is_suffix_of(line) {
        assert(tail[0] == line[line.len() - 2]);
        assert(tail[1] == line[line.len() - 1]);
        assert(!text::white_space(line[line.len() - 2]));
    } else {
        assert(glob_text(line) == line.take(j));
        if j > 0 {
            assert(glob_text(line).last() == line[j - 1]);
        }
    }
    if line.len() > 0 && line[0] == '#' {
        assert("#"@ =~= line.take(1));
    }
    if "#"@.is_prefix_of(line) {
        assert("#"@[0] == line[0]);
    }
}

/// A directory is kept exactly where it can be placed under the root directory, the
/// glob that decides in the `include` list names it, and no glob that decides in the
/// `exclude` list does.
pub proof fn kept_is_included_and_not_excluded(rules: KeepRules, dir: Seq<char>)
    ensures
        rules.keeps(dir) <==> {
            &&& !"///"@.is_prefix_of(dir)
            &&& !".////"@.is_prefix_of(dir)
            &&& rules.include_globs().len() > 0
            &&& glob_verdict("/"@, rules.include_globs(), dir, true) == Some(true)
            &&& rules.exclude_globs().len() == 0 || glob_verdict(
                "/"@,
                rules.exclude_globs(),
                dir,
                true,
            ) != Some(true)
        },
{
}

/// A verdict keeps a directory only where the `include` list names it, and an
/// `exclude` list that names it has the last word; an exception in either list, or no
/// verdict, neither keeps nor carves out.
pub proof fn verdicts_keep_what_is_included(included: Option<bool>, excluded: Option<bool>)
    ensures
        kept_by(Some(true), Some(true)) == false,
        kept_by(Some(true), Some(false)) == true,
        kept_by(Some(true), None) == true,
        included != Some(true) ==> !kept_by(included, excluded),
        kept_by(included, excluded) ==> kept_by(included, None),
{
}

} // verus!
