use ignore::gitignore::{Gitignore, GitignoreBuilder};
use vstd::prelude::*;
use vstd::string::StringExecFns;

verus! {

/// `ignore::gitignore::Gitignore`, a compiled matcher.
#[verifier::external_type_specification]
#[verifier::external_body]
pub struct ExGitignore(Gitignore);

/// `ignore::gitignore::GitignoreBuilder`, which takes pattern lines.
#[verifier::external_type_specification]
#[verifier::external_body]
pub struct ExGitignoreBuilder(GitignoreBuilder);

/// `ignore::Error`, the error of a builder.
#[verifier::external_type_specification]
#[verifier::external_body]
pub struct ExIgnoreError(ignore::Error);

/// The patterns that a builder holds, in their order, each as it was stored.
pub uninterp spec fn builder_lines(builder: GitignoreBuilder) -> Seq<Seq<char>>;

/// The directory that a builder holds as its root.
pub uninterp spec fn builder_root(builder: GitignoreBuilder) -> Seq<char>;

/// The patterns that a matcher holds, in their order, each as it was stored.
pub uninterp spec fn matcher_lines(matcher: Gitignore) -> Seq<Seq<char>>;

/// The directory that a matcher holds as its root.
pub uninterp spec fn matcher_root(matcher: Gitignore) -> Seq<char>;

/// Whether a builder takes this line: a line that it cannot read as a pattern
/// is refused.
pub uninterp spec fn line_accepted(line: Seq<char>) -> bool;

/// Whether these stored patterns can be compiled into one matcher.
pub uninterp spec fn lines_compile(lines: Seq<Seq<char>>) -> bool;

/// Whether the matcher with this root and these stored patterns, later ones
/// overriding earlier ones, judges a path ignored; `is_dir` says whether the
/// path is a directory. The verdict is that of one build target: the matcher
/// reads path separators as its target does.
pub uninterp spec fn ignore_verdict(
    root: Seq<char>,
    lines: Seq<Seq<char>>,
    path: Seq<char>,
    is_dir: bool,
) -> bool;

/// A white-space character, as `char::is_whitespace` knows it.
pub open spec fn is_white_space(c: char) -> bool {
    let code = c as u32;
    ||| 9 <= code <= 13
    ||| code == 0x20
    ||| code == 0x85
    ||| code == 0xA0
    ||| code == 0x1680
    ||| 0x2000 <= code <= 0x200A
    ||| code == 0x2028
    ||| code == 0x2029
    ||| code == 0x202F
    ||| code == 0x205F
    ||| code == 0x3000
}

/// A text without the white space at its end.
pub open spec fn trimmed_end(text: Seq<char>) -> Seq<char>
    decreases text.len(),
{
    if text.len() > 0 && is_white_space(text.last()) {
        trimmed_end(text.drop_last())
    } else {
        text
    }
}

/// Whether a line ends in a backslash and a space.
pub open spec fn ends_in_escaped_space(line: Seq<char>) -> bool {
    line.len() >= 2 && line[line.len() - 2] == '\\' && line[line.len() - 1] == ' '
}

/// What a builder stores of a line that it takes: nothing of a comment and of
/// a line that is blank; else the line without the white space at its end,
/// which stays where the line ends in a backslash and a space.
pub open spec fn stored_form(line: Seq<char>) -> Seq<Seq<char>> {
    if line.len() > 0 && line[0] == '#' {
        Seq::empty()
    } else {
        let kept = if ends_in_escaped_space(line) {
            line
        } else {
            trimmed_end(line)
        };
        if kept.len() == 0 {
            Seq::empty()
        } else {
            seq![kept]
        }
    }
}

/// The root that a builder holds for a directory: the directory without a
/// leading `./`.
pub open spec fn stored_root(root: Seq<char>) -> Seq<char> {
    if root.len() >= 2 && root[0] == '.' && root[1] == '/' {
        root.skip(2)
    } else {
        root
    }
}

/// `GitignoreBuilder::new`. Trusted: the builder holds no pattern, and as its
/// root the directory without a leading `./`.
#[verifier::external_body]
fn new_builder(root: &str) -> (builder: GitignoreBuilder)
    ensures
        builder_lines(builder) == Seq::<Seq<char>>::empty(),
        builder_root(builder) == stored_root(root@),
{
    GitignoreBuilder::new(root)
}

/// `GitignoreBuilder::add_line`, with no source file named. Trusted: whether
/// the line is taken depends on the line alone; of a line that is taken the
/// builder stores what [`stored_form`] says, after the patterns that it holds;
/// a refused line changes nothing.
#[verifier::external_body]
fn add_line(builder: &mut GitignoreBuilder, line: &str) -> (taken: bool)
    ensures
        taken == line_accepted(line@),
        builder_lines(*final(builder)) == if taken {
            builder_lines(*old(builder)) + stored_form(line@)
        } else {
            builder_lines(*old(builder))
        },
        builder_root(*final(builder)) == builder_root(*old(builder)),
{
    builder.add_line(None, line).is_ok()
}

/// `GitignoreBuilder::build`. Trusted: whether it succeeds depends on the
/// stored patterns alone; the matcher holds the builder's root and patterns.
#[verifier::external_body]
fn build_matcher(builder: &GitignoreBuilder) -> (built: Result<Gitignore, ignore::Error>)
    ensures
        built is Ok <==> lines_compile(builder_lines(*builder)),
        built matches Ok(matcher) ==> matcher_lines(matcher) == builder_lines(*builder)
            && matcher_root(matcher) == builder_root(*builder),
{
    builder.build()
}

/// The text of an `ignore::Error`, by its `Display`.
#[verifier::external_body]
fn error_text(error: &ignore::Error) -> (text: String) {
    error.to_string()
}

/// `Gitignore::matched`, then `Match::is_ignore`. Trusted: the verdict depends
/// on the matcher's root and stored patterns, the path and the directory hint
/// alone.
#[verifier::external_body]
fn matched_ignore(matcher: &Gitignore, path: &str, is_dir: bool) -> (ignored: bool)
    ensures
        ignored == ignore_verdict(matcher_root(*matcher), matcher_lines(*matcher), path@, is_dir),
{
    matcher.matched(path, is_dir).is_ignore()
}

/// The patterns that are always in force, whatever the ignore files say.
pub open spec fn default_patterns() -> Seq<Seq<char>> {
    seq![
        "codefetch/"@,
        ".git/"@,
        "node_modules/"@,
        "target/"@,
        "dist/"@,
        "build/"@,
        ".vscode/"@,
        ".idea/"@,
        ".DS_Store"@,
        "*.png"@,
        "*.jpg"@,
        "*.jpeg"@,
        "*.gif"@,
        "*.webp"@,
        "*.pdf"@,
        "*.exe"@,
        "*.dll"@,
        "*.so"@,
        "*.zip"@,
        "*.tar"@,
        "*.gz"@,
        "*.lock"@,
        "*.log"@,
    ]
}

/// The characters of each string, in order.
pub open spec fn line_models(lines: Seq<String>) -> Seq<Seq<char>> {
    Seq::new(lines.len(), |i: int| lines[i]@)
}

/// The default patterns as strings.
pub fn default_ignore_patterns() -> (patterns: Vec<String>)
    ensures
        line_models(patterns@) == default_patterns(),
{
    let mut patterns: Vec<String> = Vec::new();
    patterns.push(String::from_str("codefetch/"));
    patterns.push(String::from_str(".git/"));
    patterns.push(String::from_str("node_modules/"));
    patterns.push(String::from_str("target/"));
    patterns.push(String::from_str("dist/"));
    patterns.push(String::from_str("build/"));
    patterns.push(String::from_str(".vscode/"));
    patterns.push(String::from_str(".idea/"));
    patterns.push(String::from_str(".DS_Store"));
    patterns.push(String::from_str("*.png"));
    patterns.push(String::from_str("*.jpg"));
    patterns.push(String::from_str("*.jpeg"));
    patterns.push(String::from_str("*.gif"));
    patterns.push(String::from_str("*.webp"));
    patterns.push(String::from_str("*.pdf"));
    patterns.push(String::from_str("*.exe"));
    patterns.push(String::from_str("*.dll"));
    patterns.push(String::from_str("*.so"));
    patterns.push(String::from_str("*.zip"));
    patterns.push(String::from_str("*.tar"));
    patterns.push(String::from_str("*.gz"));
    patterns.push(String::from_str("*.lock"));
    patterns.push(String::from_str("*.log"));
    assert(line_models(patterns@) =~= default_patterns());
    patterns
}

/// The patterns that a builder stores of `lines`: of each line that it takes,
/// in the order of the lines, what [`stored_form`] says.
pub open spec fn kept_lines(lines: Seq<Seq<char>>) -> Seq<Seq<char>>
    decreases lines.len(),
{
    if lines.len() == 0 {
        Seq::empty()
    } else if line_accepted(lines.last()) {
        kept_lines(lines.drop_last()) + stored_form(lines.last())
    } else {
        kept_lines(lines.drop_last())
    }
}

/// The lines among `lines` that a builder refuses, in their order.
pub open spec fn refused_lines(lines: Seq<Seq<char>>) -> Seq<Seq<char>> {
    lines.filter(|line: Seq<char>| !line_accepted(line))
}

/// The lines of an ignore file that may be absent.
pub open spec fn file_lines(file: Option<Vec<String>>) -> Seq<Seq<char>> {
    match file {
        Some(lines) => line_models(lines@),
        None => Seq::empty(),
    }
}

/// A compiled set of ignore rules for one root directory.
pub struct IgnoreRules {
    matcher: Gitignore,
}

impl IgnoreRules {
    /// The root against which paths are matched.
    pub closed spec fn root(&self) -> Seq<char> {
        matcher_root(self.matcher)
    }

    /// The stored patterns in force, later ones overriding earlier ones.
    pub closed spec fn lines(&self) -> Seq<Seq<char>> {
        matcher_lines(self.matcher)
    }

    /// Whether the rules exclude the entry at `relative_path`, which is a
    /// directory if `is_directory` says so.
    pub fn is_ignored(&self, relative_path: &str, is_directory: bool) -> (ignored: bool)
        ensures
            ignored == ignore_verdict(self.root(), self.lines(), relative_path@, is_directory),
    {
        matched_ignore(&self.matcher, relative_path, is_directory)
    }
}

/// Why a set of ignore rules could not be built.
#[derive(Debug)]
pub enum IgnoreError {
    /// A default pattern was refused; it is named.
    InvalidDefault(String),
    /// The patterns could not be compiled together; the message says why.
    Compile(String),
}

/// The rules that were built, and the lines of the ignore files that were
/// refused and left out, in their order.
pub struct IgnoreBuild {
    pub rules: IgnoreRules,
    pub rejected: Vec<String>,
}

/// Adds the lines of an ignore file to a builder, leaving out the lines that
/// it refuses, which are collected in `rejected`.
fn add_optional_lines(builder: &mut GitignoreBuilder, lines: &Vec<String>, rejected: &mut Vec<String>)
    ensures
        builder_lines(*final(builder)) == builder_lines(*old(builder)) + kept_lines(
            line_models(lines@),
        ),
        builder_root(*final(builder)) == builder_root(*old(builder)),
        line_models(final(rejected)@) == line_models(old(rejected)@) + refused_lines(
            line_models(lines@),
        ),
{
    let ghost all = line_models(lines@);
    let ghost start = builder_lines(*builder);
    let ghost refused_start = line_models(rejected@);
    let mut i: usize = 0;
    while i < lines.len()
        invariant
            i <= lines.len(),
            all == line_models(lines@),
            builder_root(*builder) == builder_root(*old(builder)),
            builder_lines(*builder) == start + kept_lines(all.take(i as int)),
            line_models(rejected@) == refused_start + refused_lines(all.take(i as int)),
        decreases lines.len() - i,
    {
        let line = &lines[i];
        proof {
            assert(all.take(i + 1).drop_last() =~= all.take(i as int));
            assert(all.take(i + 1).last() == line@);
            reveal(Seq::filter);
        }
        let taken = add_line(builder, line.as_str());
        if !taken {
            let ghost before = line_models(rejected@);
            rejected.push(line.clone());
            assert(line_models(rejected@) =~= before.push(line@));
        }
        proof {
            assert(builder_lines(*builder) =~= start + kept_lines(all.take(i + 1)));
            assert(line_models(rejected@) =~= refused_start + refused_lines(all.take(i + 1)));
        }
        i += 1;
    }
    assert(all.take(lines.len() as int) =~= all);
}

/// The first default pattern that a builder refuses, if there is one.
pub open spec fn first_refused_default() -> Option<Seq<char>> {
    if refused_lines(default_patterns()).len() > 0 {
        Some(refused_lines(default_patterns())[0])
    } else {
        None
    }
}

/// The stored patterns of the rules for ignore files with these lines: those
/// of the defaults, then those of the repository's ignore file, then those of
/// the tool's own ignore file; comments and blank lines store nothing, and the
/// lines that are refused are left out.
pub open spec fn layered_lines(repository: Seq<Seq<char>>, tool: Seq<Seq<char>>) -> Seq<Seq<char>> {
    kept_lines(default_patterns()) + kept_lines(repository) + kept_lines(tool)
}

/// Builds the ignore rules for the directory `root` from the default patterns
/// and the lines of the two ignore files, where they exist. A line of an ignore
/// file that cannot be read as a pattern is left out and reported; a default
/// pattern that cannot be read, or patterns that cannot be compiled, are an
/// error. Paths are matched against `root` without a leading `./`.
pub fn build_ignore_list(
    root: &str,
    repository_file: Option<Vec<String>>,
    tool_file: Option<Vec<String>>,
) -> (built: Result<IgnoreBuild, IgnoreError>)
    ensures
        built is Ok <==> first_refused_default() is None && lines_compile(
            layered_lines(file_lines(repository_file), file_lines(tool_file)),
        ),
        built matches Ok(build) ==> {
            &&& build.rules.root() == stored_root(root@)
            &&& build.rules.lines() == layered_lines(
                file_lines(repository_file),
                file_lines(tool_file),
            )
            &&& line_models(build.rejected@) == refused_lines(file_lines(repository_file))
                + refused_lines(file_lines(tool_file))
        },
        built matches Err(IgnoreError::InvalidDefault(pattern)) ==> first_refused_default()
            == Some(pattern@),
        built matches Err(IgnoreError::Compile(_)) ==> first_refused_default() is None,
{
    let mut builder = new_builder(root);
    let defaults = default_ignore_patterns();
    let ghost wanted = default_patterns();
    let mut i: usize = 0;
    while i < defaults.len()
        invariant
            i <= defaults.len(),
            wanted == default_patterns(),
            line_models(defaults@) == wanted,
            builder_root(builder) == stored_root(root@),
            builder_lines(builder) == kept_lines(wanted.take(i as int)),
            refused_lines(wanted.take(i as int)).len() == 0,
        decreases defaults.len() - i,
    {
        let pattern = &defaults[i];
        proof {
            assert(wanted.take(i + 1).drop_last() =~= wanted.take(i as int));
            assert(wanted.take(i + 1).last() == pattern@);
            assert(wanted[i as int] == line_models(defaults@)[i as int]);
            reveal(Seq::filter);
        }
        let taken = add_line(&mut builder, pattern.as_str());
        if !taken {
            proof {
                refused_prefix(wanted, i as int);
            }
            return Err(IgnoreError::InvalidDefault(pattern.clone()));
        }
        proof {
            assert(builder_lines(builder) =~= kept_lines(wanted.take(i + 1)));
        }
        i += 1;
    }
    proof {
        assert(wanted.take(defaults.len() as int) =~= wanted);
    }
    let mut rejected: Vec<String> = Vec::new();
    match &repository_file {
        Some(lines) => add_optional_lines(&mut builder, lines, &mut rejected),
        None => {
            reveal(Seq::filter);
        },
    }
    match &tool_file {
        Some(lines) => add_optional_lines(&mut builder, lines, &mut rejected),
        None => {
            reveal(Seq::filter);
        },
    }
    proof {
        assert(line_models(rejected@) =~= refused_lines(file_lines(repository_file))
            + refused_lines(file_lines(tool_file)));
        assert(builder_lines(builder) =~= layered_lines(
            file_lines(repository_file),
            file_lines(tool_file),
        ));
    }
    match build_matcher(&builder) {
        Ok(matcher) => Ok(IgnoreBuild { rules: IgnoreRules { matcher }, rejected }),
        Err(error) => Err(IgnoreError::Compile(error_text(&error))),
    }
}

/// Where the first `count` lines are all taken and the next one is refused,
/// that one is the first refused line.
proof fn refused_prefix(lines: Seq<Seq<char>>, count: int)
    requires
        0 <= count < lines.len(),
        refused_lines(lines.take(count)).len() == 0,
        !line_accepted(lines[count]),
    ensures
        refused_lines(lines).len() > 0,
        refused_lines(lines)[0] == lines[count],
    decreases lines.len(),
{
    reveal(Seq::filter);
    let front = lines.drop_last();
    if count == lines.len() - 1 {
        assert(front =~= lines.take(count));
        assert(refused_lines(lines) =~= refused_lines(front).push(lines[count]));
    } else {
        assert(front.take(count) =~= lines.take(count));
        assert(front[count] == lines[count]);
        refused_prefix(front, count);
        if !line_accepted(lines.last()) {
            assert(refused_lines(lines) =~= refused_lines(front).push(lines.last()));
        } else {
            assert(refused_lines(lines) =~= refused_lines(front));
        }
    }
}

} // verus!
