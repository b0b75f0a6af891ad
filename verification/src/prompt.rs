//! Prompt rendering from parts already resolved.
//!
//! Rendering never fails. Each layer degrades instead: an unreadable repo
//! drops the git span, an unreadable cwd falls back to "?". A prompt that
//! prints errors at every keystroke is broken software.

use vstd::prelude::*;

use crate::git::{GitInfo, GitInfoView, Head, HeadView};
use crate::path::{components, display, display_text, is_prefix_of};
use crate::shell::{color, colored, escape_text, escaped, lemma_escaped_adds_only_percents, Shell};
use crate::text::{chars_of, opt_chars, string_of};

verus! {

/// Path in bold cyan. Fixed on purpose.
pub const PATH_SGR: &'static str = "1;36";

/// Git span in magenta. Fixed on purpose.
pub const GIT_SGR: &'static str = "35";

/// One colored span: the text escaped for the shell, then, with color on,
/// wrapped in the color. Escaping runs over the dynamic text alone, so the
/// shell's own markers are never escaped.
pub open spec fn painted(shell: Option<Shell>, sgr: Seq<char>, text: Seq<char>, color: bool) -> Seq<
    char,
> {
    if color {
        colored(shell, sgr, escaped(shell, text))
    } else {
        escaped(shell, text)
    }
}

/// At most the first seven characters of a sha.
pub open spec fn short_sha(sha: Seq<char>) -> Seq<char> {
    if sha.len() <= 7 {
        sha
    } else {
        sha.take(7)
    }
}

/// "main v0.1.0", "main", "v1.2.0", or "3f2a1b9". A detached HEAD sitting
/// on a tag is named by the tag; the sha adds nothing.
pub open spec fn span_text(info: GitInfoView) -> Seq<char> {
    match (info.head, info.tag) {
        (HeadView::Branch(branch), Some(tag)) => branch + " "@ + tag,
        (HeadView::Branch(branch), None) => branch,
        (HeadView::Detached(_), Some(tag)) => tag,
        (HeadView::Detached(sha), None) => short_sha(sha),
    }
}

/// The full prompt line: identity and path in one span, the git span in
/// parentheses when there is a repository, and one trailing space.
pub open spec fn line_text(
    user: Seq<char>,
    hostname: Seq<char>,
    path: Seq<char>,
    git: Option<GitInfoView>,
    shell: Option<Shell>,
    color: bool,
) -> Seq<char> {
    let first = painted(shell, PATH_SGR@, user + "@"@ + hostname + " "@ + path, color);
    let second = match git {
        Some(info) => " "@ + painted(shell, GIT_SGR@, "("@ + span_text(info) + ")"@, color),
        None => Seq::<char>::empty(),
    };
    first + second + " "@
}

/// The first of the candidates that holds a nonempty value, or "?".
pub open spec fn first_nonempty(a: Option<Seq<char>>, b: Option<Seq<char>>) -> Seq<char> {
    if a matches Some(x) && x.len() > 0 {
        a->0
    } else if b matches Some(y) && y.len() > 0 {
        b->0
    } else {
        "?"@
    }
}

/// https://no-color.org: any nonempty NO_COLOR disables color.
pub open spec fn color_wanted(no_color: Option<Seq<u8>>) -> bool {
    match no_color {
        Some(v) => v.len() == 0,
        None => true,
    }
}

/// The optional git info by the characters it holds.
pub open spec fn opt_info_view(git: Option<&GitInfo>) -> Option<GitInfoView> {
    match git {
        Some(info) => Some(info@),
        None => None,
    }
}

/// One colored span.
pub fn paint(shell: Option<Shell>, sgr: &str, text: &str, color_on: bool) -> (r: String)
    ensures
        r@ == painted(shell, sgr@, text@, color_on),
{
    let text = escape_text(shell, text);
    if color_on {
        color(shell, sgr, text.as_str())
    } else {
        text
    }
}

/// What the git span says about a repository.
pub fn git_span(info: &GitInfo) -> (r: String)
    ensures
        r@ == span_text(info@),
{
    match (&info.head, &info.tag) {
        (Head::Branch(branch), Some(tag)) => {
            let mut r = branch.clone();
            r.append(" ");
            r.append(tag.as_str());
            r
        },
        (Head::Branch(branch), None) => branch.clone(),
        (Head::Detached(_), Some(tag)) => tag.clone(),
        (Head::Detached(sha), None) => {
            let c = chars_of(sha.as_str());
            let n: usize = if c.len() <= 7 {
                c.len()
            } else {
                7
            };
            let short = crate::text::slice_of(&c, 0, n);
            assert(short@ =~= short_sha(sha@));
            string_of(&short)
        },
    }
}

/// Assembles the line from parts already resolved. Taking every input as an
/// argument keeps it free of the environment, so the exact bytes can be
/// pinned for given inputs.
pub fn render(
    user: &str,
    hostname: &str,
    path: &str,
    git: Option<&GitInfo>,
    shell: Option<Shell>,
    color_on: bool,
) -> (r: String)
    ensures
        r@ == line_text(user@, hostname@, path@, opt_info_view(git), shell, color_on),
{
    let mut who = String::from_str(user);
    who.append("@");
    who.append(hostname);
    who.append(" ");
    who.append(path);
    let mut line = paint(shell, PATH_SGR, who.as_str(), color_on);
    let ghost first = line@;
    match git {
        Some(info) => {
            let mut span = String::from_str("(");
            let inner = git_span(info);
            span.append(inner.as_str());
            span.append(")");
            let painted_span = paint(shell, GIT_SGR, span.as_str(), color_on);
            line.append(" ");
            line.append(painted_span.as_str());
        },
        None => {
            assert(line@ == first + Seq::<char>::empty());
        },
    }
    line.append(" ");
    line
}

/// The environment wins. An exported HOSTNAME is the name the shell was
/// given, which is the one the user recognizes when the system name
/// differs, as it does inside a container. "?" when neither answers.
pub fn hostname(environment: Option<String>, system: Option<String>) -> (r: String)
    ensures
        r@ == first_nonempty(opt_chars(environment), opt_chars(system)),
{
    if let Some(name) = environment {
        if name.as_str().is_empty() == false {
            return name;
        }
    }
    if let Some(name) = system {
        if name.as_str().is_empty() == false {
            return name;
        }
    }
    String::from_str("?")
}

/// The user name to show: USER when it is set and nonempty, "?" otherwise.
pub fn user_name(user: Option<String>) -> (r: String)
    ensures
        r@ == first_nonempty(opt_chars(user), None),
{
    hostname(user, None)
}

/// Whether to color: yes unless NO_COLOR is set to something nonempty.
pub fn color_enabled(no_color: &Option<Vec<u8>>) -> (r: bool)
    ensures
        r == color_wanted(crate::prompt::opt_bytes(no_color)),
{
    match no_color {
        Some(v) => v.len() == 0,
        None => true,
    }
}

/// The bytes an optional byte vector holds.
pub open spec fn opt_bytes(o: &Option<Vec<u8>>) -> Option<Seq<u8>> {
    match o {
        Some(v) => Some(v@),
        None => None,
    }
}

/// What the prompt reads from its surroundings, already gathered.
pub struct Surroundings {
    /// NO_COLOR's raw bytes, when it is set.
    pub no_color: Option<Vec<u8>>,
    /// USER, when it is set and valid Unicode.
    pub user: Option<String>,
    /// HOSTNAME, when it is set and valid Unicode.
    pub hostname: Option<String>,
    /// The name the system reports, when it answers in valid Unicode.
    pub system_hostname: Option<String>,
    /// HOME, when it is set.
    pub home: Option<String>,
    /// The current directory as typed: $PWD when it names the current
    /// directory, the kernel's answer otherwise. None when it is gone.
    pub cwd: Option<String>,
}

/// The path part of the line: the current directory as displayed, or "?"
/// when it could not be read.
pub open spec fn where_text(cwd: Option<Seq<char>>, home: Option<Seq<char>>) -> Seq<char> {
    match cwd {
        Some(c) => display_text(c, home),
        None => "?"@,
    }
}

/// The full prompt line for the given surroundings and repository.
pub open spec fn prompt_text(shell: Option<Shell>, env: Surroundings, git: Option<GitInfoView>) -> Seq<
    char,
> {
    line_text(
        first_nonempty(opt_chars(env.user), None),
        first_nonempty(opt_chars(env.hostname), opt_chars(env.system_hostname)),
        where_text(opt_chars(env.cwd), opt_chars(env.home)),
        git,
        shell,
        color_wanted(opt_bytes(&env.no_color)),
    )
}

/// The full prompt line: identity, path, optional git span, one trailing
/// space, colored unless NO_COLOR says otherwise.
pub fn prompt(shell: Option<Shell>, env: &Surroundings, git: Option<&GitInfo>) -> (r: String)
    ensures
        r@ == prompt_text(shell, *env, opt_info_view(git)),
{
    let color_on = color_enabled(&env.no_color);
    let user = user_name(env.user.clone());
    let host = hostname(env.hostname.clone(), env.system_hostname.clone());
    let place = match &env.cwd {
        Some(cwd) => match &env.home {
            Some(home) => display(cwd.as_str(), Some(home.as_str())),
            None => display(cwd.as_str(), None),
        },
        None => String::from_str("?"),
    };
    render(user.as_str(), host.as_str(), place.as_str(), git, shell, color_on)
}


// ---------------------------------------------------------------------------
// Laws
// ---------------------------------------------------------------------------

proof fn lemma_concat_lacks(a: Seq<char>, b: Seq<char>, c: char)
    requires
        !a.contains(c),
        !b.contains(c),
    ensures
        !(a + b).contains(c),
{
    if (a + b).contains(c) {
        let i = choose|i: int| 0 <= i < (a + b).len() && (a + b)[i] == c;
        if i < a.len() {
            assert(a[i] == c);
        } else {
            assert(b[i - a.len()] == c);
        }
    }
}

proof fn lemma_short_text_lacks(s: Seq<char>, c: char)
    requires
        s.len() == 1,
        s[0] != c,
    ensures
        !s.contains(c),
{
}

/// The line always ends in exactly one space after its last span, and
/// never in a newline, which would put the cursor on the line below.
pub proof fn lemma_line_ends_in_one_space(
    user: Seq<char>,
    hostname: Seq<char>,
    path: Seq<char>,
    git: Option<GitInfoView>,
    shell: Option<Shell>,
    color: bool,
)
    ensures
        line_text(user, hostname, path, git, shell, color).len() > 0,
        line_text(user, hostname, path, git, shell, color).last() == ' ',
{
    reveal_strlit(" ");
}

/// Without color the line holds no escape character unless one was handed
/// in: the escape bytes come from coloring alone.
pub proof fn lemma_no_color_no_escapes(
    user: Seq<char>,
    hostname: Seq<char>,
    path: Seq<char>,
    git: Option<GitInfoView>,
    shell: Option<Shell>,
)
    requires
        !user.contains('\x1b'),
        !hostname.contains('\x1b'),
        !path.contains('\x1b'),
        git matches Some(info) ==> !span_text(info).contains('\x1b'),
    ensures
        !line_text(user, hostname, path, git, shell, false).contains('\x1b'),
{
    let e = '\x1b';
    reveal_strlit("@");
    reveal_strlit(" ");
    reveal_strlit("(");
    reveal_strlit(")");
    lemma_short_text_lacks("@"@, e);
    lemma_short_text_lacks(" "@, e);
    lemma_short_text_lacks("("@, e);
    lemma_short_text_lacks(")"@, e);
    let who = user + "@"@ + hostname + " "@ + path;
    lemma_concat_lacks(user, "@"@, e);
    lemma_concat_lacks(user + "@"@, hostname, e);
    lemma_concat_lacks(user + "@"@ + hostname, " "@, e);
    lemma_concat_lacks(user + "@"@ + hostname + " "@, path, e);
    lemma_escaped_adds_only_percents(shell, who, e);
    let first = painted(shell, PATH_SGR@, who, false);
    let second = match git {
        Some(info) => " "@ + painted(shell, GIT_SGR@, "("@ + span_text(info) + ")"@, false),
        None => Seq::<char>::empty(),
    };
    match git {
        Some(info) => {
            let inner = "("@ + span_text(info) + ")"@;
            lemma_concat_lacks("("@, span_text(info), e);
            lemma_concat_lacks("("@ + span_text(info), ")"@, e);
            lemma_escaped_adds_only_percents(shell, inner, e);
            lemma_concat_lacks(" "@, escaped(shell, inner), e);
        },
        None => {
            assert(!second.contains(e));
        },
    }
    lemma_concat_lacks(first, second, e);
    lemma_concat_lacks(first + second, " "@, e);
}

/// The environment's host name wins when it is nonempty; the system's
/// comes next; "?" when neither answers.
pub proof fn lemma_hostname_preference(env: Seq<char>, system: Seq<char>)
    ensures
        env.len() > 0 ==> first_nonempty(Some(env), Some(system)) == env,
        env.len() == 0 && system.len() > 0 ==> first_nonempty(Some(env), Some(system))
            == system,
        first_nonempty(None, Some(system)) == if system.len() > 0 {
            system
        } else {
            "?"@
        },
        first_nonempty(None, None) == "?"@,
{
}

/// A detached HEAD with no tag on it shows the first seven characters of
/// its sha; a tag on HEAD replaces the sha entirely.
pub proof fn lemma_detached_span(sha: Seq<char>, tag: Option<Seq<char>>)
    requires
        sha.len() >= 7,
    ensures
        span_text(GitInfoView { head: HeadView::Detached(sha), tag: None }) == sha.take(7),
        tag matches Some(t) ==> span_text(GitInfoView { head: HeadView::Detached(sha), tag })
            == t,
{
}

/// Any nonempty NO_COLOR gives the uncolored line; an unset or empty one
/// the colored line.
pub proof fn lemma_no_color_switch(shell: Option<Shell>, env: Surroundings, git: Option<GitInfoView>)
    ensures
        prompt_text(shell, env, git) == line_text(
            first_nonempty(opt_chars(env.user), None),
            first_nonempty(opt_chars(env.hostname), opt_chars(env.system_hostname)),
            where_text(opt_chars(env.cwd), opt_chars(env.home)),
            git,
            shell,
            match env.no_color {
                Some(v) => v@.len() == 0,
                None => true,
            },
        ),
{
}


/// On a branch the span names the branch whole, slashes and length kept,
/// followed by the exact tag after one space when there is one.
pub proof fn lemma_branch_span(branch: Seq<char>, tag: Seq<char>)
    ensures
        span_text(GitInfoView { head: HeadView::Branch(branch), tag: None }) == branch,
        span_text(GitInfoView { head: HeadView::Branch(branch), tag: Some(tag) }) == branch
            + seq![' '] + tag,
{
    reveal_strlit(" ");
    assert(" "@ =~= seq![' ']);
}

/// A readable current directory is shown as `path::display` shows it,
/// which outside home is the directory in full; "?" stands only for a
/// directory that could not be read.
pub proof fn lemma_readable_directory_is_displayed(c: Seq<char>, home: Option<Seq<char>>)
    ensures
        where_text(Some(c), home) == display_text(c, home),
        home matches Some(h) && !is_prefix_of(components(h), components(c)) ==> where_text(
            Some(c),
            home,
        ) == c,
        home is None ==> where_text(Some(c), home) == c,
        where_text(None, home) == seq!['?'],
{
    reveal_strlit("?");
}

/// The prompt shows the displayed current directory whenever it is
/// readable, whatever home is.
pub proof fn lemma_prompt_shows_the_directory(
    shell: Option<Shell>,
    env: Surroundings,
    git: Option<GitInfoView>,
)
    requires
        env.cwd is Some,
    ensures
        prompt_text(shell, env, git) == line_text(
            first_nonempty(opt_chars(env.user), None),
            first_nonempty(opt_chars(env.hostname), opt_chars(env.system_hostname)),
            display_text(env.cwd->0@, opt_chars(env.home)),
            git,
            shell,
            color_wanted(opt_bytes(&env.no_color)),
        ),
{
    lemma_readable_directory_is_displayed(env.cwd->0@, opt_chars(env.home));
}

/// Outside zsh, an uncolored line is exactly "user@host path", the span in
/// parentheses after a space when there is a repository, and one space.
pub proof fn lemma_plain_line(
    user: Seq<char>,
    hostname: Seq<char>,
    path: Seq<char>,
    git: Option<GitInfoView>,
    shell: Option<Shell>,
)
    requires
        shell != Some(Shell::Zsh),
    ensures
        git is None ==> line_text(user, hostname, path, git, shell, false) == user + seq!['@']
            + hostname + seq![' '] + path + seq![' '],
        git matches Some(info) ==> line_text(user, hostname, path, git, shell, false) == user
            + seq!['@'] + hostname + seq![' '] + path + seq![' ', '('] + span_text(info) + seq![
            ')',
            ' ',
        ],
{
    reveal_strlit("@");
    reveal_strlit(" ");
    reveal_strlit("(");
    reveal_strlit(")");
    crate::shell::lemma_escaped_prints_verbatim(user + "@"@ + hostname + " "@ + path);
    match git {
        Some(info) => {
            crate::shell::lemma_escaped_prints_verbatim("("@ + span_text(info) + ")"@);
            assert(line_text(user, hostname, path, git, shell, false) =~= user + seq!['@']
                + hostname + seq![' '] + path + seq![' ', '('] + span_text(info) + seq![')', ' ']);
        },
        None => {
            assert(line_text(user, hostname, path, git, shell, false) =~= user + seq!['@']
                + hostname + seq![' '] + path + seq![' ']);
        },
    }
}


/// A detached id of seven characters or fewer, with no tag, is shown whole.
pub proof fn lemma_short_detached_span(sha: Seq<char>)
    requires
        sha.len() <= 7,
    ensures
        span_text(GitInfoView { head: HeadView::Detached(sha), tag: None }) == sha,
{
}

} // verus!
