//! The per-shell dialects: init snippets and prompt escaping.
//!
//! Each shell measures prompt width differently. Bash needs ANSI sequences
//! wrapped in the readline ignore bytes 0x01 and 0x02, or lines redraw wrong
//! once they wrap. Zsh needs %{ %} and treats % as special everywhere in
//! PROMPT. Fish measures the prompt itself and takes raw ANSI.

use vstd::prelude::*;

use crate::text::{chars_of, string_of};

verus! {

/// The shells with a dialect here. Also the accepted values for `init` and
/// `--shell`, by their lowercased names.
#[derive(Clone, Copy, Debug, PartialEq, Eq, Structural)]
pub enum Shell {
    Bash,
    Zsh,
    Fish,
}

/// The name a shell goes by on the command line.
pub open spec fn shell_name(shell: Shell) -> Seq<char> {
    match shell {
        Shell::Bash => "bash"@,
        Shell::Zsh => "zsh"@,
        Shell::Fish => "fish"@,
    }
}

/// The snippet `init` prints for each shell.
///
/// Bash: promptvars is on by default, so the substitution reruns at every
/// prompt; the single quotes keep it from running at eval time. Colors carry
/// their own ignore bytes, so no \[ \] here.
///
/// Zsh: PROMPT is percent-expanded unconditionally, so the %{ %} markers work
/// without PROMPT_SUBST. Leaving PROMPT_SUBST off keeps a $ or backtick in a
/// directory name inert.
pub open spec fn snippet_text(shell: Shell) -> Seq<char> {
    match shell {
        Shell::Bash => "PS1='$(youarehere prompt --shell bash)'\n"@,
        Shell::Zsh => "autoload -Uz add-zsh-hook\n__youarehere_precmd() {\n    PROMPT=\"$(youarehere prompt --shell zsh)\"\n}\nadd-zsh-hook precmd __youarehere_precmd\n"@,
        Shell::Fish => "function fish_prompt\n    youarehere prompt --shell fish\nend\n"@,
    }
}

/// Whether `needle` occurs in `hay` as a contiguous run.
pub open spec fn contains_text(hay: Seq<char>, needle: Seq<char>) -> bool {
    exists|i: int|
        0 <= i && i + needle.len() <= hay.len() && #[trigger] hay.subrange(i, i + needle.len())
            == needle
}

/// The call a snippet must make so that the prompt comes back in the
/// snippet's own dialect.
pub open spec fn callback(shell: Shell) -> Seq<char> {
    "youarehere prompt --shell "@ + shell_name(shell)
}

/// `text` with every '%' doubled.
pub open spec fn double_percent(text: Seq<char>) -> Seq<char>
    decreases text.len(),
{
    if text.len() == 0 {
        text
    } else {
        let done = double_percent(text.drop_last());
        if text.last() == '%' {
            done + seq!['%', '%']
        } else {
            done.push(text.last())
        }
    }
}

/// Dynamic text as the shell's prompt expansion must receive it to print it
/// verbatim. Zsh expands % escapes in PROMPT unconditionally; bash never
/// re-scans substitution output; fish prints verbatim.
pub open spec fn escaped(shell: Option<Shell>, text: Seq<char>) -> Seq<char> {
    match shell {
        Some(Shell::Zsh) => double_percent(text),
        _ => text,
    }
}

/// `text` wrapped in an SGR color and the shell's zero-width markers.
/// 0x01 and 0x02 are what readline compiles \[ and \] to.
pub open spec fn colored(shell: Option<Shell>, sgr: Seq<char>, text: Seq<char>) -> Seq<char> {
    match shell {
        Some(Shell::Bash) => "\x01\x1b["@ + sgr + "m\x02"@ + text + "\x01\x1b[0m\x02"@,
        Some(Shell::Zsh) => "%{\x1b["@ + sgr + "m%}"@ + text + "%{\x1b[0m%}"@,
        _ => "\x1b["@ + sgr + "m"@ + text + "\x1b[0m"@,
    }
}

impl Shell {
    /// The snippet `init` prints, meant for eval or source. Each one calls
    /// back with its own dialect, so escaping and width accounting agree.
    pub fn snippet(self) -> (s: &'static str)
        ensures
            s@ == snippet_text(self),
            contains_text(s@, callback(self)),
    {
        proof {
            lemma_snippet_calls_back(self);
        }
        match self {
            Shell::Bash => "PS1='$(youarehere prompt --shell bash)'\n",
            Shell::Zsh => "autoload -Uz add-zsh-hook\n__youarehere_precmd() {\n    PROMPT=\"$(youarehere prompt --shell zsh)\"\n}\nadd-zsh-hook precmd __youarehere_precmd\n",
            Shell::Fish => "function fish_prompt\n    youarehere prompt --shell fish\nend\n",
        }
    }
}

/// Every snippet calls the prompt back with its own shell's name.
pub proof fn lemma_snippet_calls_back(shell: Shell)
    ensures
        contains_text(snippet_text(shell), callback(shell)),
{
    reveal_strlit("youarehere prompt --shell ");
    match shell {
        Shell::Bash => {
            reveal_strlit("bash");
            reveal_strlit("PS1='$(youarehere prompt --shell bash)'\n");
            let hay = snippet_text(shell);
            let needle = callback(shell);
            assert(hay.subrange(7, 7 + needle.len() as int) =~= needle);
        },
        Shell::Zsh => {
            reveal_strlit("zsh");
            reveal_strlit(
                "autoload -Uz add-zsh-hook\n__youarehere_precmd() {\n    PROMPT=\"$(youarehere prompt --shell zsh)\"\n}\nadd-zsh-hook precmd __youarehere_precmd\n",
            );
            let hay = snippet_text(shell);
            let needle = callback(shell);
            assert(hay.subrange(64, 64 + needle.len() as int) =~= needle);
        },
        Shell::Fish => {
            reveal_strlit("fish");
            reveal_strlit("function fish_prompt\n    youarehere prompt --shell fish\nend\n");
            let hay = snippet_text(shell);
            let needle = callback(shell);
            assert(hay.subrange(25, 25 + needle.len() as int) =~= needle);
        },
    }
}

/// Dynamic text made inert under the shell's prompt expansion.
pub fn escape_text(shell: Option<Shell>, text: &str) -> (r: String)
    ensures
        r@ == escaped(shell, text@),
{
    match shell {
        Some(Shell::Zsh) => {
            let t = chars_of(text);
            let mut out: Vec<char> = Vec::new();
            let mut i: usize = 0;
            while i < t.len()
                invariant
                    i <= t.len(),
                    t@ == text@,
                    out@ == double_percent(t@.take(i as int)),
                decreases t.len() - i,
            {
                assert(t@.take(i + 1).drop_last() == t@.take(i as int));
                if t[i] == '%' {
                    out.push('%');
                    out.push('%');
                    assert(out@ =~= double_percent(t@.take(i + 1)));
                } else {
                    out.push(t[i]);
                }
                i += 1;
            }
            assert(t@.take(t.len() as int) == t@);
            string_of(&out)
        },
        _ => String::from_str(text),
    }
}

/// `text` wrapped in an SGR color and the shell's zero-width markers.
pub fn color(shell: Option<Shell>, sgr: &str, text: &str) -> (r: String)
    ensures
        r@ == colored(shell, sgr@, text@),
{
    match shell {
        Some(Shell::Bash) => {
            let mut r = String::from_str("\x01\x1b[");
            r.append(sgr);
            r.append("m\x02");
            r.append(text);
            r.append("\x01\x1b[0m\x02");
            r
        },
        Some(Shell::Zsh) => {
            let mut r = String::from_str("%{\x1b[");
            r.append(sgr);
            r.append("m%}");
            r.append(text);
            r.append("%{\x1b[0m%}");
            r
        },
        _ => {
            let mut r = String::from_str("\x1b[");
            r.append(sgr);
            r.append("m");
            r.append(text);
            r.append("\x1b[0m");
            r
        },
    }
}


/// What zsh's percent expansion prints for `s`, reading "%%" as a literal
/// '%'; nothing when a '%' would start any other escape.
pub open spec fn percent_expanded(s: Seq<char>) -> Option<Seq<char>>
    decreases s.len(),
{
    if s.len() == 0 {
        Some(s)
    } else if s[0] == '%' {
        if s.len() >= 2 && s[1] == '%' {
            match percent_expanded(s.skip(2)) {
                Some(r) => Some(seq!['%'] + r),
                None => None,
            }
        } else {
            None
        }
    } else {
        match percent_expanded(s.drop_first()) {
            Some(r) => Some(seq![s[0]] + r),
            None => None,
        }
    }
}

proof fn lemma_double_percent_concat(a: Seq<char>, b: Seq<char>)
    ensures
        double_percent(a + b) == double_percent(a) + double_percent(b),
    decreases b.len(),
{
    if b.len() == 0 {
        assert(a + b == a);
        assert(double_percent(a) + double_percent(b) == double_percent(a));
    } else {
        lemma_double_percent_concat(a, b.drop_last());
        assert((a + b).drop_last() == a + b.drop_last());
        assert((a + b).last() == b.last());
        let da = double_percent(a);
        let db = double_percent(b.drop_last());
        if b.last() == '%' {
            assert(da + db + seq!['%', '%'] == da + (db + seq!['%', '%']));
        } else {
            assert((da + db).push(b.last()) == da + db.push(b.last()));
        }
    }
}

/// Escaped text prints as itself: zsh expands the doubled percents of
/// escaped text back to exactly the text, so no '%' in a directory name
/// or a branch can start a prompt escape. Other shells get the text as is.
pub proof fn lemma_escaped_prints_verbatim(t: Seq<char>)
    ensures
        percent_expanded(escaped(Some(Shell::Zsh), t)) == Some(t),
        escaped(Some(Shell::Bash), t) == t,
        escaped(Some(Shell::Fish), t) == t,
        escaped(None, t) == t,
    decreases t.len(),
{
    if t.len() > 0 {
        let rest = t.drop_first();
        lemma_escaped_prints_verbatim(rest);
        let head = seq![t[0]];
        assert(head + rest == t);
        lemma_double_percent_concat(head, rest);
        assert(head.drop_last() == Seq::<char>::empty());
        assert(head.last() == t[0]);
        assert(double_percent(Seq::<char>::empty()) == Seq::<char>::empty());
        let d = double_percent(t);
        if t[0] == '%' {
            assert(double_percent(head) =~= seq!['%', '%']);
            assert(d == seq!['%', '%'] + double_percent(rest));
            assert(d.skip(2) == double_percent(rest));
            assert(seq!['%'] + rest == t);
        } else {
            assert(double_percent(head) =~= seq![t[0]]);
            assert(d.drop_first() == double_percent(rest));
        }
    }
}

/// Escaping never introduces a character other than '%'.
pub proof fn lemma_escaped_adds_only_percents(shell: Option<Shell>, t: Seq<char>, c: char)
    requires
        c != '%',
        !t.contains(c),
    ensures
        !escaped(shell, t).contains(c),
    decreases t.len(),
{
    if shell == Some(Shell::Zsh) && t.len() > 0 {
        let rest = t.drop_last();
        assert(!rest.contains(c)) by {
            if rest.contains(c) {
                let i = choose|i: int| 0 <= i < rest.len() && rest[i] == c;
                assert(t[i] == c);
            }
        }
        lemma_escaped_adds_only_percents(shell, rest, c);
        let dr = double_percent(rest);
        if t.last() == '%' {
            let d = dr + seq!['%', '%'];
            assert(!d.contains(c)) by {
                if d.contains(c) {
                    let i = choose|i: int| 0 <= i < d.len() && d[i] == c;
                    if i < dr.len() {
                        assert(dr[i] == c);
                    }
                }
            }
        } else {
            let d = dr.push(t.last());
            assert(t.last() != c);
            assert(!d.contains(c)) by {
                if d.contains(c) {
                    let i = choose|i: int| 0 <= i < d.len() && d[i] == c;
                    if i < dr.len() {
                        assert(dr[i] == c);
                    }
                }
            }
        }
    }
}


/// Every colored span opens with the SGR and closes with the reset
/// "\x1b[0m", so no color bleeds past it: bare for fish and raw output,
/// between the readline ignore bytes 0x01 and 0x02 for bash, inside zsh's
/// %{ %} width markers for zsh.
pub proof fn lemma_colored_spans_reset(sgr: Seq<char>, text: Seq<char>)
    ensures
        colored(Some(Shell::Fish), sgr, text) == colored(None, sgr, text),
        colored(None, sgr, text) == seq!['\x1b', '['] + sgr + seq!['m'] + text + seq![
            '\x1b',
            '[',
            '0',
            'm',
        ],
        colored(Some(Shell::Bash), sgr, text) == seq!['\x01', '\x1b', '['] + sgr + seq!['m', '\x02']
            + text + seq!['\x01', '\x1b', '[', '0', 'm', '\x02'],
        colored(Some(Shell::Zsh), sgr, text) == seq!['%', '{', '\x1b', '['] + sgr + seq![
            'm',
            '%',
            '}',
        ] + text + seq!['%', '{', '\x1b', '[', '0', 'm', '%', '}'],
{
    reveal_strlit("\x01\x1b[");
    reveal_strlit("m\x02");
    reveal_strlit("\x01\x1b[0m\x02");
    reveal_strlit("%{\x1b[");
    reveal_strlit("m%}");
    reveal_strlit("%{\x1b[0m%}");
    reveal_strlit("\x1b[");
    reveal_strlit("m");
    reveal_strlit("\x1b[0m");
    assert(colored(None, sgr, text) =~= seq!['\x1b', '['] + sgr + seq!['m'] + text + seq![
        '\x1b',
        '[',
        '0',
        'm',
    ]);
    assert(colored(Some(Shell::Bash), sgr, text) =~= seq!['\x01', '\x1b', '['] + sgr + seq![
        'm',
        '\x02',
    ] + text + seq!['\x01', '\x1b', '[', '0', 'm', '\x02']);
    assert(colored(Some(Shell::Zsh), sgr, text) =~= seq!['%', '{', '\x1b', '['] + sgr + seq![
        'm',
        '%',
        '}',
    ] + text + seq!['%', '{', '\x1b', '[', '0', 'm', '%', '}']);
}

} // verus!
