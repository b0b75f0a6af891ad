//! Reading enough repository state to name HEAD without starting git.
//!
//! The caller does the reading: it walks the directories a `Discoverer`
//! asks about, reads the files it names, and runs git for exact tags. What
//! the bytes mean is decided here. Anything unreadable or malformed degrades
//! to less information so the prompt always renders.

use vstd::prelude::*;
use vstd::utf8::{decode_utf8, valid_utf8};

use crate::path::{
    ancestors, ancestors_of, has_root, join, join_text, parent_text, split_slash, string_views,
};
use crate::text::{
    chars_of, decode, first_line, first_line_chars, is_white_space, lemma_line_end_at,
    lemma_trim_end_newline, lemma_trim_keeps, lemma_trim_start_keeps, string_of, strip_prefix,
    strip_prefix_chars, trim, trim_chars, trim_start,
};

verus! {

/// What HEAD points at.
#[derive(Debug, PartialEq)]
pub enum Head {
    /// The branch name, slashes kept. Set even before the first commit, when
    /// no ref file exists yet.
    Branch(String),
    /// Holds the full sha; the renderer shortens it.
    Detached(String),
}

/// Everything the prompt shows about a repository.
#[derive(Debug, PartialEq)]
pub struct GitInfo {
    pub head: Head,
    /// A tag pointing exactly at HEAD, not the nearest one behind it.
    pub tag: Option<String>,
}

/// A HEAD by the characters it holds.
pub enum HeadView {
    Branch(Seq<char>),
    Detached(Seq<char>),
}

impl View for Head {
    type V = HeadView;

    open spec fn view(&self) -> HeadView {
        match self {
            Head::Branch(name) => HeadView::Branch(name@),
            Head::Detached(sha) => HeadView::Detached(sha@),
        }
    }
}

/// What the prompt shows about a repository, by the characters it holds.
pub struct GitInfoView {
    pub head: HeadView,
    pub tag: Option<Seq<char>>,
}

impl View for GitInfo {
    type V = GitInfoView;

    open spec fn view(&self) -> GitInfoView {
        GitInfoView { head: self.head@, tag: crate::text::opt_chars(self.tag) }
    }
}

/// An optional HEAD by the characters it holds.
pub open spec fn opt_head_view(h: Option<Head>) -> Option<HeadView> {
    match h {
        Some(h) => Some(h@),
        None => None,
    }
}

/// A lowercase hexadecimal digit.
pub open spec fn is_lower_hex(c: char) -> bool {
    ('0' as u32 <= c as u32 <= '9' as u32) || ('a' as u32 <= c as u32 <= 'f' as u32)
}

/// A SHA-1 object id as git writes it: 40 lowercase hexadecimal digits.
pub open spec fn is_sha_text(s: Seq<char>) -> bool {
    s.len() == 40 && forall|i: int| 0 <= i < 40 ==> is_lower_hex(#[trigger] s[i])
}

/// The branch a symbolic ref names: what follows "refs/heads/", slashes
/// kept; for a target outside refs/heads, its last '/'-separated piece.
/// Nothing when that is empty.
pub open spec fn branch_of_target(target: Seq<char>) -> Option<Seq<char>> {
    let name = match strip_prefix(target, "refs/heads/"@) {
        Some(rest) => rest,
        None => split_slash(target).last(),
    };
    if name.len() > 0 {
        Some(name)
    } else {
        None
    }
}

/// What a HEAD file holding `contents` says, once trimmed: "ref:" and a
/// target is a branch, a bare SHA-1 is a detached HEAD, anything else is
/// unrecognized.
pub open spec fn head_of_contents(contents: Seq<char>) -> Option<HeadView> {
    let t = trim(contents);
    match strip_prefix(t, "ref:"@) {
        Some(target) => match branch_of_target(trim(target)) {
            Some(name) => Some(HeadView::Branch(name)),
            None => None,
        },
        None => if is_sha_text(t) {
            Some(HeadView::Detached(t))
        } else {
            None
        },
    }
}

/// The git directory a ".git" file at `file` points to. The file holds
/// "gitdir: <path>"; a relative path is relative to the file's directory.
pub open spec fn gitfile_target_of(file: Seq<char>, contents: Seq<char>) -> Option<Seq<char>> {
    match strip_prefix(contents, "gitdir:"@) {
        None => None,
        Some(after) => {
            let target = trim(after);
            if target.len() == 0 {
                None
            } else if has_root(target) {
                Some(target)
            } else {
                match parent_text(file) {
                    Some(dir) => Some(join_text(dir, target)),
                    None => None,
                }
            }
        },
    }
}

/// The exact tag git reported: the first line of its output when it
/// succeeded and wrote valid UTF-8; nothing otherwise.
pub open spec fn tag_of_output(success: bool, stdout: Seq<u8>) -> Option<Seq<char>> {
    if success && valid_utf8(stdout) {
        first_line(decode_utf8(stdout))
    } else {
        None
    }
}

/// The ".git" entry of a directory.
pub open spec fn dot_git_of(dir: Seq<char>) -> Seq<char> {
    join_text(dir, ".git"@)
}

/// A target outside refs/heads is rare. Its last component is the least
/// wrong name to show.
pub fn branch_name(target: &str) -> (r: Option<String>)
    ensures
        crate::text::opt_chars(r) == branch_of_target(target@),
{
    let t = chars_of(target);
    let prefix = chars_of("refs/heads/");
    let name = match strip_prefix_chars(&t, &prefix) {
        Some(rest) => rest,
        None => {
            // The text after the last '/', or all of it.
            let mut i: usize = t.len();
            assert(t@.take(t.len() as int) == t@);
            assert(t@.skip(t.len() as int) == Seq::<char>::empty());
            proof {
                crate::path::lemma_split_join(t@);
            }
            while i > 0 && t[i - 1] != '/'
                invariant
                    i <= t.len(),
                    split_slash(t@).last() == split_slash(t@.take(i as int)).last() + t@.skip(
                        i as int,
                    ),
                decreases i,
            {
                proof {
                    let pre = t@.take(i - 1);
                    crate::path::lemma_split_join(pre);
                    assert(t@.take(i as int).drop_last() == pre);
                    assert(t@.take(i as int).last() == t@[i - 1]);
                    assert(t@.skip(i - 1) == seq![t@[i - 1]] + t@.skip(i as int));
                    assert(split_slash(t@.take(i as int)).last() == split_slash(pre).last().push(
                        t@[i - 1],
                    ));
                }
                i -= 1;
            }
            proof {
                assert(t@.take(t.len() as int) == t@);
                if i > 0 {
                    crate::path::lemma_split_join(t@.take(i - 1));
                    assert(t@.take(i as int).drop_last() == t@.take(i - 1));
                    assert(t@.take(i as int).last() == '/');
                    assert(split_slash(t@.take(i as int)).last() == Seq::<char>::empty());
                } else {
                    assert(t@.take(0) == Seq::<char>::empty());
                }
                assert(split_slash(t@).last() =~= t@.skip(i as int));
            }
            crate::text::slice_of(&t, i, t.len())
        },
    };
    if name.len() > 0 {
        Some(string_of(&name))
    } else {
        None
    }
}

/// SHA-1 is the version 0.1 repository contract. Doubles as the check that
/// rejects a HEAD holding neither a ref nor an object id. A SHA-256
/// repository detaches to a 64 character id and falls out here.
pub fn is_sha(s: &str) -> (r: bool)
    ensures
        r == is_sha_text(s@),
{
    let c = chars_of(s);
    if c.len() != 40 {
        return false;
    }
    let mut i: usize = 0;
    while i < 40
        invariant
            i <= 40,
            c@ == s@,
            c@.len() == 40,
            forall|k: int| 0 <= k < i ==> is_lower_hex(#[trigger] c@[k]),
        decreases 40 - i,
    {
        let v: u32 = c[i] as u32;
        if !((0x30 <= v && v <= 0x39) || (0x61 <= v && v <= 0x66)) {
            assert(!is_lower_hex(c@[i as int]));
            return false;
        }
        i += 1;
    }
    true
}

/// What a HEAD file holding `contents` names, or nothing when it holds
/// something this does not recognize.
pub fn parse_head(contents: &str) -> (r: Option<Head>)
    ensures
        opt_head_view(r) == head_of_contents(contents@),
{
    let c = chars_of(contents);
    let t = trim_chars(&c);
    let marker = chars_of("ref:");
    match strip_prefix_chars(&t, &marker) {
        Some(target) => {
            let target = trim_chars(&target);
            let target = string_of(&target);
            match branch_name(target.as_str()) {
                Some(name) => Some(Head::Branch(name)),
                None => None,
            }
        },
        None => {
            let t = string_of(&t);
            if is_sha(t.as_str()) {
                Some(Head::Detached(t))
            } else {
                None
            }
        },
    }
}

/// Where a ".git" file at `file` holding `contents` points: the git
/// directory of a worktree or a submodule.
pub fn gitfile_target(file: &str, contents: &str) -> (r: Option<String>)
    ensures
        crate::text::opt_chars(r) == gitfile_target_of(file@, contents@),
{
    let c = chars_of(contents);
    let marker = chars_of("gitdir:");
    match strip_prefix_chars(&c, &marker) {
        None => None,
        Some(after) => {
            let target = trim_chars(&after);
            if target.len() == 0 {
                None
            } else if target[0] == '/' {
                Some(string_of(&target))
            } else {
                match crate::path::parent(file) {
                    Some(dir) => {
                        let target = string_of(&target);
                        Some(join(dir.as_str(), target.as_str()))
                    },
                    None => None,
                }
            }
        },
    }
}

/// The first exact tag, from what `git for-each-ref --count=1
/// --sort=refname --points-at HEAD` reported. No success means no tag.
pub fn tag_from_output(success: bool, stdout: Vec<u8>) -> (r: Option<String>)
    ensures
        crate::text::opt_chars(r) == tag_of_output(success, stdout@),
{
    if !success {
        return None;
    }
    match decode(stdout) {
        Some(text) => match first_line_chars(&text) {
            Some(line) => Some(string_of(&line)),
            None => None,
        },
        None => None,
    }
}

/// What the caller found at a ".git" path.
#[derive(Clone, Copy, Debug, PartialEq, Eq, Structural)]
pub enum Entry {
    Directory,
    File,
    Absent,
}

/// What discovery needs next, or what it found.
#[derive(Debug, PartialEq)]
pub enum Discovery {
    /// Look at this ".git" path and report what is there.
    Probe(String),
    /// This ".git" directory is the git directory.
    GitDir(String),
    /// This ".git" file names the git directory; read it.
    GitFile(String),
    /// No ancestor has a ".git": there is no repository.
    NotFound,
}

/// Finds the git directory owning a start directory by walking up to the
/// filesystem root. No ceiling and no filesystem check, unlike git itself:
/// the prompt crossing a mount point is cheaper than the syscalls to notice
/// it. The caller answers each probe; the walk stops at the first ".git".
pub struct Discoverer {
    dirs: Vec<String>,
    at: usize,
}

impl Discoverer {
    /// The directories to walk, nearest first.
    pub closed spec fn dirs(&self) -> Seq<Seq<char>> {
        string_views(self.dirs@)
    }

    /// How many of them have been looked at and found without a ".git".
    pub closed spec fn position(&self) -> nat {
        self.at as nat
    }

    pub closed spec fn wf(&self) -> bool {
        self.at <= self.dirs@.len()
    }

    /// What the walk asks for in its current state.
    pub open spec fn next_action(&self, d: Discovery) -> bool {
        if self.position() < self.dirs().len() {
            d matches Discovery::Probe(p) && p@ == dot_git_of(self.dirs()[self.position() as int])
        } else {
            d matches Discovery::NotFound
        }
    }

    /// A walk that starts at `start`, a physical path: discovery walks its
    /// ancestors, and a symlinked path has different ones.
    pub fn new(start: &str) -> (d: Self)
        ensures
            d.wf(),
            d.dirs() == ancestors_of(start@),
            d.position() == 0,
    {
        Discoverer { dirs: ancestors(start), at: 0 }
    }

    /// The next ".git" path to look at, or `NotFound` once every ancestor
    /// has been looked at.
    pub fn action(&self) -> (d: Discovery)
        requires
            self.wf(),
        ensures
            self.next_action(d),
    {
        if self.at < self.dirs.len() {
            Discovery::Probe(join(self.dirs[self.at].as_str(), ".git"))
        } else {
            Discovery::NotFound
        }
    }

    /// Takes what the last probe found. A directory is the git directory, a
    /// file is followed; nothing there moves the walk one directory up.
    pub fn observe(&mut self, found: Entry) -> (d: Discovery)
        requires
            old(self).wf(),
            old(self).position() < old(self).dirs().len(),
        ensures
            final(self).wf(),
            final(self).dirs() == old(self).dirs(),
            found == Entry::Directory ==> final(self).position() == old(self).position() && (
            d matches Discovery::GitDir(p) && p@ == dot_git_of(
                old(self).dirs()[old(self).position() as int],
            )),
            found == Entry::File ==> final(self).position() == old(self).position() && (
            d matches Discovery::GitFile(p) && p@ == dot_git_of(
                old(self).dirs()[old(self).position() as int],
            )),
            found == Entry::Absent ==> final(self).position() == old(self).position() + 1
                && final(self).next_action(d),
    {
        match found {
            Entry::Directory => Discovery::GitDir(join(self.dirs[self.at].as_str(), ".git")),
            Entry::File => Discovery::GitFile(join(self.dirs[self.at].as_str(), ".git")),
            Entry::Absent => {
                assert(self.dirs@.len() == self.dirs().len());
                let n: usize = self.dirs.len();
                assert(self.at < n);
                self.at = self.at + 1;
                self.action()
            },
        }
    }
}


// ---------------------------------------------------------------------------
// Laws
// ---------------------------------------------------------------------------

/// A branch name keeps its slashes: the target "refs/heads/<name>" names the
/// branch `name` whole.
pub proof fn lemma_branch_keeps_slashes(name: Seq<char>)
    requires
        name.len() > 0,
    ensures
        branch_of_target("refs/heads/"@ + name) == Some(name),
{
    let p = "refs/heads/"@;
    assert((p + name).take(p.len() as int) == p);
    assert((p + name).skip(p.len() as int) == name);
}

/// A target outside refs/heads shows its last '/'-separated piece.
pub proof fn lemma_other_target_shows_last_piece(target: Seq<char>)
    requires
        strip_prefix(target, "refs/heads/"@) is None,
        split_slash(target).last().len() > 0,
    ensures
        branch_of_target(target) == Some(split_slash(target).last()),
{
}

/// The HEAD git writes for a branch reads back as that branch: "ref:
/// refs/heads/<name>" and a newline names `name`, for any nonempty name
/// that does not end in white space.
pub proof fn lemma_branch_head_reads_back(name: Seq<char>)
    requires
        name.len() > 0,
        !is_white_space(name.last()),
    ensures
        head_of_contents("ref: refs/heads/"@ + name + seq!['\n']) == Some(HeadView::Branch(name)),
{
    reveal_strlit("ref: refs/heads/");
    reveal_strlit("ref:");
    reveal_strlit("refs/heads/");
    let lit = "ref: refs/heads/"@;
    let body = lit + name;
    assert(body.last() == name.last());
    assert(body[0] == 'r');
    lemma_trim_end_newline(body);
    assert((body + seq!['\n'])[0] == 'r');
    lemma_trim_start_keeps(body + seq!['\n']);
    assert(trim(body + seq!['\n']) == body);
    assert(body.take(4) =~= "ref:"@);
    let target = body.skip(4);
    assert(target =~= seq![' '] + ("refs/heads/"@ + name));
    assert(is_white_space(' '));
    assert(target.drop_first() =~= "refs/heads/"@ + name);
    let inner = "refs/heads/"@ + name;
    assert(inner[0] == 'r');
    assert(inner.last() == name.last());
    lemma_trim_keeps(inner);
    assert(trim_start(target) == trim_start(inner));
    assert(trim(target) == inner);
    lemma_branch_keeps_slashes(name);
}

/// The HEAD git writes for a detached checkout reads back as that commit:
/// a SHA-1 and a newline names the SHA-1.
pub proof fn lemma_detached_head_reads_back(sha: Seq<char>)
    requires
        is_sha_text(sha),
    ensures
        head_of_contents(sha + seq!['\n']) == Some(HeadView::Detached(sha)),
{
    reveal_strlit("ref:");
    assert(is_lower_hex(sha[0]));
    assert(is_lower_hex(sha[39]));
    assert(sha.last() == sha[39]);
    lemma_trim_end_newline(sha);
    assert((sha + seq!['\n'])[0] == sha[0]);
    lemma_trim_start_keeps(sha + seq!['\n']);
    assert(sha.take(4)[0] == sha[0]);
    assert(sha.take(4) != "ref:"@);
}

/// A ".git" file written as "gitdir: <target>" and a newline leads to the
/// target when it is absolute, and to the target below the file's own
/// directory when it is relative.
pub proof fn lemma_gitfile_leads_to_target(file: Seq<char>, target: Seq<char>)
    requires
        target.len() > 0,
        !is_white_space(target[0]),
        !is_white_space(target.last()),
    ensures
        gitfile_target_of(file, "gitdir: "@ + target + seq!['\n']) == if has_root(target) {
            Some(target)
        } else {
            match parent_text(file) {
                Some(dir) => Some(join_text(dir, target)),
                None => None,
            }
        },
{
    reveal_strlit("gitdir: ");
    reveal_strlit("gitdir:");
    let c = "gitdir: "@ + target + seq!['\n'];
    assert(c.take(7) =~= "gitdir:"@);
    let after = c.skip(7);
    assert(after =~= seq![' '] + (target + seq!['\n']));
    assert(is_white_space(' '));
    assert(after.drop_first() =~= target + seq!['\n']);
    assert((target + seq!['\n'])[0] == target[0]);
    lemma_trim_start_keeps(target + seq!['\n']);
    lemma_trim_end_newline(target);
    lemma_trim_start_keeps(target);
    assert(trim(after) == target);
}

/// A tag git prints on a line of its own is the tag reported.
pub proof fn lemma_tag_line_reads_back(tag: Seq<char>)
    requires
        forall|i: int| 0 <= i < tag.len() ==> tag[i] != '\n',
        tag.len() > 0 ==> tag.last() != '\r',
    ensures
        tag_of_output(true, vstd::utf8::encode_utf8(tag + seq!['\n'])) == Some(tag),
{
    let s = tag + seq!['\n'];
    vstd::utf8::encode_utf8_valid_utf8(s);
    vstd::utf8::encode_utf8_decode_utf8(s);
    lemma_line_end_at(s, tag.len() as int);
    assert(s.take(tag.len() as int) == tag);
}


/// Every string of 40 lowercase hexadecimal digits is a SHA-1, whatever its
/// first digit, and nothing else is.
pub proof fn lemma_sha_is_forty_lower_hex(s: Seq<char>)
    ensures
        is_sha_text(s) <==> (s.len() == 40 && forall|i: int|
            0 <= i < 40 ==> ('0' <= #[trigger] s[i] && s[i] <= '9') || ('a' <= s[i] && s[i]
                <= 'f')),
{
    assert(('0' as u32) == 0x30 && ('9' as u32) == 0x39 && ('a' as u32) == 0x61 && ('f' as u32)
        == 0x66);
    if s.len() == 40 {
        assert forall|i: int| 0 <= i < 40 implies is_lower_hex(#[trigger] s[i]) == (('0' <= s[i]
            && s[i] <= '9') || ('a' <= s[i] && s[i] <= 'f')) by {
            vstd::utf8::char_u32_cast(s[i], s[i] as u32);
        }
    }
}

/// A HEAD holding 40 lowercase hexadecimal digits and a newline is that
/// commit, detached, whatever the digits are.
pub proof fn lemma_any_hex_commit_is_detached(sha: Seq<char>)
    requires
        sha.len() == 40,
        forall|i: int|
            0 <= i < 40 ==> ('0' <= #[trigger] sha[i] && sha[i] <= '9') || ('a' <= sha[i]
                && sha[i] <= 'f'),
    ensures
        head_of_contents(sha + seq!['\n']) == Some(HeadView::Detached(sha)),
{
    lemma_sha_is_forty_lower_hex(sha);
    lemma_detached_head_reads_back(sha);
}

/// The ".git" entry of a directory is the directory, a separator, and
/// ".git"; no separator is doubled when the directory already ends in one.
pub proof fn lemma_dot_git_entry(dir: Seq<char>)
    ensures
        dir.len() > 0 && dir.last() != '/' ==> dot_git_of(dir) == dir + seq![
            '/',
            '.',
            'g',
            'i',
            't',
        ],
        dir.len() == 0 || dir.last() == '/' ==> dot_git_of(dir) == dir + seq!['.', 'g', 'i', 't'],
{
    reveal_strlit(".git");
    assert(!has_root(".git"@));
    assert(dir + seq!['/'] + ".git"@ =~= dir + seq!['/', '.', 'g', 'i', 't']);
    assert(dir + ".git"@ =~= dir + seq!['.', 'g', 'i', 't']);
}

/// The walk has no ceiling: as long as some ancestor is left unprobed, the
/// next step probes the ".git" of the nearest one, at any height; it
/// reports no repository only once every ancestor has been probed.
pub proof fn lemma_walk_probes_every_ancestor(d: Discoverer, act: Discovery)
    requires
        d.wf(),
        d.next_action(act),
    ensures
        d.position() < d.dirs().len() ==> (act matches Discovery::Probe(p) && p@ == dot_git_of(
            d.dirs()[d.position() as int],
        )),
        act matches Discovery::NotFound ==> d.position() >= d.dirs().len(),
        !(act matches Discovery::GitDir(_)) && !(act matches Discovery::GitFile(_)),
{
}


/// Whatever a HEAD holds, what it names is a nonempty branch or a full
/// SHA-1; everything else gives no repository information.
pub proof fn lemma_head_names_branch_or_commit(contents: Seq<char>)
    ensures
        head_of_contents(contents) matches Some(HeadView::Branch(name)) ==> name.len() > 0,
        head_of_contents(contents) matches Some(HeadView::Detached(sha)) ==> is_sha_text(sha),
{
}

/// A ".git" file that does not start with "gitdir:", or names an empty
/// target, leads nowhere.
pub proof fn lemma_gitfile_needs_a_target(file: Seq<char>, contents: Seq<char>)
    ensures
        strip_prefix(contents, "gitdir:"@) is None ==> gitfile_target_of(file, contents) is None,
        strip_prefix(contents, "gitdir:"@) matches Some(after) && trim(after).len() == 0
            ==> gitfile_target_of(file, contents) is None,
        gitfile_target_of(file, contents) matches Some(t) ==> t.len() > 0,
{
    if let Some(after) = strip_prefix(contents, "gitdir:"@) {
        let target = trim(after);
        if target.len() > 0 && !has_root(target) {
            if let Some(dir) = parent_text(file) {
                assert(join_text(dir, target).len() >= target.len());
            }
        }
    }
}

/// No tag unless git succeeded and printed valid UTF-8.
pub proof fn lemma_no_tag_without_success(success: bool, stdout: Seq<u8>)
    ensures
        !success ==> tag_of_output(success, stdout) is None,
        !valid_utf8(stdout) ==> tag_of_output(success, stdout) is None,
        success && stdout.len() == 0 ==> tag_of_output(success, stdout) is None,
{
    if success && stdout.len() == 0 {
        assert(valid_utf8(stdout));
        assert(decode_utf8(stdout).len() == 0);
    }
}

} // verus!
