//! Paths as text, with the component structure of a Unix `std::path::Path`.
//!
//! A path is an optional head (a root "/" or a leading "." directory) and a
//! body of segments between '/' separators. Empty and "." segments in the
//! body are no components; every other segment is one. Matching one path
//! against another works on these components, never on raw text.

use vstd::prelude::*;

use crate::text::{chars_of, chars_eq, concat, slice_of, string_of};

verus! {

// ---------------------------------------------------------------------------
// The model
// ---------------------------------------------------------------------------

/// The pieces of `s` between '/' separators: one more than the separators.
pub open spec fn split_slash(s: Seq<char>) -> Seq<Seq<char>>
    decreases s.len(),
{
    if s.len() == 0 {
        seq![Seq::<char>::empty()]
    } else {
        let pieces = split_slash(s.drop_last());
        if s.last() == '/' {
            pieces.push(Seq::<char>::empty())
        } else {
            pieces.update(pieces.len() - 1, pieces.last().push(s.last()))
        }
    }
}

/// The pieces put back together with '/' between them.
pub open spec fn join_slash(segs: Seq<Seq<char>>) -> Seq<char>
    decreases segs.len(),
{
    if segs.len() == 0 {
        Seq::<char>::empty()
    } else if segs.len() == 1 {
        segs[0]
    } else {
        join_slash(segs.drop_last()) + seq!['/'] + segs.last()
    }
}

/// The path starts at the root.
pub open spec fn has_root(s: Seq<char>) -> bool {
    s.len() > 0 && s[0] == '/'
}

/// A relative path that starts with a "." directory of its own.
pub open spec fn has_cur_head(s: Seq<char>) -> bool {
    !has_root(s) && s.len() > 0 && s[0] == '.' && (s.len() == 1 || s[1] == '/')
}

/// The length of the head: the root "/" or the leading ".", when there is one.
pub open spec fn head_len(s: Seq<char>) -> nat {
    if has_root(s) || has_cur_head(s) {
        1
    } else {
        0
    }
}

/// The head's text: "/", "." or nothing.
pub open spec fn head_text(s: Seq<char>) -> Seq<char> {
    s.take(head_len(s) as int)
}

/// The segments of everything after the head.
pub open spec fn body_segments(s: Seq<char>) -> Seq<Seq<char>> {
    split_slash(s.skip(head_len(s) as int))
}

/// A segment that names nothing: empty, or the current directory.
pub open spec fn is_junk(seg: Seq<char>) -> bool {
    seg.len() == 0 || seg == seq!['.']
}

/// The segments that name something, in order.
pub open spec fn named(segs: Seq<Seq<char>>) -> Seq<Seq<char>>
    decreases segs.len(),
{
    if segs.len() == 0 {
        segs
    } else if is_junk(segs.last()) {
        named(segs.drop_last())
    } else {
        named(segs.drop_last()).push(segs.last())
    }
}

/// The components of a path, each by its text: "/" for the root, "." for a
/// leading current directory, then every named body segment (".." included).
/// No named segment can be "/" or ".", so equal texts are equal components.
pub open spec fn components(s: Seq<char>) -> Seq<Seq<char>> {
    if head_len(s) == 1 {
        seq![head_text(s)] + named(body_segments(s))
    } else {
        named(body_segments(s))
    }
}

/// `a` is an initial run of `b`.
pub open spec fn is_prefix_of(a: Seq<Seq<char>>, b: Seq<Seq<char>>) -> bool {
    a.len() <= b.len() && b.take(a.len() as int) == a
}

/// `segs` past its first `n` named segments.
pub open spec fn after_named(segs: Seq<Seq<char>>, n: nat) -> Seq<Seq<char>>
    decreases segs.len(),
{
    if n == 0 || segs.len() == 0 {
        segs
    } else if is_junk(segs[0]) {
        after_named(segs.drop_first(), n)
    } else {
        after_named(segs.drop_first(), (n - 1) as nat)
    }
}

/// `segs` without the junk segments in front.
pub open spec fn drop_leading_junk(segs: Seq<Seq<char>>) -> Seq<Seq<char>>
    decreases segs.len(),
{
    if segs.len() > 0 && is_junk(segs[0]) {
        drop_leading_junk(segs.drop_first())
    } else {
        segs
    }
}

/// `segs` without the junk segments at the end.
pub open spec fn drop_trailing_junk(segs: Seq<Seq<char>>) -> Seq<Seq<char>>
    decreases segs.len(),
{
    if segs.len() > 0 && is_junk(segs.last()) {
        drop_trailing_junk(segs.drop_last())
    } else {
        segs
    }
}

/// What is left of `s` once its first `k` components are matched away, as
/// `Path::strip_prefix` leaves it: separators and "." segments are trimmed
/// from both ends. Matching nothing leaves the whole path, trimmed only at
/// its end and never into its head.
pub open spec fn remainder(s: Seq<char>, k: nat) -> Seq<char> {
    if k == 0 {
        head_text(s) + join_slash(drop_trailing_junk(body_segments(s)))
    } else {
        join_slash(
            drop_trailing_junk(
                drop_leading_junk(after_named(body_segments(s), (k - head_len(s)) as nat)),
            ),
        )
    }
}

/// The path as the prompt shows it: with `home`'s components as its leading
/// components, "~" for home itself and "~/rest" below it; unchanged
/// otherwise, or with no home.
pub open spec fn display_text(path: Seq<char>, home: Option<Seq<char>>) -> Seq<char> {
    match home {
        Some(h) => if is_prefix_of(components(h), components(path)) {
            let rest = remainder(path, components(h).len());
            if rest.len() == 0 {
                seq!['~']
            } else {
                seq!['~', '/'] + rest
            }
        } else {
            path
        },
        None => path,
    }
}

/// The index of the last named segment, or -1 when there is none.
pub open spec fn last_named_index(segs: Seq<Seq<char>>) -> int
    decreases segs.len(),
{
    if segs.len() == 0 {
        -1
    } else if !is_junk(segs.last()) {
        segs.len() - 1
    } else {
        last_named_index(segs.drop_last())
    }
}

/// `Path::parent`: the path without its last component, trimmed at its end
/// but never into its head. Nothing for the root alone and the empty path;
/// the empty path for a lone ".".
pub open spec fn parent_text(s: Seq<char>) -> Option<Seq<char>> {
    let segs = body_segments(s);
    let j = last_named_index(segs);
    if j >= 0 {
        Some(head_text(s) + join_slash(drop_trailing_junk(segs.take(j))))
    } else if has_cur_head(s) {
        Some(Seq::<char>::empty())
    } else {
        None
    }
}

/// `Path::join` (`PathBuf::push`): an absolute `child` replaces `base`;
/// otherwise `child` follows `base`, with a '/' between them unless `base`
/// is empty or already ends in one.
pub open spec fn join_text(base: Seq<char>, child: Seq<char>) -> Seq<char> {
    if has_root(child) {
        child
    } else if base.len() > 0 && base.last() != '/' {
        base + seq!['/'] + child
    } else {
        base + child
    }
}

/// `Path::ancestors`: the path itself, then each parent in turn until there
/// is none.
pub open spec fn ancestors_of(s: Seq<char>) -> Seq<Seq<char>>
    decreases s.len(),
{
    match parent_text(s) {
        Some(p) => {
            proof {
                lemma_parent_shorter(s);
            }
            seq![s] + ancestors_of(p)
        },
        None => seq![s],
    }
}

/// The characters of each vector.
pub open spec fn views(v: Seq<Vec<char>>) -> Seq<Seq<char>> {
    v.map_values(|x: Vec<char>| x@)
}

/// The characters of each string.
pub open spec fn string_views(v: Seq<String>) -> Seq<Seq<char>> {
    v.map_values(|x: String| x@)
}

// ---------------------------------------------------------------------------
// Lemmas about the model
// ---------------------------------------------------------------------------

/// Splitting on '/' loses nothing: the pieces join back to the text.
pub proof fn lemma_split_join(s: Seq<char>)
    ensures
        split_slash(s).len() >= 1,
        join_slash(split_slash(s)) == s,
    decreases s.len(),
{
    if s.len() > 0 {
        let pieces = split_slash(s.drop_last());
        lemma_split_join(s.drop_last());
        if s.last() == '/' {
            let p2 = pieces.push(Seq::<char>::empty());
            assert(p2.drop_last() == pieces);
            assert(join_slash(p2) =~= s);
        } else {
            let p2 = pieces.update(pieces.len() - 1, pieces.last().push(s.last()));
            assert(s == s.drop_last().push(s.last()));
            if pieces.len() == 1 {
                assert(join_slash(p2) =~= s);
            } else {
                assert(p2.drop_last() =~= pieces.drop_last());
                assert(join_slash(pieces) == join_slash(pieces.drop_last()) + seq!['/']
                    + pieces.last());
                assert(join_slash(p2) == join_slash(pieces.drop_last()) + seq!['/']
                    + pieces.last().push(s.last()));
                assert(join_slash(p2) =~= s);
            }
        }
    }
}

proof fn lemma_join_take_len(segs: Seq<Seq<char>>, m: int)
    requires
        0 <= m < segs.len(),
    ensures
        join_slash(segs.take(m)).len() + segs[m].len() <= join_slash(segs).len(),
    decreases segs.len(),
{
    if m == segs.len() - 1 {
        assert(segs.take(m) == segs.drop_last());
    } else {
        lemma_join_take_len(segs.drop_last(), m);
        assert(segs.drop_last().take(m) == segs.take(m));
    }
}

proof fn lemma_join_drop_trailing_len(segs: Seq<Seq<char>>)
    ensures
        join_slash(drop_trailing_junk(segs)).len() <= join_slash(segs).len(),
    decreases segs.len(),
{
    if segs.len() > 0 && is_junk(segs.last()) {
        lemma_join_drop_trailing_len(segs.drop_last());
        if segs.len() >= 2 {
            lemma_join_take_len(segs, segs.len() - 2);
            lemma_join_take_len(segs.drop_last(), segs.len() - 2);
            assert(segs.drop_last().take(segs.len() - 2) == segs.take(segs.len() - 2));
        }
    }
}

proof fn lemma_last_named_index(segs: Seq<Seq<char>>)
    ensures
        -1 <= last_named_index(segs) < segs.len(),
        last_named_index(segs) >= 0 ==> !is_junk(segs[last_named_index(segs)]),
        forall|k: int| last_named_index(segs) < k < segs.len() ==> is_junk(#[trigger] segs[k]),
    decreases segs.len(),
{
    if segs.len() > 0 && is_junk(segs.last()) {
        lemma_last_named_index(segs.drop_last());
        assert forall|k: int| last_named_index(segs) < k < segs.len() implies is_junk(
            #[trigger] segs[k],
        ) by {
            if k < segs.len() - 1 {
                assert(segs[k] == segs.drop_last()[k]);
            }
        }
    }
}

/// A parent is strictly shorter than its path.
pub proof fn lemma_parent_shorter(s: Seq<char>)
    ensures
        parent_text(s) matches Some(p) ==> p.len() < s.len(),
{
    let body = s.skip(head_len(s) as int);
    let segs = body_segments(s);
    lemma_split_join(body);
    lemma_last_named_index(segs);
    let j = last_named_index(segs);
    if j >= 0 {
        lemma_join_take_len(segs, j);
        lemma_join_drop_trailing_len(segs.take(j));
    }
}

// ---------------------------------------------------------------------------
// Executable pieces of the model
// ---------------------------------------------------------------------------

proof fn lemma_views_push(v: Seq<Vec<char>>, x: Vec<char>)
    ensures
        views(v.push(x)) == views(v).push(x@),
{
    assert(views(v.push(x)) =~= views(v).push(x@));
}

fn is_junk_segment(seg: &Vec<char>) -> (r: bool)
    ensures
        r == is_junk(seg@),
{
    if seg.len() == 0 {
        true
    } else if seg.len() == 1 && seg[0] == '.' {
        assert(seg@ =~= seq!['.']);
        true
    } else {
        assert(seg@.len() != 1 ==> seg@ != seq!['.']);
        false
    }
}

fn copy_segments(segs: &Vec<Vec<char>>, lo: usize, hi: usize) -> (r: Vec<Vec<char>>)
    requires
        lo <= hi <= segs.len(),
    ensures
        views(r@) == views(segs@).subrange(lo as int, hi as int),
{
    let mut r: Vec<Vec<char>> = Vec::new();
    let mut i: usize = lo;
    while i < hi
        invariant
            lo <= i <= hi <= segs.len(),
            views(r@) == views(segs@).subrange(lo as int, i as int),
        decreases hi - i,
    {
        let seg = slice_of(&segs[i], 0, segs[i].len());
        assert(seg@ == segs@[i as int]@);
        proof {
            lemma_views_push(r@, seg);
        }
        r.push(seg);
        assert(views(segs@).subrange(lo as int, i + 1) =~= views(segs@).subrange(
            lo as int,
            i as int,
        ).push(segs@[i as int]@));
        i += 1;
    }
    r
}

fn split_segments(s: &Vec<char>) -> (r: Vec<Vec<char>>)
    ensures
        views(r@) == split_slash(s@),
{
    let mut done: Vec<Vec<char>> = Vec::new();
    let mut cur: Vec<char> = Vec::new();
    let mut i: usize = 0;
    assert(views(done@).push(cur@) =~= split_slash(s@.take(0)));
    while i < s.len()
        invariant
            i <= s.len(),
            views(done@).push(cur@) == split_slash(s@.take(i as int)),
        decreases s.len() - i,
    {
        let ghost before = views(done@).push(cur@);
        assert(s@.take(i + 1).drop_last() == s@.take(i as int));
        if s[i] == '/' {
            done.push(cur);
            cur = Vec::new();
            assert(views(done@).push(cur@) =~= before.push(Seq::<char>::empty()));
        } else {
            cur.push(s[i]);
            assert(views(done@).push(cur@) =~= before.update(
                before.len() - 1,
                before.last().push(s@[i as int]),
            ));
        }
        i += 1;
    }
    assert(s@.take(s.len() as int) == s@);
    done.push(cur);
    assert(views(done@) =~= split_slash(s@));
    done
}

fn join_segments(segs: &Vec<Vec<char>>) -> (r: Vec<char>)
    ensures
        r@ == join_slash(views(segs@)),
{
    if segs.len() == 0 {
        return Vec::new();
    }
    let mut out = slice_of(&segs[0], 0, segs[0].len());
    let mut i: usize = 1;
    assert(views(segs@).take(1) =~= seq![segs@[0]@]);
    while i < segs.len()
        invariant
            1 <= i <= segs.len(),
            out@ == join_slash(views(segs@).take(i as int)),
        decreases segs.len() - i,
    {
        let ghost pre = views(segs@).take(i as int);
        out.push('/');
        out = concat(&out, &segs[i]);
        assert(views(segs@).take(i + 1).drop_last() =~= pre);
        i += 1;
    }
    assert(views(segs@).take(segs.len() as int) =~= views(segs@));
    out
}

fn named_segments(segs: &Vec<Vec<char>>) -> (r: Vec<Vec<char>>)
    ensures
        views(r@) == named(views(segs@)),
{
    let mut out: Vec<Vec<char>> = Vec::new();
    let mut i: usize = 0;
    assert(views(segs@).take(0) =~= Seq::<Seq<char>>::empty());
    assert(views(out@) =~= Seq::<Seq<char>>::empty());
    while i < segs.len()
        invariant
            i <= segs.len(),
            views(out@) == named(views(segs@).take(i as int)),
        decreases segs.len() - i,
    {
        assert(views(segs@).take(i + 1).drop_last() =~= views(segs@).take(i as int));
        if !is_junk_segment(&segs[i]) {
            let seg = slice_of(&segs[i], 0, segs[i].len());
            assert(seg@ =~= segs@[i as int]@);
            let ghost before = views(out@);
            proof {
                lemma_views_push(out@, seg);
            }
            out.push(seg);
            assert(views(out@) =~= before.push(segs@[i as int]@));
        }
        i += 1;
    }
    assert(views(segs@).take(segs.len() as int) =~= views(segs@));
    out
}

/// The head length of `s` and the segments of its body.
fn split_path(s: &Vec<char>) -> (r: (usize, Vec<Vec<char>>))
    ensures
        r.0 == head_len(s@),
        views(r.1@) == body_segments(s@),
{
    let head: usize = if s.len() > 0 && s[0] == '/' {
        1
    } else if s.len() > 0 && s[0] == '.' && (s.len() == 1 || s[1] == '/') {
        1
    } else {
        0
    };
    let body = slice_of(s, head, s.len());
    assert(body@ == s@.skip(head as int));
    (head, split_segments(&body))
}

fn components_of(s: &Vec<char>) -> (r: Vec<Vec<char>>)
    ensures
        views(r@) == components(s@),
{
    let (head, segs) = split_path(s);
    let names = named_segments(&segs);
    if head == 1 {
        let mut r: Vec<Vec<char>> = Vec::new();
        r.push(slice_of(s, 0, 1));
        let mut i: usize = 0;
        while i < names.len()
            invariant
                i <= names.len(),
                views(r@) == seq![head_text(s@)] + views(names@).take(i as int),
            decreases names.len() - i,
        {
            let seg = slice_of(&names[i], 0, names[i].len());
            assert(seg@ =~= names@[i as int]@);
            assert(views(names@).take(i + 1) =~= views(names@).take(i as int).push(names@[i as int]@));
            proof {
                lemma_views_push(r@, seg);
            }
            r.push(seg);
            assert(views(r@) =~= seq![head_text(s@)] + views(names@).take(i + 1));
            i += 1;
        }
        assert(views(names@).take(names.len() as int) =~= views(names@));
        r
    } else {
        names
    }
}

fn prefix_of(a: &Vec<Vec<char>>, b: &Vec<Vec<char>>) -> (r: bool)
    ensures
        r == is_prefix_of(views(a@), views(b@)),
{
    if a.len() > b.len() {
        return false;
    }
    let mut i: usize = 0;
    while i < a.len()
        invariant
            i <= a.len() <= b.len(),
            forall|k: int| 0 <= k < i ==> a@[k]@ == b@[k]@,
        decreases a.len() - i,
    {
        if !chars_eq(&a[i], &b[i]) {
            assert(views(b@).take(a.len() as int)[i as int] != views(a@)[i as int]);
            return false;
        }
        i += 1;
    }
    assert(views(b@).take(a.len() as int) =~= views(a@));
    true
}

fn after_named_segments(segs: &Vec<Vec<char>>, n: usize) -> (r: Vec<Vec<char>>)
    ensures
        views(r@) == after_named(views(segs@), n as nat),
{
    let mut i: usize = 0;
    let mut m: usize = n;
    assert(views(segs@).skip(0) =~= views(segs@));
    while m > 0 && i < segs.len()
        invariant
            i <= segs.len(),
            m <= n,
            after_named(views(segs@), n as nat) == after_named(
                views(segs@).skip(i as int),
                m as nat,
            ),
        decreases segs.len() - i,
    {
        assert(views(segs@).skip(i as int).drop_first() =~= views(segs@).skip(i + 1));
        if !is_junk_segment(&segs[i]) {
            m -= 1;
        }
        i += 1;
    }
    assert(views(segs@).skip(i as int) =~= views(segs@).subrange(i as int, segs.len() as int));
    copy_segments(segs, i, segs.len())
}

proof fn lemma_drop_leading_at(segs: Seq<Seq<char>>, i: int)
    requires
        0 <= i <= segs.len(),
        forall|k: int| 0 <= k < i ==> is_junk(#[trigger] segs[k]),
        i == segs.len() || !is_junk(segs[i]),
    ensures
        drop_leading_junk(segs) == segs.skip(i),
    decreases i,
{
    if i == 0 {
        assert(segs.skip(0) == segs);
    } else {
        assert(is_junk(segs[0]));
        lemma_drop_leading_at(segs.drop_first(), i - 1);
        assert(segs.drop_first().skip(i - 1) == segs.skip(i));
    }
}

proof fn lemma_drop_trailing_at(segs: Seq<Seq<char>>, j: int)
    requires
        0 <= j <= segs.len(),
        forall|k: int| j <= k < segs.len() ==> is_junk(#[trigger] segs[k]),
        j == 0 || !is_junk(segs[j - 1]),
    ensures
        drop_trailing_junk(segs) == segs.take(j),
    decreases segs.len() - j,
{
    if j == segs.len() {
        assert(segs.take(j) == segs);
    } else {
        assert(is_junk(segs.last()));
        lemma_drop_trailing_at(segs.drop_last(), j);
        assert(segs.drop_last().take(j) == segs.take(j));
    }
}

fn trimmed_segments(segs: &Vec<Vec<char>>, leading: bool) -> (r: Vec<Vec<char>>)
    ensures
        leading ==> views(r@) == drop_trailing_junk(drop_leading_junk(views(segs@))),
        !leading ==> views(r@) == drop_trailing_junk(views(segs@)),
{
    let mut i: usize = 0;
    if leading {
        while i < segs.len() && is_junk_segment(&segs[i])
            invariant
                i <= segs.len(),
                forall|k: int| 0 <= k < i ==> is_junk(#[trigger] views(segs@)[k]),
            decreases segs.len() - i,
        {
            i += 1;
        }
    }
    let ghost s = views(segs@);
    let ghost t = s.skip(i as int);
    proof {
        if leading {
            lemma_drop_leading_at(s, i as int);
        } else {
            assert(t == s);
        }
    }
    let mut j: usize = segs.len();
    while j > i && is_junk_segment(&segs[j - 1])
        invariant
            i <= j <= segs.len(),
            forall|k: int| j <= k < segs.len() ==> is_junk(#[trigger] views(segs@)[k]),
        decreases j,
    {
        j -= 1;
    }
    proof {
        assert forall|k: int| j - i <= k < t.len() implies is_junk(#[trigger] t[k]) by {
            assert(t[k] == s[k + i]);
        }
        if j > i {
            assert(t[j - i - 1] == s[j - 1]);
        }
        lemma_drop_trailing_at(t, j - i);
        assert(t.take(j - i) =~= s.subrange(i as int, j as int));
    }
    copy_segments(segs, i, j)
}

fn remainder_of(s: &Vec<char>, k: usize) -> (r: Vec<char>)
    ensures
        r@ == remainder(s@, k as nat),
{
    let (head, segs) = split_path(s);
    if k == 0 {
        let kept = trimmed_segments(&segs, false);
        let tail = join_segments(&kept);
        let h = slice_of(s, 0, head);
        concat(&h, &tail)
    } else {
        let n: usize = if k >= head {
            k - head
        } else {
            0
        };
        let rest = after_named_segments(&segs, n);
        let kept = trimmed_segments(&rest, true);
        join_segments(&kept)
    }
}

fn last_named(segs: &Vec<Vec<char>>) -> (r: Option<usize>)
    ensures
        r matches Some(j) ==> j as int == last_named_index(views(segs@)),
        r is None ==> last_named_index(views(segs@)) == -1,
{
    let mut j: usize = segs.len();
    assert(views(segs@).take(j as int) =~= views(segs@));
    while j > 0 && is_junk_segment(&segs[j - 1])
        invariant
            j <= segs.len(),
            last_named_index(views(segs@)) == last_named_index(views(segs@).take(j as int)),
        decreases j,
    {
        assert(views(segs@).take(j as int).drop_last() =~= views(segs@).take(j - 1));
        j -= 1;
    }
    if j == 0 {
        None
    } else {
        Some(j - 1)
    }
}

fn parent_chars(s: &Vec<char>) -> (r: Option<Vec<char>>)
    ensures
        match r {
            Some(p) => parent_text(s@) == Some(p@),
            None => parent_text(s@) is None,
        },
{
    let (head, segs) = split_path(s);
    assert(views(segs@).take(segs.len() as int) =~= views(segs@));
    proof {
        lemma_last_named_index(views(segs@));
    }
    match last_named(&segs) {
        Some(j) => {
            let before = copy_segments(&segs, 0, j);
            assert(views(before@) =~= views(segs@).take(j as int));
            let kept = trimmed_segments(&before, false);
            let tail = join_segments(&kept);
            let h = slice_of(s, 0, head);
            Some(concat(&h, &tail))
        },
        None => {
            if s.len() > 0 && s[0] == '.' && (s.len() == 1 || s[1] == '/') {
                Some(Vec::new())
            } else {
                None
            }
        },
    }
}

// ---------------------------------------------------------------------------
// The public operations
// ---------------------------------------------------------------------------

/// Render with the home directory abbreviated to ~. The prefix match works
/// on components, so a sibling like /home/userx keeps its full path.
pub fn display(path: &str, home: Option<&str>) -> (r: String)
    ensures
        r@ == display_text(path@, crate::text::opt_str_chars(home)),
{
    match home {
        None => String::from_str(path),
        Some(h) => {
            let p = chars_of(path);
            let hv = chars_of(h);
            let pc = components_of(&p);
            let hc = components_of(&hv);
            if prefix_of(&hc, &pc) {
                let rest = remainder_of(&p, hc.len());
                if rest.len() == 0 {
                    let mut t: Vec<char> = Vec::new();
                    t.push('~');
                    assert(t@ =~= seq!['~']);
                    string_of(&t)
                } else {
                    let mut t: Vec<char> = Vec::new();
                    t.push('~');
                    t.push('/');
                    let all = concat(&t, &rest);
                    assert(t@ =~= seq!['~', '/']);
                    string_of(&all)
                }
            } else {
                String::from_str(path)
            }
        },
    }
}

/// `Path::parent` on a path given as text.
pub fn parent(path: &str) -> (r: Option<String>)
    ensures
        crate::text::opt_chars(r) == parent_text(path@),
{
    let p = chars_of(path);
    match parent_chars(&p) {
        Some(v) => Some(string_of(&v)),
        None => None,
    }
}

/// `Path::join` on paths given as text.
pub fn join(base: &str, child: &str) -> (r: String)
    ensures
        r@ == join_text(base@, child@),
{
    let b = chars_of(base);
    let c = chars_of(child);
    if c.len() > 0 && c[0] == '/' {
        String::from_str(child)
    } else if b.len() > 0 && b[b.len() - 1] != '/' {
        let mut r = String::from_str(base);
        r.append("/");
        r.append(child);
        proof {
            reveal_strlit("/");
        }
        assert(r@ =~= join_text(base@, child@));
        r
    } else {
        let mut r = String::from_str(base);
        r.append(child);
        r
    }
}

/// `Path::ancestors` on a path given as text: the path, then its parent,
/// and so on up to the last path that has no parent.
pub fn ancestors(path: &str) -> (r: Vec<String>)
    ensures
        string_views(r@) == ancestors_of(path@),
{
    let mut out: Vec<String> = Vec::new();
    let mut cur = chars_of(path);
    loop
        invariant
            string_views(out@) + ancestors_of(cur@) == ancestors_of(path@),
        decreases cur@.len(),
    {
        let ghost before = string_views(out@);
        let ghost c = cur@;
        out.push(string_of(&cur));
        assert(string_views(out@) =~= before.push(c));
        match parent_chars(&cur) {
            Some(p) => {
                proof {
                    lemma_parent_shorter(c);
                }
                assert(before + ancestors_of(c) =~= before.push(c) + ancestors_of(p@));
                cur = p;
            },
            None => {
                assert(before + ancestors_of(c) =~= before.push(c));
                return out;
            },
        }
    }
}


// ---------------------------------------------------------------------------
// Laws
// ---------------------------------------------------------------------------

proof fn lemma_named_first(segs: Seq<Seq<char>>)
    requires
        segs.len() > 0,
    ensures
        named(segs) == if is_junk(segs[0]) {
            named(segs.drop_first())
        } else {
            seq![segs[0]] + named(segs.drop_first())
        },
    decreases segs.len(),
{
    if segs.len() == 1 {
        assert(segs.drop_first() == Seq::<Seq<char>>::empty());
        assert(segs.drop_last() == Seq::<Seq<char>>::empty());
        assert(seq![segs[0]] + Seq::<Seq<char>>::empty() == seq![segs[0]]);
    } else {
        let dl = segs.drop_last();
        lemma_named_first(dl);
        assert(segs.drop_first().drop_last() == dl.drop_first());
        assert(segs.drop_first().last() == segs.last());
        if !is_junk(segs[0]) {
            assert(seq![segs[0]] + named(dl.drop_first()).push(segs.last()) == (seq![segs[0]]
                + named(dl.drop_first())).push(segs.last()));
        }
    }
}

proof fn lemma_named_concat(a: Seq<Seq<char>>, b: Seq<Seq<char>>)
    ensures
        named(a + b) == named(a) + named(b),
    decreases b.len(),
{
    if b.len() == 0 {
        assert(a + b == a);
        assert(named(a) + named(b) == named(a));
    } else {
        lemma_named_concat(a, b.drop_last());
        assert((a + b).drop_last() == a + b.drop_last());
        assert((a + b).last() == b.last());
        if !is_junk(b.last()) {
            assert(named(a) + named(b.drop_last()).push(b.last()) == (named(a) + named(
                b.drop_last(),
            )).push(b.last()));
        }
    }
}

proof fn lemma_named_of_named(segs: Seq<Seq<char>>)
    requires
        forall|i: int| 0 <= i < segs.len() ==> !is_junk(#[trigger] segs[i]),
    ensures
        named(segs) == segs,
    decreases segs.len(),
{
    if segs.len() > 0 {
        assert(!is_junk(segs[segs.len() - 1]));
        lemma_named_of_named(segs.drop_last());
        assert(segs.drop_last().push(segs.last()) == segs);
    }
}

proof fn lemma_no_named_all_junk(segs: Seq<Seq<char>>)
    requires
        named(segs).len() == 0,
    ensures
        forall|i: int| 0 <= i < segs.len() ==> is_junk(#[trigger] segs[i]),
    decreases segs.len(),
{
    if segs.len() > 0 {
        lemma_no_named_all_junk(segs.drop_last());
        assert forall|i: int| 0 <= i < segs.len() implies is_junk(#[trigger] segs[i]) by {
            if i < segs.len() - 1 {
                assert(segs[i] == segs.drop_last()[i]);
            }
        }
    }
}

proof fn lemma_all_junk_trims_away(segs: Seq<Seq<char>>)
    requires
        forall|i: int| 0 <= i < segs.len() ==> is_junk(#[trigger] segs[i]),
    ensures
        drop_leading_junk(segs).len() == 0,
        drop_trailing_junk(segs).len() == 0,
    decreases segs.len(),
{
    if segs.len() > 0 {
        assert(is_junk(segs[0]));
        assert(is_junk(segs[segs.len() - 1]));
        assert forall|i: int| 0 <= i < segs.drop_first().len() implies is_junk(
            #[trigger] segs.drop_first()[i],
        ) by {
            assert(segs.drop_first()[i] == segs[i + 1]);
        }
        assert forall|i: int| 0 <= i < segs.drop_last().len() implies is_junk(
            #[trigger] segs.drop_last()[i],
        ) by {
            assert(segs.drop_last()[i] == segs[i]);
        }
        lemma_all_junk_trims_away(segs.drop_first());
        lemma_all_junk_trims_away(segs.drop_last());
    }
}

proof fn lemma_after_all_named_is_junk(segs: Seq<Seq<char>>)
    ensures
        forall|i: int|
            0 <= i < after_named(segs, named(segs).len()).len() ==> is_junk(
                #[trigger] after_named(segs, named(segs).len())[i],
            ),
    decreases segs.len(),
{
    if named(segs).len() == 0 {
        lemma_no_named_all_junk(segs);
    } else {
        lemma_named_first(segs);
        lemma_after_all_named_is_junk(segs.drop_first());
        if is_junk(segs[0]) {
            assert(after_named(segs, named(segs).len()) == after_named(
                segs.drop_first(),
                named(segs.drop_first()).len(),
            ));
        } else {
            assert(named(segs).len() == 1 + named(segs.drop_first()).len());
            assert(after_named(segs, named(segs).len()) == after_named(
                segs.drop_first(),
                named(segs.drop_first()).len(),
            ));
        }
    }
}

proof fn lemma_after_named_concat(a: Seq<Seq<char>>, b: Seq<Seq<char>>)
    ensures
        after_named(a + b, named(a).len()) == after_named(a, named(a).len()) + b,
    decreases a.len(),
{
    if a.len() == 0 {
        assert(a + b == b);
        assert(named(a) == a);
        assert(after_named(a, 0) + b == b);
    } else {
        lemma_named_first(a);
        let rest = a.drop_first();
        lemma_after_named_concat(rest, b);
        assert((a + b).drop_first() == rest + b);
        assert((a + b)[0] == a[0]);
        if named(a).len() == 0 {
            assert(after_named(a + b, 0) == a + b);
        } else if is_junk(a[0]) {
            assert(named(a).len() == named(rest).len());
        } else {
            assert(named(a).len() == 1 + named(rest).len());
        }
    }
}

proof fn lemma_drop_junk_before(j: Seq<Seq<char>>, x: Seq<Seq<char>>)
    requires
        forall|i: int| 0 <= i < j.len() ==> is_junk(#[trigger] j[i]),
        x.len() > 0,
        !is_junk(x[0]),
    ensures
        drop_leading_junk(j + x) == x,
    decreases j.len(),
{
    if j.len() == 0 {
        assert(j + x == x);
    } else {
        assert(is_junk(j[0]));
        assert((j + x)[0] == j[0]);
        assert((j + x).drop_first() == j.drop_first() + x);
        assert forall|i: int| 0 <= i < j.drop_first().len() implies is_junk(
            #[trigger] j.drop_first()[i],
        ) by {
            assert(j.drop_first()[i] == j[i + 1]);
        }
        lemma_drop_junk_before(j.drop_first(), x);
    }
}

proof fn lemma_split_concat(a: Seq<char>, b: Seq<char>)
    ensures
        split_slash(a + seq!['/'] + b) == split_slash(a) + split_slash(b),
    decreases b.len(),
{
    let s = a + seq!['/'] + b;
    if b.len() == 0 {
        assert(s.drop_last() == a);
        assert(s.last() == '/');
        assert(split_slash(a).push(Seq::<char>::empty()) == split_slash(a) + seq![
            Seq::<char>::empty(),
        ]);
    } else {
        lemma_split_concat(a, b.drop_last());
        assert(s.drop_last() == a + seq!['/'] + b.drop_last());
        assert(s.last() == b.last());
        let sa = split_slash(a);
        let sb = split_slash(b.drop_last());
        lemma_split_join(b.drop_last());
        if b.last() == '/' {
            assert((sa + sb).push(Seq::<char>::empty()) == sa + sb.push(Seq::<char>::empty()));
        } else {
            let p = sa + sb;
            assert(p.last() == sb.last());
            assert(p.update(p.len() - 1, p.last().push(b.last())) == sa + sb.update(
                sb.len() - 1,
                sb.last().push(b.last()),
            ));
        }
    }
}

proof fn lemma_split_first(s: Seq<char>)
    requires
        s.len() > 0,
        s[0] != '/',
    ensures
        split_slash(s)[0].len() >= 1,
        split_slash(s)[0][0] == s[0],
        split_slash(s)[0].len() == 1 ==> s.len() == 1 || s[1] == '/',
    decreases s.len(),
{
    let d = s.drop_last();
    if s.len() == 1 {
        assert(d == Seq::<char>::empty());
        assert(split_slash(s) == seq![Seq::<char>::empty()].update(0, seq![s[0]]));
    } else {
        lemma_split_first(d);
        lemma_split_join(d);
        let pieces = split_slash(d);
        if s.last() == '/' {
            assert(split_slash(s)[0] == pieces[0]);
        } else if pieces.len() == 1 {
            assert(split_slash(s)[0] == pieces[0].push(s.last()));
        } else {
            assert(split_slash(s)[0] == pieces[0]);
            if pieces[0].len() == 1 {
                if d.len() == 1 {
                    assert(split_slash(d) == seq![Seq::<char>::empty()].update(0, seq![d[0]]));
                }
            }
        }
    }
}

/// A nonempty path has at least one component.
pub proof fn lemma_nonempty_has_component(h: Seq<char>)
    requires
        h.len() > 0,
    ensures
        components(h).len() > 0,
{
    if head_len(h) == 0 {
        lemma_split_first(h);
        assert(h.skip(0) == h);
        let segs = body_segments(h);
        lemma_split_join(h);
        assert(!is_junk(segs[0])) by {
            if segs[0] == seq!['.'] {
                assert(segs[0].len() == 1);
            }
        }
        lemma_named_first(segs);
    }
}

/// The home directory itself displays as "~", whatever its spelling.
pub proof fn lemma_home_is_tilde(h: Seq<char>)
    ensures
        display_text(h, Some(h)) == seq!['~'],
{
    let c = components(h);
    assert(c.take(c.len() as int) == c);
    let segs = body_segments(h);
    if c.len() == 0 {
        lemma_no_named_all_junk(segs);
        lemma_all_junk_trims_away(segs);
        assert(head_text(h) == Seq::<char>::empty());
        assert(remainder(h, 0) =~= Seq::<char>::empty());
    } else {
        assert(c.len() - head_len(h) == named(segs).len());
        lemma_after_all_named_is_junk(segs);
        let rest = after_named(segs, named(segs).len());
        lemma_all_junk_trims_away(rest);
        assert(drop_trailing_junk(drop_leading_junk(rest)) == drop_leading_junk(rest));
        assert(remainder(h, c.len()) =~= Seq::<char>::empty());
    }
}

/// A path whose components do not start with home's is shown unchanged, so
/// a sibling such as /home/userx is never abbreviated against /home/user.
pub proof fn lemma_outside_home_unchanged(path: Seq<char>, h: Seq<char>)
    requires
        !is_prefix_of(components(h), components(path)),
    ensures
        display_text(path, Some(h)) == path,
{
}

/// No home, no abbreviation.
pub proof fn lemma_no_home_unchanged(path: Seq<char>)
    ensures
        display_text(path, None) == path,
{
}

/// A directory below home hangs off the tilde: `home/x` displays as `~/x`
/// for any relative `x` spelled with named segments only.
pub proof fn lemma_below_home(h: Seq<char>, x: Seq<char>)
    requires
        h.len() > 0,
        forall|i: int|
            0 <= i < split_slash(x).len() ==> !is_junk(#[trigger] split_slash(x)[i]),
    ensures
        display_text(h + seq!['/'] + x, Some(h)) == seq!['~', '/'] + x,
{
    let p = h + seq!['/'] + x;
    let hl = head_len(h);
    assert(p[0] == h[0]);
    if h.len() >= 2 {
        assert(p[1] == h[1]);
    } else {
        assert(p[1] == '/');
    }
    assert(head_len(p) == hl);
    assert(head_text(p) == head_text(h));
    assert(p.skip(hl as int) == h.skip(hl as int) + seq!['/'] + x);
    let a = body_segments(h);
    let xs = split_slash(x);
    lemma_split_concat(h.skip(hl as int), x);
    assert(body_segments(p) == a + xs);
    lemma_named_concat(a, xs);
    lemma_named_of_named(xs);
    lemma_split_join(x);
    let ch = components(h);
    let cp = components(p);
    if hl == 1 {
        assert(cp == seq![head_text(h)] + (named(a) + xs));
        assert(cp == ch + xs);
    } else {
        assert(cp == ch + xs);
    }
    assert(cp.take(ch.len() as int) == ch);
    lemma_nonempty_has_component(h);
    assert(ch.len() - hl == named(a).len());
    lemma_after_named_concat(a, xs);
    lemma_after_all_named_is_junk(a);
    let j = after_named(a, named(a).len());
    assert(!is_junk(xs[0]));
    lemma_drop_junk_before(j, xs);
    assert(!is_junk(xs[xs.len() - 1]));
    assert(drop_trailing_junk(xs) == xs);
    assert(join_slash(xs) == x);
    if x.len() == 0 {
        assert(xs == seq![Seq::<char>::empty()]);
        assert(is_junk(xs[0]));
    }
    assert(remainder(p, ch.len()) == x);
}

/// Ancestors walk up: they start at the path itself, each is the parent of
/// the one before it, and the last has no parent.
pub proof fn lemma_ancestors_walk_up(s: Seq<char>)
    ensures
        ancestors_of(s).len() >= 1,
        ancestors_of(s)[0] == s,
        forall|i: int|
            0 <= i < ancestors_of(s).len() - 1 ==> parent_text(#[trigger] ancestors_of(s)[i])
                == Some(ancestors_of(s)[i + 1]),
        parent_text(ancestors_of(s).last()) is None,
    decreases s.len(),
{
    match parent_text(s) {
        Some(p) => {
            lemma_parent_shorter(s);
            lemma_ancestors_walk_up(p);
            let rest = ancestors_of(p);
            let all = ancestors_of(s);
            assert(all == seq![s] + rest);
            assert forall|i: int| 0 <= i < all.len() - 1 implies parent_text(#[trigger] all[i])
                == Some(all[i + 1]) by {
                if i > 0 {
                    assert(all[i] == rest[i - 1]);
                    assert(all[i + 1] == rest[i]);
                }
            }
            assert(all.last() == rest.last());
        },
        None => {},
    }
}

} // verus!
