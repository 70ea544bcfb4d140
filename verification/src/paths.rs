//! The path-safety validator.
//!
//! A handler may return a string that names a file inside the store. Before
//! any file is served, the string is validated: it must begin with the store
//! root, it is normalized lexically (`.` and `..` resolved without touching
//! the filesystem), and the normalized path must still lie under the root.
//! On success the validator yields the top-level artifact directory to
//! realize (`base`) and the full normalized path to serve (`full`).

use vstd::prelude::*;

verus! {

/// Splits a character sequence on `'/'`; empty segments are kept, so the
/// result always holds at least one segment.
pub open spec fn spec_split(s: Seq<char>) -> Seq<Seq<char>>
    decreases s.len(),
{
    if s.len() == 0 {
        seq![Seq::<char>::empty()]
    } else if s[0] == '/' {
        seq![Seq::<char>::empty()] + spec_split(s.drop_first())
    } else {
        let rest = spec_split(s.drop_first());
        rest.update(0, seq![s[0]] + rest[0])
    }
}

/// Drops empty and `"."` segments, as a path's component walk does.
pub open spec fn spec_clean(segs: Seq<Seq<char>>) -> Seq<Seq<char>>
    decreases segs.len(),
{
    if segs.len() == 0 {
        Seq::<Seq<char>>::empty()
    } else {
        let rest = spec_clean(segs.drop_first());
        if segs[0].len() == 0 || segs[0] == seq!['.'] {
            rest
        } else {
            seq![segs[0]] + rest
        }
    }
}

/// One step of lexical normalization over a stack of kept segments: empty
/// and `"."` segments vanish, `".."` pops the stack (escaping past the root
/// is an error, `None`), anything else is kept.
pub open spec fn spec_norm_from(stack: Seq<Seq<char>>, segs: Seq<Seq<char>>) -> Option<
    Seq<Seq<char>>,
>
    decreases segs.len(),
{
    if segs.len() == 0 {
        Some(stack)
    } else {
        let seg = segs[0];
        if seg.len() == 0 || seg == seq!['.'] {
            spec_norm_from(stack, segs.drop_first())
        } else if seg == seq!['.', '.'] {
            if stack.len() == 0 {
                None
            } else {
                spec_norm_from(stack.drop_last(), segs.drop_first())
            }
        } else {
            spec_norm_from(stack.push(seg), segs.drop_first())
        }
    }
}

/// Lexical normalization of an absolute path, given as its split segments.
pub open spec fn spec_norm(segs: Seq<Seq<char>>) -> Option<Seq<Seq<char>>> {
    spec_norm_from(Seq::<Seq<char>>::empty(), segs)
}

/// `"/" + seg + "/" + seg + ...` — the text of a segment list, each segment
/// preceded by a separator.
pub open spec fn spec_cat(segs: Seq<Seq<char>>) -> Seq<char>
    decreases segs.len(),
{
    if segs.len() == 0 {
        Seq::<char>::empty()
    } else {
        seq!['/'] + segs[0] + spec_cat(segs.drop_first())
    }
}

/// The absolute path spelled by a segment list; the empty list is the root
/// itself.
pub open spec fn spec_abs(segs: Seq<Seq<char>>) -> Seq<char> {
    if segs.len() == 0 {
        seq!['/']
    } else {
        spec_cat(segs)
    }
}

/// Splitting a longer text extends the last segment or starts a new one.
proof fn lemma_split_push(s: Seq<char>, c: char)
    ensures
        spec_split(s).len() >= 1,
        c == '/' ==> spec_split(s.push(c)) =~~= spec_split(s).push(Seq::<char>::empty()),
        c != '/' ==> spec_split(s.push(c)) =~~= spec_split(s).update(
            spec_split(s).len() - 1,
            spec_split(s).last().push(c),
        ),
    decreases s.len(),
{
    lemma_split_len(s);
    if s.len() == 0 {
        assert(s.push(c).drop_first() =~= s);
        assert(s.push(c)[0] == c);
        if c == '/' {
            assert(spec_split(s.push(c)) =~~= spec_split(s).push(Seq::<char>::empty()));
        } else {
            assert(spec_split(s.push(c)) =~~= spec_split(s).update(
                spec_split(s).len() - 1,
                spec_split(s).last().push(c),
            ));
        }
    } else {
        let sdf = s.drop_first();
        lemma_split_push(sdf, c);
        lemma_split_len(sdf);
        assert(s.push(c).drop_first() =~= sdf.push(c));
        assert(s.push(c)[0] == s[0]);
        let rest = spec_split(sdf);
        let restp = spec_split(sdf.push(c));
        if s[0] == '/' {
            assert(spec_split(s.push(c)) == seq![Seq::<char>::empty()] + restp);
            assert(spec_split(s) == seq![Seq::<char>::empty()] + rest);
            if c == '/' {
                assert(spec_split(s.push(c)) =~~= spec_split(s).push(Seq::<char>::empty()));
            } else {
                assert(spec_split(s.push(c)) =~~= spec_split(s).update(
                    spec_split(s).len() - 1,
                    spec_split(s).last().push(c),
                ));
            }
        } else {
            assert(spec_split(s.push(c)) == restp.update(0, seq![s[0]] + restp[0]));
            assert(spec_split(s) == rest.update(0, seq![s[0]] + rest[0]));
            if c == '/' {
                assert(restp =~~= rest.push(Seq::<char>::empty()));
                assert(spec_split(s.push(c)) =~~= spec_split(s).push(Seq::<char>::empty()));
            } else {
                assert(restp =~~= rest.update(rest.len() - 1, rest.last().push(c)));
                if rest.len() == 1 {
                    assert(seq![s[0]] + restp[0] =~= (seq![s[0]] + rest[0]).push(c));
                    assert(spec_split(s.push(c)) =~~= spec_split(s).update(
                        spec_split(s).len() - 1,
                        spec_split(s).last().push(c),
                    ));
                } else {
                    assert(spec_split(s.push(c)) =~~= spec_split(s).update(
                        spec_split(s).len() - 1,
                        spec_split(s).last().push(c),
                    ));
                }
            }
        }
    }
}

/// A split has at least one segment.
proof fn lemma_split_len(s: Seq<char>)
    ensures
        spec_split(s).len() >= 1,
    decreases s.len(),
{
    if s.len() != 0 {
        lemma_split_len(s.drop_first());
    }
}

/// No split segment contains the separator.
proof fn lemma_split_slash_free(s: Seq<char>)
    ensures
        forall|i: int|
            0 <= i < spec_split(s).len() ==> !(#[trigger] spec_split(s)[i]).contains('/'),
    decreases s.len(),
{
    if s.len() == 0 {
        assert forall|i: int|
            0 <= i < spec_split(s).len() implies !(#[trigger] spec_split(s)[i]).contains(
            '/',
        ) by {
            assert(spec_split(s)[i] =~= Seq::<char>::empty());
        }
    } else {
        lemma_split_slash_free(s.drop_first());
        lemma_split_len(s.drop_first());
        if s[0] == '/' {
        } else {
            let rest = spec_split(s.drop_first());
            assert forall|i: int|
                0 <= i < spec_split(s).len() implies !(#[trigger] spec_split(s)[i]).contains(
                '/',
            ) by {
                if i == 0 {
                    let merged = seq![s[0]] + rest[0];
                    assert(!rest[0].contains('/'));
                    assert forall|j: int| 0 <= j < merged.len() implies merged[j] != '/' by {
                        if j == 0 {
                        } else {
                            assert(merged[j] == rest[0][j - 1]);
                        }
                    }
                }
            }
        }
    }
}

/// The segments of a path, as a component walk sees them: split, with empty
/// and `"."` segments dropped.
pub open spec fn spec_components(s: Seq<char>) -> Seq<Seq<char>> {
    spec_clean(spec_split(s))
}

/// Splits a path string on `'/'`.
pub fn split_path(s: &str) -> (r: Vec<String>)
    ensures
        r.deep_view() == spec_split(s@),
{
    let len = s.unicode_len();
    let mut done: Vec<String> = Vec::new();
    let mut cur: String = String::new();
    let mut i: usize = 0;
    proof {
        assert(done.deep_view().push(cur@) =~~= spec_split(s@.take(0)));
    }
    while i < len
        invariant
            0 <= i <= len,
            len == s@.len(),
            done.deep_view().push(cur@) =~~= spec_split(s@.take(i as int)),
        decreases len - i,
    {
        let c = s.get_char(i);
        proof {
            lemma_split_push(s@.take(i as int), c);
            assert(s@.take(i as int).push(c) =~= s@.take(i as int + 1));
        }
        if c == '/' {
            done.push(cur);
            cur = String::new();
        } else {
            cur.push(c);
        }
        proof {
            assert(done.deep_view().push(cur@) =~~= spec_split(s@.take(i as int + 1)));
        }
        i = i + 1;
    }
    proof {
        assert(s@.take(len as int) =~= s@);
    }
    done.push(cur);
    proof {
        assert(done.deep_view() =~~= spec_split(s@));
    }
    done
}

/// Drops empty and `"."` segments; mirrors `spec_clean`.
pub fn clean_segments(v: &Vec<String>) -> (r: Vec<String>)
    ensures
        r.deep_view() == spec_clean(v.deep_view()),
{
    let ghost all = v.deep_view();
    let mut out: Vec<String> = Vec::new();
    let mut i: usize = 0;
    proof {
        assert(all.skip(0) =~~= all);
        assert(out.deep_view() =~~= Seq::<Seq<char>>::empty());
    }
    while i < v.len()
        invariant
            0 <= i <= v.len(),
            all == v.deep_view(),
            out.deep_view() + spec_clean(all.skip(i as int)) =~~= spec_clean(all),
        decreases v.len() - i,
    {
        let seg = &v[i];
        proof {
            assert(all.skip(i as int).len() > 0);
            assert(all.skip(i as int)[0] == seg@);
            assert(all.skip(i as int).drop_first() =~~= all.skip(i as int + 1));
        }
        let keep = !(seg.unicode_len() == 0 || crate::response::text_is(seg, "."));
        proof {
            reveal_strlit(".");
            assert("."@ =~= seq!['.']);
        }
        if keep {
            out.push(seg.clone());
        }
        proof {
            assert(out.deep_view() + spec_clean(all.skip(i as int + 1)) =~~= spec_clean(all));
        }
        i = i + 1;
    }
    proof {
        assert(all.skip(v.len() as int) =~~= Seq::<Seq<char>>::empty());
        assert(out.deep_view() =~~= spec_clean(all));
    }
    out
}

/// Lexical normalization over split segments; `None` when a `".."` would
/// escape past the root. Mirrors `spec_norm`.
pub fn normalize_segments(v: &Vec<String>) -> (r: Option<Vec<String>>)
    ensures
        (match r {
            Some(out) => spec_norm(v.deep_view()) == Some(out.deep_view()),
            None => spec_norm(v.deep_view()) is None,
        }),
{
    let ghost all = v.deep_view();
    let mut stack: Vec<String> = Vec::new();
    let mut i: usize = 0;
    proof {
        assert(all.skip(0) =~~= all);
        assert(stack.deep_view() =~~= Seq::<Seq<char>>::empty());
    }
    while i < v.len()
        invariant
            0 <= i <= v.len(),
            all == v.deep_view(),
            spec_norm_from(stack.deep_view(), all.skip(i as int)) == spec_norm(all),
        decreases v.len() - i,
    {
        let seg = &v[i];
        proof {
            assert(all.skip(i as int).len() > 0);
            assert(all.skip(i as int)[0] == seg@);
            assert(all.skip(i as int).drop_first() =~~= all.skip(i as int + 1));
            reveal_strlit(".");
            reveal_strlit("..");
            assert("."@ =~= seq!['.']);
            assert(".."@ =~= seq!['.', '.']);
        }
        if seg.unicode_len() == 0 || crate::response::text_is(seg, ".") {
            // dropped
        } else if crate::response::text_is(seg, "..") {
            if stack.len() == 0 {
                return None;
            }
            let ghost pre = stack.deep_view();
            let _ = stack.pop();
            proof {
                assert(stack.deep_view() =~~= pre.drop_last());
            }
        } else {
            let ghost pre = stack.deep_view();
            stack.push(seg.clone());
            proof {
                assert(stack.deep_view() =~~= pre.push(seg@));
            }
        }
        i = i + 1;
    }
    proof {
        assert(all.skip(v.len() as int) =~~= Seq::<Seq<char>>::empty());
    }
    Some(stack)
}

/// Appending a segment appends a separator and its text.
proof fn lemma_cat_push(segs: Seq<Seq<char>>, x: Seq<char>)
    ensures
        spec_cat(segs.push(x)) =~= spec_cat(segs) + seq!['/'] + x,
    decreases segs.len(),
{
    if segs.len() == 0 {
        assert(segs.push(x).drop_first() =~~= segs);
        assert(segs.push(x)[0] == x);
    } else {
        lemma_cat_push(segs.drop_first(), x);
        assert(segs.push(x).drop_first() =~~= segs.drop_first().push(x));
        assert(segs.push(x)[0] == segs[0]);
    }
}

/// Joins the first `n` segments into an absolute path; mirrors `spec_abs`.
pub fn join_abs_take(v: &Vec<String>, n: usize) -> (r: String)
    requires
        n <= v.len(),
    ensures
        r@ == spec_abs(v.deep_view().take(n as int)),
{
    let ghost all = v.deep_view();
    if n == 0 {
        let r = String::from_str("/");
        proof {
            reveal_strlit("/");
            assert(all.take(0) =~~= Seq::<Seq<char>>::empty());
            assert(r@ =~= seq!['/']);
        }
        return r;
    }
    let mut out = String::new();
    let mut i: usize = 0;
    while i < n
        invariant
            0 <= i <= n <= v.len(),
            all == v.deep_view(),
            out@ == spec_cat(all.take(i as int)),
        decreases n - i,
    {
        proof {
            lemma_cat_push(all.take(i as int), all[i as int]);
            assert(all.take(i as int).push(all[i as int]) =~~= all.take(i as int + 1));
        }
        out.push('/');
        out.append(v[i].as_str());
        proof {
            assert(out@ =~= spec_cat(all.take(i as int + 1)));
        }
        i = i + 1;
    }
    out
}

/// Joins all segments into an absolute path.
pub fn join_abs(v: &Vec<String>) -> (r: String)
    ensures
        r@ == spec_abs(v.deep_view()),
{
    let r = join_abs_take(v, v.len());
    proof {
        assert(v.deep_view().take(v.len() as int) =~~= v.deep_view());
    }
    r
}

/// Decides whether `p` is a textual prefix of `s`.
pub fn str_starts_with(s: &str, p: &str) -> (r: bool)
    ensures
        r == p@.is_prefix_of(s@),
{
    let slen = s.unicode_len();
    let plen = p.unicode_len();
    if plen > slen {
        return false;
    }
    let mut i: usize = 0;
    while i < plen
        invariant
            0 <= i <= plen <= slen,
            slen == s@.len(),
            plen == p@.len(),
            forall|j: int| 0 <= j < i ==> p@[j] == s@[j],
        decreases plen - i,
    {
        if s.get_char(i) != p.get_char(i) {
            assert(p@[i as int] != s@[i as int]);
            assert(!p@.is_prefix_of(s@));
            return false;
        }
        i = i + 1;
    }
    proof {
        assert(p@ =~= s@.subrange(0, p@.len() as int));
    }
    true
}

/// Decides whether the segment list `p` is a prefix of `s`.
fn segs_prefix_of(p: &Vec<String>, s: &Vec<String>) -> (r: bool)
    ensures
        r == p.deep_view().is_prefix_of(s.deep_view()),
{
    if p.len() > s.len() {
        return false;
    }
    let mut i: usize = 0;
    while i < p.len()
        invariant
            0 <= i <= p.len() <= s.len(),
            forall|j: int| 0 <= j < i ==> p.deep_view()[j] == s.deep_view()[j],
        decreases p.len() - i,
    {
        if !p[i].eq(&s[i]) {
            assert(p.deep_view()[i as int] != s.deep_view()[i as int]);
            assert(!p.deep_view().is_prefix_of(s.deep_view()));
            return false;
        }
        i = i + 1;
    }
    proof {
        assert(p.deep_view() =~~= s.deep_view().subrange(0, p.deep_view().len() as int));
    }
    true
}

/// The validator's four outcomes. The first is a fail-closed configuration
/// error; the middle two mean "serve the string as literal text"; the last
/// carries the artifact directory to realize and the full path to serve.
pub enum PathVerdict {
    RootNotAbsolute,
    NotAPath,
    NotStorePath,
    Candidate { base_path: String, full_path: String },
}

/// The validator's outcome at the specification level.
pub enum SpecVerdict {
    RootNotAbsolute,
    NotAPath,
    NotStorePath,
    Candidate { base: Seq<char>, full: Seq<char> },
}

/// The view of an executable verdict.
pub open spec fn verdict_view(r: &PathVerdict) -> SpecVerdict {
    match r {
        PathVerdict::RootNotAbsolute => SpecVerdict::RootNotAbsolute,
        PathVerdict::NotAPath => SpecVerdict::NotAPath,
        PathVerdict::NotStorePath => SpecVerdict::NotStorePath,
        PathVerdict::Candidate { base_path, full_path } => SpecVerdict::Candidate {
            base: base_path@,
            full: full_path@,
        },
    }
}

/// What the validator decides for a store root and a candidate string:
/// fail closed unless the root is absolute; not a path at all unless the
/// candidate textually begins with `root + "/"`; not a store path when
/// lexical normalization escapes or leaves the root; otherwise the base
/// artifact directory (the root plus one segment) and the normalized path.
pub open spec fn spec_validate(root: Seq<char>, cand: Seq<char>) -> SpecVerdict {
    if !(root.len() > 0 && root[0] == '/') {
        SpecVerdict::RootNotAbsolute
    } else if !root.push('/').is_prefix_of(cand) {
        SpecVerdict::NotAPath
    } else {
        let rsegs = spec_components(root);
        match spec_norm(spec_split(cand)) {
            Option::None => SpecVerdict::NotStorePath,
            Option::Some(nsegs) => {
                if !rsegs.is_prefix_of(nsegs) {
                    SpecVerdict::NotStorePath
                } else {
                    let take_n: int = if rsegs.len() + 1 <= nsegs.len() {
                        rsegs.len() as int + 1
                    } else {
                        nsegs.len() as int
                    };
                    SpecVerdict::Candidate {
                        base: spec_abs(nsegs.take(take_n)),
                        full: spec_abs(nsegs),
                    }
                }
            },
        }
    }
}

/// Validates a candidate string against the store root, lexically: no
/// filesystem access, no symlink resolution. See `spec_validate` for the
/// outcome on every input.
pub fn get_safe_path(store_dir: &str, candidate: &str) -> (r: PathVerdict)
    ensures
        verdict_view(&r) == spec_validate(store_dir@, candidate@),
{
    if !(store_dir.unicode_len() > 0 && store_dir.get_char(0) == '/') {
        return PathVerdict::RootNotAbsolute;
    }
    let mut root_slash = String::from_str(store_dir);
    root_slash.push('/');
    if !str_starts_with(candidate, root_slash.as_str()) {
        return PathVerdict::NotAPath;
    }
    let csegs = split_path(candidate);
    let nsegs = match normalize_segments(&csegs) {
        Option::Some(v) => v,
        Option::None => {
            return PathVerdict::NotStorePath;
        },
    };
    let rsplit = split_path(store_dir);
    let rsegs = clean_segments(&rsplit);
    if !segs_prefix_of(&rsegs, &nsegs) {
        return PathVerdict::NotStorePath;
    }
    let take_n: usize = if rsegs.len() < nsegs.len() {
        rsegs.len() + 1
    } else {
        nsegs.len()
    };
    let base_path = join_abs_take(&nsegs, take_n);
    let full_path = join_abs(&nsegs);
    PathVerdict::Candidate { base_path, full_path }
}

/// A segment that survives normalization: non-empty, not a dot segment,
/// and free of separators.
pub open spec fn spec_norm_seg(seg: Seq<char>) -> bool {
    seg.len() > 0 && seg != seq!['.'] && seg != seq!['.', '.'] && !seg.contains('/')
}

/// A store root in canonical form: the text it would have after its own
/// component walk, with at least one component.
pub open spec fn spec_canonical_root(root: Seq<char>) -> bool {
    spec_components(root).len() > 0 && root == spec_abs(spec_components(root))
}

/// Concatenating segment lists concatenates their texts.
proof fn lemma_cat_append(a: Seq<Seq<char>>, b: Seq<Seq<char>>)
    ensures
        spec_cat(a + b) =~= spec_cat(a) + spec_cat(b),
    decreases a.len(),
{
    if a.len() == 0 {
        assert(a + b =~~= b);
    } else {
        lemma_cat_append(a.drop_first(), b);
        assert((a + b).drop_first() =~~= a.drop_first() + b);
        assert((a + b)[0] == a[0]);
    }
}

/// Splitting `x ++ t` for separator-free `x` prepends `x` to the first
/// segment of `t`'s split.
proof fn lemma_split_prepend(x: Seq<char>, t: Seq<char>)
    requires
        !x.contains('/'),
    ensures
        spec_split(x + t) =~~= spec_split(t).update(0, x + spec_split(t)[0]),
    decreases x.len(),
{
    lemma_split_len(t);
    if x.len() == 0 {
        assert(x + t =~= t);
        assert(x + spec_split(t)[0] =~= spec_split(t)[0]);
        assert(spec_split(t).update(0, spec_split(t)[0]) =~~= spec_split(t));
    } else {
        assert(x[0] != '/') by {
            assert(x.contains('/') <==> exists|i: int| 0 <= i < x.len() && x[i] == '/');
        }
        assert(forall|i: int| 0 <= i < x.drop_first().len() ==> x.drop_first()[i] != '/') by {
            assert(forall|i: int| 0 <= i < x.len() ==> x[i] != '/');
        }
        assert(!x.drop_first().contains('/'));
        lemma_split_prepend(x.drop_first(), t);
        assert((x + t).drop_first() =~= x.drop_first() + t);
        assert((x + t)[0] == x[0]);
        let s = spec_split(t);
        let r = spec_split(x.drop_first() + t);
        assert(r == s.update(0, x.drop_first() + s[0]));
        assert(spec_split(x + t) == r.update(0, seq![x[0]] + r[0]));
        assert(seq![x[0]] + (x.drop_first() + s[0]) =~= x + s[0]);
    }
}

/// Splitting the text of separator-free segments recovers the segments,
/// preceded by one empty segment for the leading separator.
proof fn lemma_split_cat(segs: Seq<Seq<char>>)
    requires
        forall|i: int| 0 <= i < segs.len() ==> !(#[trigger] segs[i]).contains('/'),
    ensures
        spec_split(spec_cat(segs)) =~~= seq![Seq::<char>::empty()] + segs,
    decreases segs.len(),
{
    if segs.len() == 0 {
        assert(spec_cat(segs) =~= Seq::<char>::empty());
        assert(spec_split(Seq::<char>::empty()) =~~= seq![Seq::<char>::empty()]);
        assert(seq![Seq::<char>::empty()] + segs =~~= seq![Seq::<char>::empty()]);
    } else {
        let rest = segs.drop_first();
        assert(forall|i: int| 0 <= i < rest.len() ==> !(#[trigger] rest[i]).contains('/')) by {
            assert(forall|i: int| 0 <= i < rest.len() ==> rest[i] == segs[i + 1]);
        }
        lemma_split_cat(rest);
        let tail = spec_cat(rest);
        let body = segs[0] + tail;
        assert(spec_cat(segs) == seq!['/'] + body);
        assert((seq!['/'] + body)[0] == '/');
        assert((seq!['/'] + body).drop_first() =~= body);
        assert(spec_split(spec_cat(segs)) == seq![Seq::<char>::empty()] + spec_split(body));
        lemma_split_prepend(segs[0], tail);
        lemma_split_len(tail);
        assert(spec_split(tail)[0] == (seq![Seq::<char>::empty()] + rest)[0]);
        assert(spec_split(tail)[0] =~= Seq::<char>::empty());
        assert(segs[0] + spec_split(tail)[0] =~= segs[0]);
        assert(spec_split(body) =~~= (seq![Seq::<char>::empty()] + rest).update(0, segs[0]));
        assert(seq![Seq::<char>::empty()] + spec_split(body) =~~= seq![Seq::<char>::empty()]
            + segs);
    }
}

/// Normalization passes segments that are already normal straight through.
proof fn lemma_norm_from_normal(stack: Seq<Seq<char>>, segs: Seq<Seq<char>>)
    requires
        forall|i: int| 0 <= i < segs.len() ==> spec_norm_seg(#[trigger] segs[i]),
    ensures
        spec_norm_from(stack, segs) == Some(stack + segs),
    decreases segs.len(),
{
    if segs.len() == 0 {
        assert(stack + segs =~~= stack);
    } else {
        assert(spec_norm_seg(segs[0]));
        assert(forall|i: int|
            0 <= i < segs.drop_first().len() ==> spec_norm_seg(
                #[trigger] segs.drop_first()[i],
            )) by {
            assert(forall|i: int|
                0 <= i < segs.drop_first().len() ==> segs.drop_first()[i] == segs[i + 1]);
        }
        lemma_norm_from_normal(stack.push(segs[0]), segs.drop_first());
        assert(stack.push(segs[0]) + segs.drop_first() =~~= stack + segs);
    }
}

/// Every segment a successful normalization returns is normal, provided
/// the starting stack was and the input was separator-free.
proof fn lemma_norm_from_out_normal(stack: Seq<Seq<char>>, segs: Seq<Seq<char>>, out: Seq<Seq<char>>)
    requires
        spec_norm_from(stack, segs) == Some(out),
        forall|i: int| 0 <= i < stack.len() ==> spec_norm_seg(#[trigger] stack[i]),
        forall|i: int| 0 <= i < segs.len() ==> !(#[trigger] segs[i]).contains('/'),
    ensures
        forall|i: int| 0 <= i < out.len() ==> spec_norm_seg(#[trigger] out[i]),
    decreases segs.len(),
{
    if segs.len() == 0 {
    } else {
        let seg = segs[0];
        let rest = segs.drop_first();
        assert(forall|i: int| 0 <= i < rest.len() ==> !(#[trigger] rest[i]).contains('/')) by {
            assert(forall|i: int| 0 <= i < rest.len() ==> rest[i] == segs[i + 1]);
        }
        if seg.len() == 0 || seg == seq!['.'] {
            lemma_norm_from_out_normal(stack, rest, out);
        } else if seg == seq!['.', '.'] {
            assert(forall|i: int|
                0 <= i < stack.drop_last().len() ==> spec_norm_seg(
                    #[trigger] stack.drop_last()[i],
                )) by {
                assert(forall|i: int|
                    0 <= i < stack.drop_last().len() ==> stack.drop_last()[i] == stack[i]);
            }
            lemma_norm_from_out_normal(stack.drop_last(), rest, out);
        } else {
            assert(!seg.contains('/'));
            assert(spec_norm_seg(seg));
            assert(forall|i: int|
                0 <= i < stack.push(seg).len() ==> spec_norm_seg(#[trigger] stack.push(seg)[i]))
                by {
                assert(forall|i: int|
                    0 <= i < stack.len() ==> stack.push(seg)[i] == stack[i]);
                assert(stack.push(seg)[stack.len() as int] == seg);
            }
            lemma_norm_from_out_normal(stack.push(seg), rest, out);
        }
    }
}

/// THE CONFINEMENT LAW: whenever the validator accepts a candidate against
/// a canonical store root, the path that will be served lies strictly below
/// the root — it begins with `root + "/"` — and so does the artifact
/// directory to realize, which is the root extended by exactly the first
/// segment of the remainder, unless the path names the root itself.
pub proof fn lemma_validator_confines(root: Seq<char>, cand: Seq<char>, base: Seq<char>, full: Seq<char>)
    requires
        spec_canonical_root(root),
        spec_validate(root, cand) == (SpecVerdict::Candidate { base, full }),
        full != root,
    ensures
        root.push('/').is_prefix_of(full),
        base.push('/').is_prefix_of(full.push('/')),
        root.push('/').is_prefix_of(base),
{
    let rsegs = spec_components(root);
    let nsegs = spec_norm(spec_split(cand))->Some_0;
    assert(spec_norm(spec_split(cand)) is Some);
    assert(rsegs.is_prefix_of(nsegs));
    lemma_split_slash_free(cand);
    lemma_norm_from_out_normal(Seq::<Seq<char>>::empty(), spec_split(cand), nsegs);
    // The root spells the same text as its own components.
    assert(root == spec_abs(rsegs));
    if nsegs.len() == rsegs.len() {
        assert(nsegs =~~= rsegs);
        assert(full == spec_abs(nsegs));
        assert(full == root);
    }
    assert(nsegs.len() > rsegs.len());
    let extra = nsegs.skip(rsegs.len() as int);
    assert(nsegs =~~= rsegs + extra);
    lemma_cat_append(rsegs, extra);
    assert(full == spec_cat(rsegs) + spec_cat(extra));
    assert(spec_cat(extra) == seq!['/'] + extra[0] + spec_cat(extra.drop_first()));
    assert(root.push('/').is_prefix_of(full)) by {
        assert(root == spec_cat(rsegs));
        assert(full.len() >= root.len() + 1);
        assert(forall|i: int| 0 <= i < root.len() ==> full[i] == root[i]);
        assert(full[root.len() as int] == '/');
        assert(root.push('/') =~= full.subrange(0, root.len() as int + 1));
    }
    // The base is the root plus exactly one more segment.
    let take_n: int = rsegs.len() as int + 1;
    assert(base == spec_abs(nsegs.take(take_n)));
    assert(nsegs.take(take_n) =~~= rsegs + seq![extra[0]]);
    lemma_cat_append(rsegs, seq![extra[0]]);
    assert(spec_cat(seq![extra[0]]) =~= seq!['/'] + extra[0]) by {
        assert(seq![extra[0]].drop_first() =~~= Seq::<Seq<char>>::empty());
        assert(seq![extra[0]][0] == extra[0]);
        assert(spec_cat(Seq::<Seq<char>>::empty()) =~= Seq::<char>::empty());
        assert(spec_cat(seq![extra[0]]) == seq!['/'] + seq![extra[0]][0] + spec_cat(
            seq![extra[0]].drop_first(),
        ));
    }
    assert(base =~= root + seq!['/'] + extra[0]);
    assert(root.push('/').is_prefix_of(base)) by {
        assert(root.push('/') =~= base.subrange(0, root.len() as int + 1));
    }
    assert(base.push('/').is_prefix_of(full.push('/'))) by {
        lemma_cat_append(rsegs + seq![extra[0]], extra.drop_first());
        assert((rsegs + seq![extra[0]]) + extra.drop_first() =~~= nsegs);
        assert(full == spec_cat(rsegs + seq![extra[0]]) + spec_cat(extra.drop_first()));
        assert(spec_cat(rsegs + seq![extra[0]]) == base);
        if extra.drop_first().len() == 0 {
            assert(spec_cat(extra.drop_first()) =~= Seq::<char>::empty());
            assert(full =~= base);
            assert(base.push('/') =~= full.push('/').subrange(0, base.len() as int + 1));
        } else {
            assert(spec_cat(extra.drop_first())[0] == '/');
            assert(full.push('/').len() >= base.len() + 1);
            assert(base.push('/') =~= full.push('/').subrange(0, base.len() as int + 1));
        }
    }
}

/// THE IDEMPOTENCE LAW: running the validator on the full path it accepted
/// yields the very same base and full path again. The two degenerate inputs
/// are left out: a root that is not in canonical form (its text differs
/// from its component walk), and a candidate that normalizes to the root
/// itself, which the validator no longer counts as lying below the root.
pub proof fn lemma_validator_idempotent(root: Seq<char>, cand: Seq<char>, base: Seq<char>, full: Seq<char>)
    requires
        spec_canonical_root(root),
        spec_validate(root, cand) == (SpecVerdict::Candidate { base, full }),
        full != root,
    ensures
        spec_validate(root, full) == (SpecVerdict::Candidate { base, full }),
{
    let rsegs = spec_components(root);
    let nsegs = spec_norm(spec_split(cand))->Some_0;
    assert(spec_norm(spec_split(cand)) is Some);
    assert(rsegs.is_prefix_of(nsegs));
    lemma_split_slash_free(cand);
    lemma_norm_from_out_normal(Seq::<Seq<char>>::empty(), spec_split(cand), nsegs);
    lemma_validator_confines(root, cand, base, full);
    assert(root.len() > 0 && root[0] == '/') by {
        assert(root == spec_abs(rsegs));
        assert(spec_cat(rsegs)[0] == '/');
    }
    assert(root.push('/').is_prefix_of(full));
    // Splitting the full path recovers its normalized segments.
    assert(nsegs.len() > rsegs.len());
    assert(nsegs.len() > 0);
    assert(full == spec_cat(nsegs));
    assert(forall|i: int| 0 <= i < nsegs.len() ==> !(#[trigger] nsegs[i]).contains('/'));
    lemma_split_cat(nsegs);
    assert(spec_split(full) =~~= seq![Seq::<char>::empty()] + nsegs);
    // Normalizing them changes nothing.
    assert(spec_norm(spec_split(full)) == Some(nsegs)) by {
        assert(spec_split(full)[0].len() == 0);
        assert(spec_split(full).drop_first() =~~= nsegs);
        assert(spec_norm_from(Seq::<Seq<char>>::empty(), spec_split(full)) == spec_norm_from(
            Seq::<Seq<char>>::empty(),
            nsegs,
        ));
        lemma_norm_from_normal(Seq::<Seq<char>>::empty(), nsegs);
        assert(Seq::<Seq<char>>::empty() + nsegs =~~= nsegs);
    }
    assert(spec_validate(root, full) == (SpecVerdict::Candidate { base, full }));
}

} // verus!
