//! Request paths and path prefixes: normal form, segment-wise prefix
//! matching, the remainder of a match and joining it to a base.

use vstd::prelude::*;
use crate::text::{push_all, slice_of};

verus! {

/// `s` with every run of slashes replaced by a single slash.
pub open spec fn collapse_slashes(s: Seq<char>) -> Seq<char>
    decreases s.len(),
{
    if s.len() == 0 {
        s
    } else {
        let init = collapse_slashes(s.drop_last());
        if s.last() == '/' && init.len() > 0 && init.last() == '/' {
            init
        } else {
            init.push(s.last())
        }
    }
}

/// The normal form of a path: one leading slash, no empty segment and no
/// trailing slash. The root is `/`.
pub open spec fn normalize_path(s: Seq<char>) -> Seq<char> {
    let c = collapse_slashes(seq!['/'] + s);
    if c.len() > 1 && c.last() == '/' {
        c.drop_last()
    } else {
        c
    }
}

/// Whether `p` is in normal form.
pub open spec fn is_normal_path(p: Seq<char>) -> bool {
    &&& p.len() >= 1
    &&& p[0] == '/'
    &&& forall|i: int| 0 <= i < p.len() - 1 ==> !(#[trigger] p[i] == '/' && p[i + 1] == '/')
    &&& p.len() > 1 ==> p.last() != '/'
}

/// Collapsing keeps the first character, leaves no two slashes side by side
/// and ends as its input ends.
pub proof fn lemma_collapse_shape(s: Seq<char>)
    ensures
        collapse_slashes(s).len() <= s.len(),
        s.len() > 0 ==> collapse_slashes(s).len() > 0 && collapse_slashes(s)[0] == s[0]
            && collapse_slashes(s).last() == s.last(),
        forall|i: int|
            0 <= i < collapse_slashes(s).len() - 1 ==> !(#[trigger] collapse_slashes(s)[i] == '/'
                && collapse_slashes(s)[i + 1] == '/'),
    decreases s.len(),
{
    if s.len() > 0 {
        let init = collapse_slashes(s.drop_last());
        lemma_collapse_shape(s.drop_last());
        if s.len() > 1 {
            assert(s.drop_last()[0] == s[0]);
        }
    }
}

/// A path without two slashes side by side is left alone by collapsing.
pub proof fn lemma_collapse_fixed(s: Seq<char>)
    requires
        forall|i: int| 0 <= i < s.len() - 1 ==> !(#[trigger] s[i] == '/' && s[i + 1] == '/'),
    ensures
        collapse_slashes(s) == s,
    decreases s.len(),
{
    if s.len() > 0 {
        let init = s.drop_last();
        assert forall|i: int| 0 <= i < init.len() - 1 implies !(#[trigger] init[i] == '/' && init[i
            + 1] == '/') by {
            assert(init[i] == s[i] && init[i + 1] == s[i + 1]);
        }
        lemma_collapse_fixed(init);
        if init.len() > 0 {
            assert(init.last() == s[s.len() - 2]);
        }
        assert(init.push(s.last()) =~= s);
    }
}

/// Normalizing gives a path in normal form.
pub proof fn lemma_normalize_is_normal(s: Seq<char>)
    ensures
        is_normal_path(normalize_path(s)),
{
    let whole = seq!['/'] + s;
    lemma_collapse_shape(whole);
    let c = collapse_slashes(whole);
    assert(whole[0] == '/');
    if c.len() > 1 && c.last() == '/' {
        let d = c.drop_last();
        assert(d[0] == c[0]);
        assert forall|i: int| 0 <= i < d.len() - 1 implies !(#[trigger] d[i] == '/' && d[i + 1]
            == '/') by {
            assert(d[i] == c[i] && d[i + 1] == c[i + 1]);
        }
        if d.len() > 1 {
            assert(d.last() == c[c.len() - 2]);
            assert(!(c[c.len() - 2] == '/' && c[c.len() - 2 + 1] == '/'));
        }
    }
}

/// A path in normal form is its own normal form.
pub proof fn lemma_normalize_fixed(p: Seq<char>)
    requires
        is_normal_path(p),
    ensures
        normalize_path(p) == p,
{
    let whole = seq!['/'] + p;
    // The first step collapses the doubled leading slash.
    assert(collapse_slashes(whole) == p) by {
        lemma_collapse_prepend_slash(p);
        lemma_collapse_fixed(p);
    }
}

/// A single character collapses to itself.
proof fn lemma_collapse_single(c: char)
    ensures
        collapse_slashes(seq![c]) == seq![c],
{
    let one = seq![c];
    assert(one.drop_last() =~= Seq::<char>::empty());
    assert(collapse_slashes(one.drop_last()).len() == 0);
    assert(Seq::<char>::empty().push(c) =~= one);
}

/// One more slash in front of a path that begins with a slash collapses away.
proof fn lemma_collapse_prepend_slash(p: Seq<char>)
    requires
        p.len() >= 1,
        p[0] == '/',
    ensures
        collapse_slashes(seq!['/'] + p) == collapse_slashes(p),
    decreases p.len(),
{
    let whole = seq!['/'] + p;
    assert(whole.drop_last() =~= seq!['/'] + p.drop_last());
    assert(whole.last() == p.last());
    if p.len() == 1 {
        assert(p.drop_last() =~= Seq::<char>::empty());
        assert((seq!['/'] + p.drop_last()) =~= seq!['/']);
        lemma_collapse_single('/');
        assert(p =~= seq!['/']);
        assert(whole.drop_last() =~= seq!['/']);
    } else {
        assert(p.drop_last()[0] == p[0]);
        lemma_collapse_prepend_slash(p.drop_last());
    }
}

/// The normal form of `v`, read as a path.
pub fn normalize(v: &Vec<char>) -> (r: Vec<char>)
    ensures
        r@ == normalize_path(v@),
{
    let mut r: Vec<char> = Vec::new();
    r.push('/');
    assert(r@ =~= collapse_slashes(seq!['/'] + v@.take(0))) by {
        assert(seq!['/'] + v@.take(0) =~= seq!['/']);
        lemma_collapse_single('/');
    }
    let mut i: usize = 0;
    while i < v.len()
        invariant
            i <= v.len(),
            r@.len() >= 1,
            r@ == collapse_slashes(seq!['/'] + v@.take(i as int)),
        decreases v.len() - i,
    {
        let c: char = v[i];
        let last: char = r[r.len() - 1];
        proof {
            let next = seq!['/'] + v@.take(i + 1);
            assert(next.drop_last() =~= seq!['/'] + v@.take(i as int));
            assert(next.last() == c);
        }
        if !(c == '/' && last == '/') {
            r.push(c);
        }
        i += 1;
    }
    assert(v@.take(v.len() as int) =~= v@);
    if r.len() > 1 && r[r.len() - 1] == '/' {
        r.pop();
    }
    r
}

/// Whether the route prefix `prefix` covers the request path `path`: the
/// path begins with the prefix, and the prefix ends where a segment of the
/// path ends.
pub open spec fn prefix_matches(prefix: Seq<char>, path: Seq<char>) -> bool {
    &&& prefix.is_prefix_of(path)
    &&& {
        ||| prefix.len() > 0 && prefix.last() == '/'
        ||| path.len() == prefix.len()
        ||| path[prefix.len() as int] == '/'
    }
}

/// What is left of `path` behind a matching `prefix`. For a prefix in normal
/// form it is empty or begins with the slash that ended the prefix.
pub open spec fn remainder(prefix: Seq<char>, path: Seq<char>) -> Seq<char> {
    if prefix.len() > 0 && prefix.last() == '/' {
        path.skip(prefix.len() - 1)
    } else {
        path.skip(prefix.len() as int)
    }
}

/// The remainder of a match is empty or begins with a slash.
pub proof fn lemma_remainder_shape(prefix: Seq<char>, path: Seq<char>)
    requires
        prefix_matches(prefix, path),
    ensures
        remainder(prefix, path).len() == 0 || remainder(prefix, path)[0] == '/',
        remainder(prefix, path).len() <= path.len(),
{
    if prefix.len() > 0 && prefix.last() == '/' {
        assert(path[prefix.len() - 1] == prefix[prefix.len() - 1]);
    }
}

/// Whether `prefix` covers `path`.
pub fn covers(prefix: &Vec<char>, path: &Vec<char>) -> (m: bool)
    ensures
        m == prefix_matches(prefix@, path@),
{
    let n: usize = prefix.len();
    if n > path.len() {
        return false;
    }
    let mut i: usize = 0;
    while i < n
        invariant
            i <= n == prefix.len(),
            n <= path.len(),
            prefix@.take(i as int) == path@.take(i as int),
        decreases n - i,
    {
        if prefix[i] != path[i] {
            assert(path@.subrange(0, n as int)[i as int] != prefix@[i as int]);
            return false;
        }
        i += 1;
        assert(prefix@.take(i as int) =~= prefix@.take(i - 1).push(prefix@[i - 1]));
        assert(path@.take(i as int) =~= path@.take(i - 1).push(path@[i - 1]));
    }
    assert(prefix@.take(n as int) =~= prefix@);
    assert(path@.take(n as int) =~= path@.subrange(0, n as int));
    (n > 0 && prefix[n - 1] == '/') || path.len() == n || path[n] == '/'
}

/// Where the remainder of `path` behind `prefix` begins, for a path that
/// is at least as long as the prefix.
pub fn remainder_start(prefix: &Vec<char>, path: &Vec<char>) -> (at: usize)
    ensures
        at <= path.len(),
        prefix.len() <= path.len() ==> path@.skip(at as int) == remainder(prefix@, path@),
{
    let n: usize = prefix.len();
    let at: usize = if n > 0 && prefix[n - 1] == '/' {
        n - 1
    } else {
        n
    };
    if at > path.len() {
        path.len()
    } else {
        at
    }
}

/// Whether `s` has a segment that is exactly `..`.
pub open spec fn has_parent_segment(s: Seq<char>) -> bool {
    exists|i: int| is_parent_segment_at(s, i)
}

/// Whether a segment `..` begins at position `i` of `s`.
pub open spec fn is_parent_segment_at(s: Seq<char>, i: int) -> bool {
    &&& 0 <= i
    &&& i + 2 <= s.len()
    &&& s[i] == '.'
    &&& s[i + 1] == '.'
    &&& (i == 0 || s[i - 1] == '/')
    &&& (i + 2 == s.len() || s[i + 2] == '/')
}

/// Whether `v` has a segment that is exactly `..`.
pub fn climbs(v: &Vec<char>) -> (found: bool)
    ensures
        found == has_parent_segment(v@),
{
    let n: usize = v.len();
    if n < 2 {
        return false;
    }
    let mut i: usize = 0;
    while i < n - 1
        invariant
            n == v.len(),
            n >= 2,
            i <= n - 1,
            forall|k: int| 0 <= k < i ==> !is_parent_segment_at(v@, k),
        decreases n - i,
    {
        if v[i] == '.' && v[i + 1] == '.' && (i == 0 || v[i - 1] == '/') && (i + 2 == n || v[i + 2]
            == '/') {
            assert(is_parent_segment_at(v@, i as int));
            return true;
        }
        i += 1;
    }
    false
}

/// `base` followed by `rest`, with a single slash where the two meet when
/// `base` ends in one and `rest` begins with one.
pub open spec fn join(base: Seq<char>, rest: Seq<char>) -> Seq<char> {
    if base.len() > 0 && base.last() == '/' && rest.len() > 0 && rest[0] == '/' {
        base + rest.drop_first()
    } else {
        base + rest
    }
}

/// Joining keeps the base as a prefix and drops at most the one slash at
/// which the two parts meet.
pub proof fn lemma_join_shape(base: Seq<char>, rest: Seq<char>)
    ensures
        base.is_prefix_of(join(base, rest)),
        join(base, rest).skip(base.len() as int) == rest || (rest.len() > 0 && rest[0] == '/'
            && join(base, rest).skip(base.len() as int) == rest.drop_first()),
{
    let j = join(base, rest);
    assert(j.subrange(0, base.len() as int) =~= base);
    if base.len() > 0 && base.last() == '/' && rest.len() > 0 && rest[0] == '/' {
        assert(j.skip(base.len() as int) =~= rest.drop_first());
    } else {
        assert(j.skip(base.len() as int) =~= rest);
    }
}

/// `base` joined with `path[from..]`.
pub fn join_from(base: &Vec<char>, path: &Vec<char>, from: usize) -> (r: Vec<char>)
    requires
        from <= path.len(),
    ensures
        r@ == join(base@, path@.skip(from as int)),
{
    let mut r: Vec<char> = Vec::new();
    push_all(&mut r, base);
    assert(r@ =~= base@);
    let ghost rest = path@.skip(from as int);
    let mut start: usize = from;
    if base.len() > 0 && base[base.len() - 1] == '/' && from < path.len() && path[from] == '/' {
        start = from + 1;
        assert(path@.skip(start as int) =~= rest.drop_first());
    }
    let tail = slice_of(path, start, path.len());
    assert(tail@ =~= path@.skip(start as int));
    push_all(&mut r, &tail);
    r
}

} // verus!
