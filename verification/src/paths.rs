//! File-system paths as text, with `/` as the separator: the component model of
//! `std::path::Path` on Unix (`components`, `join`, `file_name`, `parent`,
//! `starts_with`, `is_absolute`), specified over `Seq<char>`.

use vstd::prelude::*;
use crate::text::{chars_eq, chars_to_string, copy_chars, str_chars, views};

verus! {

/// The raw segments of `s` between `/` separators (`str::split('/')`).
pub open spec fn split_s(s: Seq<char>) -> Seq<Seq<char>>
    decreases s.len(),
{
    if s.len() == 0 {
        seq![Seq::<char>::empty()]
    } else {
        let r = split_s(s.drop_last());
        if s.last() == '/' {
            r.push(Seq::<char>::empty())
        } else {
            r.update(r.len() - 1, r.last().push(s.last()))
        }
    }
}

pub proof fn lemma_split_nonempty(s: Seq<char>)
    ensures
        split_s(s).len() >= 1,
    decreases s.len(),
{
    if s.len() > 0 {
        lemma_split_nonempty(s.drop_last());
    }
}

/// Splitting at a separator splits each side.
pub proof fn lemma_split_concat(a: Seq<char>, b: Seq<char>)
    ensures
        split_s(a + seq!['/'] + b) == split_s(a) + split_s(b),
    decreases b.len(),
{
    let s = a + seq!['/'] + b;
    if b.len() == 0 {
        assert(s.drop_last() =~= a);
        assert(split_s(s) =~= split_s(a) + split_s(b));
    } else {
        let b2 = b.drop_last();
        assert(s.drop_last() =~= a + seq!['/'] + b2);
        lemma_split_concat(a, b2);
        lemma_split_nonempty(b2);
        lemma_split_nonempty(a);
        assert(s.last() == b.last());
        assert(split_s(s) =~= split_s(a) + split_s(b));
    }
}

/// A text without separators is one segment.
pub proof fn lemma_split_no_slash(a: Seq<char>)
    requires
        forall|i: int| 0 <= i < a.len() ==> a[i] != '/',
    ensures
        split_s(a) == seq![a],
    decreases a.len(),
{
    if a.len() > 0 {
        lemma_split_no_slash(a.drop_last());
        assert(a.drop_last().push(a.last()) =~= a);
        assert(split_s(a) =~= seq![a]);
    } else {
        assert(a =~= Seq::<char>::empty());
    }
}

/// Filtering distributes over concatenation.
pub proof fn lemma_keep_concat(x: Seq<Seq<char>>, y: Seq<Seq<char>>)
    ensures
        keep_segs(x + y) == keep_segs(x) + keep_segs(y),
    decreases y.len(),
{
    if y.len() == 0 {
        assert(x + y =~= x);
        assert(keep_segs(y) =~= Seq::<Seq<char>>::empty());
        assert(keep_segs(x) + keep_segs(y) =~= keep_segs(x));
    } else {
        lemma_keep_concat(x, y.drop_last());
        assert((x + y).drop_last() =~= x + y.drop_last());
        assert((x + y).last() == y.last());
        if is_kept(y.last()) {
            assert(keep_segs(x + y) =~= keep_segs(x) + keep_segs(y));
        } else {
            assert(keep_segs(x + y) =~= keep_segs(x) + keep_segs(y));
        }
    }
}

/// The segment `"."`.
pub open spec fn dot_s() -> Seq<char> {
    seq!['.']
}

/// The segment `".."`.
pub open spec fn dotdot_s() -> Seq<char> {
    seq!['.', '.']
}

/// The marker that stands for the root component.
pub open spec fn root_s() -> Seq<char> {
    seq!['/']
}

/// A raw segment that yields a component (not empty, not `"."`).
pub open spec fn is_kept(seg: Seq<char>) -> bool {
    seg.len() > 0 && seg != dot_s()
}

/// The raw segments that yield components, in order.
pub open spec fn keep_segs(ss: Seq<Seq<char>>) -> Seq<Seq<char>>
    decreases ss.len(),
{
    if ss.len() == 0 {
        Seq::empty()
    } else {
        let r = keep_segs(ss.drop_last());
        if is_kept(ss.last()) {
            r.push(ss.last())
        } else {
            r
        }
    }
}

pub open spec fn is_abs_s(p: Seq<char>) -> bool {
    p.len() > 0 && p[0] == '/'
}

/// A relative path whose first segment is `"."` starts with a `CurDir` component.
pub open spec fn leading_curdir(p: Seq<char>) -> bool {
    !is_abs_s(p) && split_s(p)[0] == dot_s()
}

/// `Path::components`, with `RootDir` written `"/"`, `CurDir` written `"."`,
/// `ParentDir` written `".."` and a normal component written as itself.
pub open spec fn comps_s(p: Seq<char>) -> Seq<Seq<char>> {
    let head = if is_abs_s(p) {
        seq![root_s()]
    } else if leading_curdir(p) {
        seq![dot_s()]
    } else {
        Seq::<Seq<char>>::empty()
    };
    head + keep_segs(split_s(p))
}

/// `Path::join` (and `PathBuf::push`): an absolute `rel` replaces `base`;
/// otherwise a separator is inserted unless `base` is empty or ends with one.
pub open spec fn join_s(base: Seq<char>, rel: Seq<char>) -> Seq<char> {
    if is_abs_s(rel) {
        rel
    } else if base.len() == 0 || base.last() == '/' {
        base + rel
    } else {
        base + seq!['/'] + rel
    }
}

/// `Path::file_name`: the last component, when it is a normal one.
pub open spec fn file_name_s(p: Seq<char>) -> Option<Seq<char>> {
    let c = comps_s(p);
    if c.len() > 0 && c.last() != root_s() && c.last() != dot_s() && c.last() != dotdot_s() {
        Some(c.last())
    } else {
        None
    }
}

/// `Path::parent().is_some()`.
pub open spec fn has_parent_s(p: Seq<char>) -> bool {
    let c = comps_s(p);
    c.len() > 0 && c.last() != root_s()
}

/// `Path::starts_with`: component-wise prefix.
pub open spec fn path_starts_with_s(p: Seq<char>, base: Seq<char>) -> bool {
    comps_s(base).is_prefix_of(comps_s(p))
}

pub proof fn lemma_views_push(s: Seq<Vec<char>>, x: Vec<char>)
    ensures
        views(s.push(x)) == views(s).push(x@),
{
    assert(views(s.push(x)) =~= views(s).push(x@));
}

/// Splits `p` at every `/`.
pub fn split_slash(p: &Vec<char>) -> (r: Vec<Vec<char>>)
    ensures
        views(r@) == split_s(p@),
{
    let mut segs: Vec<Vec<char>> = Vec::new();
    let mut cur: Vec<char> = Vec::new();
    let mut i: usize = 0;
    while i < p.len()
        invariant
            i <= p.len(),
            split_s(p@.take(i as int)) == views(segs@).push(cur@),
        decreases p.len() - i,
    {
        let c = p[i];
        proof {
            let t = p@.take(i as int + 1);
            assert(t.drop_last() =~= p@.take(i as int));
            assert(t.last() == c);
        }
        if c == '/' {
            let done = cur;
            segs.push(done);
            cur = Vec::new();
            proof {
                assert(views(segs@) =~= split_s(p@.take(i as int)).drop_last().push(done@));
                assert(split_s(p@.take(i as int + 1)) =~= views(segs@).push(cur@));
            }
        } else {
            let ghost old_cur = cur@;
            cur.push(c);
            proof {
                assert(split_s(p@.take(i as int + 1)) =~= views(segs@).push(cur@));
            }
        }
        i = i + 1;
    }
    assert(p@.take(p.len() as int) =~= p@);
    segs.push(cur);
    assert(views(segs@) =~= split_s(p@));
    segs
}

/// Keeps the segments that yield components.
pub fn keep_components(ss: &Vec<Vec<char>>) -> (r: Vec<Vec<char>>)
    ensures
        views(r@) == keep_segs(views(ss@)),
{
    let mut out: Vec<Vec<char>> = Vec::new();
    let dot: Vec<char> = vec!['.'];
    let mut i: usize = 0;
    while i < ss.len()
        invariant
            i <= ss.len(),
            dot@ == dot_s(),
            views(out@) == keep_segs(views(ss@).take(i as int)),
        decreases ss.len() - i,
    {
        proof {
            let t = views(ss@).take(i as int + 1);
            assert(t.drop_last() =~= views(ss@).take(i as int));
            assert(t.last() == ss@[i as int]@);
        }
        let seg = &ss[i];
        if seg.len() > 0 && !chars_eq(seg, &dot) {
            out.push(copy_chars(seg));
            proof {
                assert(views(out@) =~= keep_segs(views(ss@).take(i as int + 1)));
            }
        }
        i = i + 1;
    }
    assert(views(ss@).take(ss.len() as int) =~= views(ss@));
    out
}

/// `Path::components`, rendered as in `comps_s`.
pub fn components(p: &Vec<char>) -> (r: Vec<Vec<char>>)
    ensures
        views(r@) == comps_s(p@),
{
    let segs = split_slash(p);
    proof {
        lemma_split_nonempty(p@);
    }
    let kept = keep_components(&segs);
    let mut out: Vec<Vec<char>> = Vec::new();
    let dot: Vec<char> = vec!['.'];
    assert(dot@ =~= dot_s());
    if p.len() > 0 && p[0] == '/' {
        let root: Vec<char> = vec!['/'];
        assert(root@ =~= root_s());
        out.push(root);
        assert(views(out@) =~= seq![root_s()]);
    } else if chars_eq(&segs[0], &dot) {
        assert(segs@[0]@ == split_s(p@)[0]);
        out.push(dot);
        assert(views(out@) =~= seq![dot_s()]);
    } else {
        assert(segs@[0]@ == split_s(p@)[0]);
        assert(views(out@) =~= Seq::<Seq<char>>::empty());
    }
    let mut i: usize = 0;
    let ghost head = views(out@);
    while i < kept.len()
        invariant
            i <= kept.len(),
            views(out@) == head + views(kept@).take(i as int),
        decreases kept.len() - i,
    {
        let ghost before = out@;
        out.push(copy_chars(&kept[i]));
        proof {
            lemma_views_push(before, out@.last());
            assert(out@ == before.push(out@.last()));
        }
        i = i + 1;
        assert(views(out@) =~= head + views(kept@).take(i as int));
    }
    assert(views(kept@).take(kept.len() as int) =~= views(kept@));
    assert(views(out@) =~= comps_s(p@));
    out
}

/// `Path::components().count()`.
pub fn component_count(p: &Vec<char>) -> (n: usize)
    ensures
        n == comps_s(p@).len(),
{
    let c = components(p);
    c.len()
}

/// `Path::is_absolute` on Unix.
pub fn is_absolute(p: &Vec<char>) -> (r: bool)
    ensures
        r == is_abs_s(p@),
{
    p.len() > 0 && p[0] == '/'
}

/// `Path::join`.
pub fn join(base: &Vec<char>, rel: &Vec<char>) -> (r: Vec<char>)
    ensures
        r@ == join_s(base@, rel@),
{
    if rel.len() > 0 && rel[0] == '/' {
        return copy_chars(rel);
    }
    let mut out = copy_chars(base);
    if base.len() > 0 && base[base.len() - 1] != '/' {
        out.push('/');
    }
    let mut i: usize = 0;
    let ghost head = out@;
    while i < rel.len()
        invariant
            i <= rel.len(),
            out@ == head + rel@.take(i as int),
        decreases rel.len() - i,
    {
        out.push(rel[i]);
        i = i + 1;
        assert(out@ =~= head + rel@.take(i as int));
    }
    assert(rel@.take(rel.len() as int) =~= rel@);
    assert(out@ =~= join_s(base@, rel@));
    out
}

/// `Path::new(base).join(rel)` on strings.
pub fn join_str(base: &str, rel: &str) -> (r: String)
    ensures
        r@ == join_s(base@, rel@),
{
    let b = str_chars(base);
    let s = str_chars(rel);
    let j = join(&b, &s);
    chars_to_string(&j)
}

/// `Path::file_name`.
pub fn file_name(p: &Vec<char>) -> (r: Option<Vec<char>>)
    ensures
        match r {
            Some(v) => file_name_s(p@) == Some(v@),
            None => file_name_s(p@) is None,
        },
{
    let c = components(p);
    if c.len() == 0 {
        return None;
    }
    let last = &c[c.len() - 1];
    let root: Vec<char> = vec!['/'];
    let dot: Vec<char> = vec!['.'];
    let dotdot: Vec<char> = vec!['.', '.'];
    assert(root@ =~= root_s());
    assert(dot@ =~= dot_s());
    assert(dotdot@ =~= dotdot_s());
    assert(last@ == comps_s(p@).last());
    if chars_eq(last, &root) || chars_eq(last, &dot) || chars_eq(last, &dotdot) {
        None
    } else {
        Some(copy_chars(last))
    }
}

/// `Path::parent().is_some()`.
pub fn has_parent(p: &Vec<char>) -> (r: bool)
    ensures
        r == has_parent_s(p@),
{
    let c = components(p);
    if c.len() == 0 {
        return false;
    }
    let root: Vec<char> = vec!['/'];
    assert(root@ =~= root_s());
    assert(c@[c.len() - 1]@ == comps_s(p@).last());
    !chars_eq(&c[c.len() - 1], &root)
}

/// `Path::starts_with`.
pub fn path_starts_with(p: &Vec<char>, base: &Vec<char>) -> (r: bool)
    ensures
        r == path_starts_with_s(p@, base@),
{
    let cp = components(p);
    let cb = components(base);
    if cb.len() > cp.len() {
        assert(views(cb@).len() > views(cp@).len());
        return false;
    }
    let mut i: usize = 0;
    while i < cb.len()
        invariant
            cb.len() <= cp.len(),
            views(cb@) == comps_s(base@),
            views(cp@) == comps_s(p@),
            i <= cb.len(),
            forall|k: int| 0 <= k < i ==> views(cb@)[k] == views(cp@)[k],
        decreases cb.len() - i,
    {
        if !chars_eq(&cb[i], &cp[i]) {
            assert(views(cb@)[i as int] != views(cp@)[i as int]);
            assert(views(cp@).take(cb.len() as int)[i as int] == views(cp@)[i as int]);
            assert(views(cp@).subrange(0, cb.len() as int)[i as int] == views(cp@)[i as int]);
            assert(!(views(cb@) =~= views(cp@).subrange(0, cb.len() as int)));
            assert(!comps_s(base@).is_prefix_of(comps_s(p@)));
            return false;
        }
        i = i + 1;
    }
    assert(views(cb@) =~= views(cp@).take(cb.len() as int));
    true
}

/// `Path == Path`: two paths are equal when their components are.
pub fn same_path(a: &str, b: &str) -> (r: bool)
    ensures
        r == (comps_s(a@) == comps_s(b@)),
{
    let ca = components(&str_chars(a));
    let cb = components(&str_chars(b));
    if ca.len() != cb.len() {
        assert(views(ca@).len() != views(cb@).len());
        return false;
    }
    let mut i: usize = 0;
    while i < ca.len()
        invariant
            ca.len() == cb.len(),
            views(ca@) == comps_s(a@),
            views(cb@) == comps_s(b@),
            i <= ca.len(),
            forall|k: int| 0 <= k < i ==> views(ca@)[k] == views(cb@)[k],
        decreases ca.len() - i,
    {
        if !chars_eq(&ca[i], &cb[i]) {
            assert(views(ca@)[i as int] != views(cb@)[i as int]);
            return false;
        }
        i = i + 1;
    }
    assert(views(ca@) =~= views(cb@));
    true
}

/// Joining a relative path onto a base that does not end with a separator
/// appends the path's segments that yield components to the base's components
/// (a leading `.` of the relative path is dropped); when the relative path does
/// not start with `.`, these are exactly its components.
pub proof fn lemma_comps_join(base: Seq<char>, rel: Seq<char>)
    requires
        base.len() > 0,
        base.last() != '/',
        !is_abs_s(rel),
    ensures
        comps_s(join_s(base, rel)) == comps_s(base) + keep_segs(split_s(rel)),
        !leading_curdir(rel) ==> comps_s(rel) == keep_segs(split_s(rel)),
{
    let j = join_s(base, rel);
    assert(j =~= base + seq!['/'] + rel);
    lemma_split_concat(base, rel);
    lemma_split_nonempty(base);
    lemma_keep_concat(split_s(base), split_s(rel));
    assert(j[0] == base[0]);
    assert(split_s(j)[0] == split_s(base)[0]);
    if !leading_curdir(rel) {
        assert(comps_s(rel) =~= keep_segs(split_s(rel)));
    }
    if is_abs_s(base) {
        assert(comps_s(j) =~= comps_s(base) + keep_segs(split_s(rel)));
    } else if leading_curdir(base) {
        assert(leading_curdir(j));
        assert(comps_s(j) =~= comps_s(base) + keep_segs(split_s(rel)));
    } else {
        assert(!leading_curdir(j));
        assert(comps_s(j) =~= comps_s(base) + keep_segs(split_s(rel)));
    }
}

/// A path joined onto a base that does not end with a separator stays under
/// that base, component-wise.
pub proof fn lemma_join_under_base(base: Seq<char>, rel: Seq<char>)
    requires
        base.len() > 0,
        base.last() != '/',
        !is_abs_s(rel),
    ensures
        path_starts_with_s(join_s(base, rel), base),
{
    lemma_comps_join(base, rel);
    let whole = comps_s(join_s(base, rel));
    assert(whole.subrange(0, comps_s(base).len() as int) =~= comps_s(base));
}

/// A path joined with a non-empty relative path ends as that path does.
pub proof fn lemma_join_last(base: Seq<char>, rel: Seq<char>)
    requires
        rel.len() > 0,
    ensures
        join_s(base, rel).len() > 0,
        join_s(base, rel).last() == rel.last(),
{
}

} // verus!
