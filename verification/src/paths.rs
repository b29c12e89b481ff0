//! Unix paths held as text. A path is split at `/` into pieces; these
//! functions state, over those pieces, what `std::path::Path` answers about
//! components, file names, extensions and joining.

use vstd::prelude::*;

use crate::text::{chars_of, range_texts, ranges_in};

verus! {

/// The `/`-separated pieces of `cur + s`, where `cur` is the part of the
/// current piece already read.
pub open spec fn pieces_from(cur: Seq<char>, s: Seq<char>) -> Seq<Seq<char>>
    decreases s.len(),
{
    if s.len() == 0 {
        seq![cur]
    } else if s[0] == '/' {
        seq![cur] + pieces_from(Seq::empty(), s.drop_first())
    } else {
        pieces_from(cur.push(s[0]), s.drop_first())
    }
}

/// `s` split at every `/` (at least one piece; empty pieces kept).
pub open spec fn pieces(s: Seq<char>) -> Seq<Seq<char>> {
    pieces_from(Seq::empty(), s)
}

pub open spec fn dot() -> Seq<char> {
    seq!['.']
}

pub open spec fn dot_dot() -> Seq<char> {
    seq!['.', '.']
}

/// A path that does not stay inside the directory it is taken relative to:
/// empty, absolute (a root component), or holding a `..` component.
pub open spec fn escapes(s: Seq<char>) -> bool {
    ||| s.len() == 0
    ||| s[0] == '/'
    ||| pieces(s).contains(dot_dot())
}

/// The pieces that name something: neither empty nor `.`.
pub open spec fn named(ps: Seq<Seq<char>>) -> Seq<Seq<char>>
    decreases ps.len(),
{
    if ps.len() == 0 {
        Seq::empty()
    } else if ps.last().len() == 0 || ps.last() == dot() {
        named(ps.drop_last())
    } else {
        named(ps.drop_last()).push(ps.last())
    }
}

/// `Path::components`, each component as text: a leading `/` is the root
/// `"/"`, a leading `.` of a relative path stays, other `.` and empty pieces
/// are normalised away.
pub open spec fn comps(s: Seq<char>) -> Seq<Seq<char>> {
    let ps = pieces(s);
    if s.len() > 0 && s[0] == '/' {
        seq![seq!['/']] + named(ps.drop_first())
    } else if ps[0] == dot() {
        seq![dot()] + named(ps.drop_first())
    } else {
        named(ps)
    }
}

/// `Path::file_name` for a path without `..`: the last named piece.
pub open spec fn file_name(s: Seq<char>) -> Option<Seq<char>> {
    let ns = named(pieces(s));
    if ns.len() == 0 {
        None
    } else {
        Some(ns.last())
    }
}

/// Index of the last `.` in `n`, or -1.
pub open spec fn last_dot(n: Seq<char>) -> int
    decreases n.len(),
{
    if n.len() == 0 {
        -1
    } else if n.last() == '.' {
        n.len() - 1
    } else {
        last_dot(n.drop_last())
    }
}

/// The extension of a file name: the text after its last `.`, unless that
/// dot is the first character (a dotfile) or the name is `..`.
pub open spec fn name_extension(n: Seq<char>) -> Option<Seq<char>> {
    if n == dot_dot() || last_dot(n) <= 0 {
        None
    } else {
        Some(n.skip(last_dot(n) + 1))
    }
}

/// `Path::extension`.
pub open spec fn extension(s: Seq<char>) -> Option<Seq<char>> {
    match file_name(s) {
        Some(n) => name_extension(n),
        None => None,
    }
}

/// `PathBuf::join` on Unix: an absolute `rel` replaces `base`; otherwise a
/// separator is put between them unless `base` is empty or already ends in
/// one.
pub open spec fn join_path(base: Seq<char>, rel: Seq<char>) -> Seq<char> {
    if rel.len() > 0 && rel[0] == '/' {
        rel
    } else if base.len() > 0 && base.last() != '/' {
        base + seq!['/'] + rel
    } else {
        base + rel
    }
}

/// The pieces of `v` as index ranges.
pub fn piece_ranges(v: &Vec<char>) -> (rs: Vec<(usize, usize)>)
    ensures
        ranges_in(v@, rs@),
        range_texts(v@, rs@) == pieces(v@),
        rs@.len() >= 1,
{
    let mut rs: Vec<(usize, usize)> = Vec::new();
    let mut start: usize = 0;
    let mut j: usize = 0;
    assert(v@.skip(0) == v@);
    assert(v@.subrange(0, 0) == Seq::<char>::empty());
    assert(range_texts(v@, rs@) == Seq::<Seq<char>>::empty());
    while j < v.len()
        invariant
            start <= j <= v@.len(),
            ranges_in(v@, rs@),
            pieces(v@) == range_texts(v@, rs@) + pieces_from(
                v@.subrange(start as int, j as int),
                v@.skip(j as int),
            ),
        decreases v@.len() - j,
    {
        let ghost cur = v@.subrange(start as int, j as int);
        assert(v@.skip(j as int).drop_first() == v@.skip(j + 1));
        assert(v@.skip(j as int)[0] == v@[j as int]);
        if v[j] == '/' {
            let ghost before = rs@;
            rs.push((start, j));
            assert(range_texts(v@, rs@) == range_texts(v@, before).push(cur));
            start = j + 1;
            assert(v@.subrange(start as int, start as int) == Seq::<char>::empty());
        } else {
            assert(v@.subrange(start as int, j + 1) == cur.push(v@[j as int]));
        }
        j = j + 1;
    }
    let ghost before = rs@;
    rs.push((start, v.len()));
    assert(range_texts(v@, rs@) == range_texts(v@, before).push(
        v@.subrange(start as int, v@.len() as int),
    ));
    rs
}

/// Whether `v[lo..hi]` is exactly `..`.
fn is_dot_dot(v: &Vec<char>, lo: usize, hi: usize) -> (b: bool)
    requires
        lo <= hi <= v@.len(),
    ensures
        b == (v@.subrange(lo as int, hi as int) == dot_dot()),
{
    if hi - lo == 2 && v[lo] == '.' && v[lo + 1] == '.' {
        assert(v@.subrange(lo as int, hi as int) =~= dot_dot());
        true
    } else {
        proof {
            let t = v@.subrange(lo as int, hi as int);
            if t == dot_dot() {
                assert(t.len() == 2);
                assert(t[0] == v@[lo as int] && t[0] == '.');
                assert(t[1] == v@[lo + 1] && t[1] == '.');
            }
        }
        false
    }
}

/// Whether `v[lo..hi]` is exactly `.`.
fn is_dot(v: &Vec<char>, lo: usize, hi: usize) -> (b: bool)
    requires
        lo <= hi <= v@.len(),
    ensures
        b == (v@.subrange(lo as int, hi as int) == dot()),
{
    if hi - lo == 1 && v[lo] == '.' {
        assert(v@.subrange(lo as int, hi as int) =~= dot());
        true
    } else {
        proof {
            let t = v@.subrange(lo as int, hi as int);
            if t == dot() {
                assert(t.len() == 1);
                assert(t[0] == v@[lo as int] && t[0] == '.');
            }
        }
        false
    }
}

/// Whether the path leaves the directory it is relative to: it is empty,
/// absolute, or has a `..` component.
pub fn path_escapes(s: &str) -> (b: bool)
    ensures
        b == escapes(s@),
{
    let v = chars_of(s);
    if v.len() == 0 {
        return true;
    }
    if v[0] == '/' {
        return true;
    }
    let rs = piece_ranges(&v);
    let ghost ps = pieces(v@);
    let mut k: usize = 0;
    while k < rs.len()
        invariant
            k <= rs@.len(),
            v@ == s@,
            ps == pieces(v@),
            ranges_in(v@, rs@),
            range_texts(v@, rs@) == ps,
            forall|i: int| 0 <= i < k ==> ps[i] != dot_dot(),
        decreases rs@.len() - k,
    {
        let (lo, hi) = rs[k];
        assert(rs@[k as int].0 <= rs@[k as int].1 <= v@.len());
        if is_dot_dot(&v, lo, hi) {
            assert(range_texts(v@, rs@)[k as int] == v@.subrange(lo as int, hi as int));
            assert(ps[k as int] == dot_dot());
            assert(ps.contains(dot_dot()));
            return true;
        }
        k = k + 1;
    }
    assert(!ps.contains(dot_dot()));
    false
}

/// A further piece is named unless it is empty or `.`.
proof fn lemma_named_push(ps: Seq<Seq<char>>, p: Seq<char>)
    ensures
        named(ps.push(p)) == if p.len() == 0 || p == dot() {
            named(ps)
        } else {
            named(ps).push(p)
        },
{
    assert(ps.push(p).drop_last() == ps);
}

/// `Path::extension` of `s`.
pub fn path_extension(s: &str) -> (e: Option<String>)
    ensures
        match (e, extension(s@)) {
            (Some(x), Some(y)) => x@ == y,
            (None, None) => true,
            _ => false,
        },
{
    let v = chars_of(s);
    let rs = piece_ranges(&v);
    let ghost ps = pieces(v@);
    // the last named piece among rs[..k]
    let mut last: Option<(usize, usize)> = None;
    let mut k: usize = 0;
    assert(ps.take(0) == Seq::<Seq<char>>::empty());
    while k < rs.len()
        invariant
            k <= rs@.len(),
            ranges_in(v@, rs@),
            range_texts(v@, rs@) == ps,
            match last {
                None => named(ps.take(k as int)).len() == 0,
                Some(r) => r.0 <= r.1 <= v@.len() && named(ps.take(k as int)).len() > 0
                    && named(ps.take(k as int)).last() == v@.subrange(r.0 as int, r.1 as int),
            },
        decreases rs@.len() - k,
    {
        let (lo, hi) = rs[k];
        assert(rs@[k as int].0 <= rs@[k as int].1 <= v@.len());
        assert(ps.take(k + 1) == ps.take(k as int).push(ps[k as int]));
        proof {
            lemma_named_push(ps.take(k as int), ps[k as int]);
        }
        if hi > lo && !is_dot(&v, lo, hi) {
            last = Some((lo, hi));
        }
        k = k + 1;
    }
    assert(ps.take(rs@.len() as int) == ps);
    match last {
        None => None,
        Some((lo, hi)) => {
            let ghost n = v@.subrange(lo as int, hi as int);
            if is_dot_dot(&v, lo, hi) {
                return None;
            }
            // find the last dot in v[lo..hi]
            let mut j = hi;
            while j > lo && v[j - 1] != '.'
                invariant
                    lo <= j <= hi <= v@.len(),
                    n == v@.subrange(lo as int, hi as int),
                    last_dot(n) == last_dot(v@.subrange(lo as int, j as int)),
                decreases j - lo,
            {
                assert(v@.subrange(lo as int, j as int).drop_last() == v@.subrange(lo as int, j - 1));
                j = j - 1;
            }
            if j == lo {
                assert(v@.subrange(lo as int, j as int).len() == 0);
                None
            } else {
                assert(v@.subrange(lo as int, j as int).last() == '.');
                assert(last_dot(n) == j - 1 - lo);
                if j - 1 == lo {
                    None
                } else {
                    let mut out = String::new();
                    crate::text::push_range(&mut out, &v, j, hi);
                    assert(n.skip(last_dot(n) + 1) == v@.subrange(j as int, hi as int));
                    Some(out)
                }
            }
        }
    }
}

/// `PathBuf::join` on Unix.
pub fn join(base: &str, rel: &str) -> (r: String)
    ensures
        r@ == join_path(base@, rel@),
{
    let b = chars_of(base);
    let relv = chars_of(rel);
    let mut r = String::new();
    if relv.len() > 0 && relv[0] == '/' {
        r.append(rel);
    } else if b.len() > 0 && b[b.len() - 1] != '/' {
        r.append(base);
        crate::text::push_char(&mut r, '/');
        r.append(rel);
    } else {
        r.append(base);
        r.append(rel);
    }
    r
}

/// The component ranges of `v`, as `Path::components` would split it (the
/// root is the range of the leading `/`).
pub fn comp_ranges(v: &Vec<char>) -> (cs: Vec<(usize, usize)>)
    ensures
        ranges_in(v@, cs@),
        range_texts(v@, cs@) == comps(v@),
{
    let rs = piece_ranges(v);
    let ghost ps = pieces(v@);
    let mut cs: Vec<(usize, usize)> = Vec::new();
    let mut from: usize = 0;
    if v.len() > 0 && v[0] == '/' {
        cs.push((0, 1));
        assert(v@.subrange(0, 1) =~= seq!['/']);
        from = 1;
    } else {
        let (lo, hi) = rs[0];
        assert(rs@[0].0 <= rs@[0].1 <= v@.len());
        assert(range_texts(v@, rs@)[0] == v@.subrange(lo as int, hi as int));
        if is_dot(v, lo, hi) {
            cs.push((lo, hi));
            from = 1;
        }
    }
    let ghost head = range_texts(v@, cs@);
    let ghost start = from as int;
    assert(ps.subrange(start, start) == Seq::<Seq<char>>::empty());
    let mut k = from;
    while k < rs.len()
        invariant
            start == from as int,
            from <= k <= rs@.len(),
            ranges_in(v@, rs@),
            ranges_in(v@, cs@),
            range_texts(v@, rs@) == ps,
            cs@.len() >= head.len(),
            range_texts(v@, cs@) == head + named(ps.subrange(start, k as int)),
        decreases rs@.len() - k,
    {
        let (lo, hi) = rs[k];
        assert(rs@[k as int].0 <= rs@[k as int].1 <= v@.len());
        assert(ps[k as int] == v@.subrange(lo as int, hi as int));
        assert(ps.subrange(start, k + 1) == ps.subrange(start, k as int).push(ps[k as int]));
        proof {
            lemma_named_push(ps.subrange(start, k as int), ps[k as int]);
        }
        if hi > lo && !is_dot(v, lo, hi) {
            let ghost before = cs@;
            cs.push((lo, hi));
            assert(range_texts(v@, cs@) == range_texts(v@, before).push(v@.subrange(lo as int, hi as int)));
        }
        k = k + 1;
    }
    proof {
        if v@.len() > 0 && v@[0] == '/' {
            assert(ps[0] == v@.subrange(0, 0));
        }
        if from == 1 {
            assert(ps.subrange(1, ps.len() as int) == ps.drop_first());
        } else {
            assert(ps.subrange(0, ps.len() as int) == ps);
        }
    }
    cs
}

/// Whether two paths are equal as `Path`s are: component by component.
#[verifier::loop_isolation(false)]
pub fn same_path(a: &str, b: &str) -> (r: bool)
    ensures
        r == (comps(a@) == comps(b@)),
{
    let av = chars_of(a);
    let bv = chars_of(b);
    let ac = comp_ranges(&av);
    let bc = comp_ranges(&bv);
    let ghost at = comps(a@);
    let ghost bt = comps(b@);
    if ac.len() != bc.len() {
        assert(at.len() != bt.len());
        return false;
    }
    let mut i: usize = 0;
    while i < ac.len()
        invariant
            i <= ac@.len(),
            ac@.len() == bc@.len(),
            ranges_in(av@, ac@),
            ranges_in(bv@, bc@),
            range_texts(av@, ac@) == at,
            range_texts(bv@, bc@) == bt,
            forall|k: int| 0 <= k < i ==> at[k] == bt[k],
        decreases ac@.len() - i,
    {
        let (alo, ahi) = ac[i];
        let (blo, bhi) = bc[i];
        assert(ac@[i as int].0 <= ac@[i as int].1 <= av@.len());
        assert(bc@[i as int].0 <= bc@[i as int].1 <= bv@.len());
        assert(at[i as int] == av@.subrange(alo as int, ahi as int));
        assert(bt[i as int] == bv@.subrange(blo as int, bhi as int));
        if ahi - alo != bhi - blo {
            assert(at[i as int].len() != bt[i as int].len());
            return false;
        }
        let mut j: usize = 0;
        while j < ahi - alo
            invariant
                alo <= ahi <= av@.len(),
                blo <= bhi <= bv@.len(),
                ahi - alo == bhi - blo,
                j <= ahi - alo,
                av@.subrange(alo as int, alo + j) == bv@.subrange(blo as int, blo + j),
            decreases ahi - alo - j,
        {
            if av[alo + j] != bv[blo + j] {
                assert(av@.subrange(alo as int, ahi as int)[j as int] == av@[alo + j]);
                assert(bv@.subrange(blo as int, bhi as int)[j as int] == bv@[blo + j]);
                return false;
            }
            assert(av@.subrange(alo as int, alo + j + 1) == av@.subrange(alo as int, alo + j).push(av@[alo + j]));
            assert(bv@.subrange(blo as int, blo + j + 1) == bv@.subrange(blo as int, blo + j).push(bv@[blo + j]));
            j = j + 1;
        }
        assert(at[i as int] =~= bt[i as int]);
        i = i + 1;
    }
    assert(at =~= bt);
    true
}


// ---------------------------------------------------------------------------
// The order of paths
// ---------------------------------------------------------------------------

/// Whether text `a` sorts before text `b`: at the first character where
/// they differ `a`'s is the smaller, or `a` is a proper prefix of `b`.
pub open spec fn text_before(a: Seq<char>, b: Seq<char>) -> bool
    decreases a.len(),
{
    if b.len() == 0 {
        false
    } else if a.len() == 0 {
        true
    } else if a[0] != b[0] {
        a[0] < b[0]
    } else {
        text_before(a.drop_first(), b.drop_first())
    }
}

/// Whether the components `a` sort before the components `b`: compared one
/// by one as text, a proper prefix first. This is how `Path`s whose
/// components are all names are ordered.
pub open spec fn comps_before(a: Seq<Seq<char>>, b: Seq<Seq<char>>) -> bool
    decreases a.len(),
{
    if b.len() == 0 {
        false
    } else if a.len() == 0 {
        true
    } else if a[0] != b[0] {
        text_before(a[0], b[0])
    } else {
        comps_before(a.drop_first(), b.drop_first())
    }
}

/// No text sorts before itself.
pub proof fn lemma_text_before_irreflexive(a: Seq<char>)
    ensures
        !text_before(a, a),
    decreases a.len(),
{
    if a.len() > 0 {
        lemma_text_before_irreflexive(a.drop_first());
    }
}

/// The text order is transitive.
pub proof fn lemma_text_before_transitive(a: Seq<char>, b: Seq<char>, c: Seq<char>)
    requires
        text_before(a, b),
        text_before(b, c),
    ensures
        text_before(a, c),
    decreases a.len(),
{
    if a.len() > 0 && a[0] == b[0] && b[0] == c[0] {
        lemma_text_before_transitive(a.drop_first(), b.drop_first(), c.drop_first());
    }
}

/// Of two different texts, one sorts before the other.
pub proof fn lemma_text_before_total(a: Seq<char>, b: Seq<char>)
    requires
        a != b,
    ensures
        text_before(a, b) || text_before(b, a),
    decreases a.len(),
{
    if a.len() > 0 && b.len() > 0 && a[0] == b[0] {
        if a.drop_first() == b.drop_first() {
            assert(a =~= seq![a[0]] + a.drop_first());
            assert(b =~= seq![b[0]] + b.drop_first());
        }
        lemma_text_before_total(a.drop_first(), b.drop_first());
    } else if a.len() == 0 && b.len() == 0 {
        assert(a =~= b);
    }
}

/// No component list sorts before itself.
pub proof fn lemma_comps_before_irreflexive(a: Seq<Seq<char>>)
    ensures
        !comps_before(a, a),
    decreases a.len(),
{
    if a.len() > 0 {
        lemma_comps_before_irreflexive(a.drop_first());
    }
}

/// The order of component lists is transitive.
pub proof fn lemma_comps_before_transitive(a: Seq<Seq<char>>, b: Seq<Seq<char>>, c: Seq<Seq<char>>)
    requires
        comps_before(a, b),
        comps_before(b, c),
    ensures
        comps_before(a, c),
    decreases a.len(),
{
    if a.len() > 0 && b.len() > 0 && c.len() > 0 {
        if a[0] == b[0] && b[0] == c[0] {
            lemma_comps_before_transitive(a.drop_first(), b.drop_first(), c.drop_first());
        } else if a[0] != b[0] && b[0] != c[0] {
            lemma_text_before_transitive(a[0], b[0], c[0]);
            lemma_text_before_irreflexive(a[0]);
        }
    }
}

/// Of two different component lists, one sorts before the other.
pub proof fn lemma_comps_before_total(a: Seq<Seq<char>>, b: Seq<Seq<char>>)
    requires
        a != b,
    ensures
        comps_before(a, b) || comps_before(b, a),
    decreases a.len(),
{
    if a.len() > 0 && b.len() > 0 {
        if a[0] == b[0] {
            if a.drop_first() == b.drop_first() {
                assert(a =~= seq![a[0]] + a.drop_first());
                assert(b =~= seq![b[0]] + b.drop_first());
            }
            lemma_comps_before_total(a.drop_first(), b.drop_first());
        } else {
            lemma_text_before_total(a[0], b[0]);
        }
    } else if a.len() == 0 && b.len() == 0 {
        assert(a =~= b);
    }
}


proof fn lemma_text_before_skip(a: Seq<char>, b: Seq<char>, j: int)
    requires
        0 <= j <= a.len(),
        j <= b.len(),
        a.take(j) == b.take(j),
    ensures
        text_before(a, b) == text_before(a.skip(j), b.skip(j)),
    decreases j,
{
    assert(a.skip(0) == a);
    assert(b.skip(0) == b);
    if j > 0 {
        assert(a[0] == a.take(j)[0]);
        assert(b[0] == b.take(j)[0]);
        assert(a.drop_first().take(j - 1) == a.take(j).drop_first());
        assert(b.drop_first().take(j - 1) == b.take(j).drop_first());
        lemma_text_before_skip(a.drop_first(), b.drop_first(), j - 1);
        assert(a.drop_first().skip(j - 1) == a.skip(j));
        assert(b.drop_first().skip(j - 1) == b.skip(j));
    }
}

proof fn lemma_comps_before_skip(a: Seq<Seq<char>>, b: Seq<Seq<char>>, j: int)
    requires
        0 <= j <= a.len(),
        j <= b.len(),
        a.take(j) == b.take(j),
    ensures
        comps_before(a, b) == comps_before(a.skip(j), b.skip(j)),
    decreases j,
{
    assert(a.skip(0) == a);
    assert(b.skip(0) == b);
    if j > 0 {
        assert(a[0] == a.take(j)[0]);
        assert(b[0] == b.take(j)[0]);
        assert(a.drop_first().take(j - 1) == a.take(j).drop_first());
        assert(b.drop_first().take(j - 1) == b.take(j).drop_first());
        lemma_comps_before_skip(a.drop_first(), b.drop_first(), j - 1);
        assert(a.drop_first().skip(j - 1) == a.skip(j));
        assert(b.drop_first().skip(j - 1) == b.skip(j));
    }
}

/// Where one path (or piece of text) sorts relative to another.
pub enum Place {
    Before,
    Same,
    After,
}

/// How the text `av[a.0..a.1]` sorts against `bv[b.0..b.1]`.
pub fn text_place(av: &Vec<char>, a: (usize, usize), bv: &Vec<char>, b: (usize, usize)) -> (r: Place)
    requires
        a.0 <= a.1 <= av@.len(),
        b.0 <= b.1 <= bv@.len(),
    ensures
        (r is Before) == text_before(av@.subrange(a.0 as int, a.1 as int), bv@.subrange(b.0 as int, b.1 as int)),
        (r is Same) == (av@.subrange(a.0 as int, a.1 as int) == bv@.subrange(b.0 as int, b.1 as int)),
        (r is After) == text_before(bv@.subrange(b.0 as int, b.1 as int), av@.subrange(a.0 as int, a.1 as int)),
{
    let ghost at = av@.subrange(a.0 as int, a.1 as int);
    let ghost bt = bv@.subrange(b.0 as int, b.1 as int);
    let la = a.1 - a.0;
    let lb = b.1 - b.0;
    let n = if la < lb { la } else { lb };
    let mut j: usize = 0;
    while j < n
        invariant
            a.0 <= a.1 <= av@.len(),
            b.0 <= b.1 <= bv@.len(),
            la == a.1 - a.0,
            lb == b.1 - b.0,
            n <= la,
            n <= lb,
            j <= n,
            at == av@.subrange(a.0 as int, a.1 as int),
            bt == bv@.subrange(b.0 as int, b.1 as int),
            at.take(j as int) == bt.take(j as int),
        decreases n - j,
    {
        let x = av[a.0 + j];
        let y = bv[b.0 + j];
        assert(at[j as int] == x && bt[j as int] == y);
        if x != y {
            proof {
                lemma_text_before_skip(at, bt, j as int);
                lemma_text_before_skip(bt, at, j as int);
                assert(at.skip(j as int)[0] == x);
                assert(bt.skip(j as int)[0] == y);
            }
            if x < y {
                return Place::Before;
            } else {
                return Place::After;
            }
        }
        assert(at.take(j + 1) == at.take(j as int).push(x));
        assert(bt.take(j + 1) == bt.take(j as int).push(y));
        j = j + 1;
    }
    proof {
        lemma_text_before_skip(at, bt, n as int);
        lemma_text_before_skip(bt, at, n as int);
    }
    if la < lb {
        assert(at.skip(n as int).len() == 0 && bt.skip(n as int).len() > 0);
        assert(at != bt);
        Place::Before
    } else if la == lb {
        assert(at =~= at.take(n as int));
        assert(bt =~= bt.take(n as int));
        proof {
            lemma_text_before_irreflexive(at);
        }
        Place::Same
    } else {
        assert(at.skip(n as int).len() > 0 && bt.skip(n as int).len() == 0);
        assert(at != bt);
        Place::After
    }
}

/// How the components `ar` (texts in `av`) sort against the components
/// `br` (texts in `bv`).
pub fn comps_place(av: &Vec<char>, ar: &Vec<(usize, usize)>, bv: &Vec<char>, br: &Vec<(usize, usize)>) -> (r: Place)
    requires
        ranges_in(av@, ar@),
        ranges_in(bv@, br@),
    ensures
        (r is Before) == comps_before(range_texts(av@, ar@), range_texts(bv@, br@)),
        (r is Same) == (range_texts(av@, ar@) == range_texts(bv@, br@)),
        (r is After) == comps_before(range_texts(bv@, br@), range_texts(av@, ar@)),
{
    let ghost at = range_texts(av@, ar@);
    let ghost bt = range_texts(bv@, br@);
    let n = if ar.len() < br.len() { ar.len() } else { br.len() };
    let mut k: usize = 0;
    while k < n
        invariant
            ranges_in(av@, ar@),
            ranges_in(bv@, br@),
            at == range_texts(av@, ar@),
            bt == range_texts(bv@, br@),
            n <= ar@.len(),
            n <= br@.len(),
            k <= n,
            at.take(k as int) == bt.take(k as int),
        decreases n - k,
    {
        assert(ar@[k as int].0 <= ar@[k as int].1 <= av@.len());
        assert(br@[k as int].0 <= br@[k as int].1 <= bv@.len());
        let p = text_place(av, ar[k], bv, br[k]);
        match p {
            Place::Same => {},
            _ => {
                proof {
                    lemma_comps_before_skip(at, bt, k as int);
                    lemma_comps_before_skip(bt, at, k as int);
                    assert(at.skip(k as int)[0] == at[k as int]);
                    assert(bt.skip(k as int)[0] == bt[k as int]);
                }
                return p;
            },
        }
        assert(at.take(k + 1) == at.take(k as int).push(at[k as int]));
        assert(bt.take(k + 1) == bt.take(k as int).push(bt[k as int]));
        k = k + 1;
    }
    proof {
        lemma_comps_before_skip(at, bt, n as int);
        lemma_comps_before_skip(bt, at, n as int);
    }
    if ar.len() < br.len() {
        assert(at.skip(n as int).len() == 0 && bt.skip(n as int).len() > 0);
        assert(at.len() != bt.len());
        Place::Before
    } else if ar.len() == br.len() {
        assert(at =~= at.take(n as int));
        assert(bt =~= bt.take(n as int));
        proof {
            lemma_comps_before_irreflexive(at);
        }
        Place::Same
    } else {
        assert(at.skip(n as int).len() > 0 && bt.skip(n as int).len() == 0);
        assert(at.len() != bt.len());
        Place::After
    }
}

} // verus!
