//! Character-level text helpers shared by the message builders: the line
//! splitting of `str::lines`, whitespace trimming, joining, and decimal
//! rendering, each stated over `Seq<char>`.

use vstd::prelude::*;

verus! {

/// `String::push` from std: appends one character.
#[verifier::external_body]
pub fn push_char(s: &mut String, c: char)
    ensures
        final(s)@ == old(s)@.push(c),
{
    s.push(c);
}

/// What `String::from_utf8_lossy` makes of a byte string: the text it
/// encodes, with each invalid sequence replaced by U+FFFD.
pub uninterp spec fn utf8_lossy(bytes: Seq<u8>) -> Seq<char>;

/// `String::from_utf8_lossy` from std, taken as an owned `String`. The
/// contract names the result and states nothing about how the decoding
/// works.
#[verifier::external_body]
pub fn from_utf8_lossy(bytes: &[u8]) -> (s: String)
    ensures
        s@ == utf8_lossy(bytes@),
{
    String::from_utf8_lossy(bytes).into_owned()
}

/// The characters of `s`, in order.
pub fn chars_of(s: &str) -> (v: Vec<char>)
    ensures
        v@ == s@,
{
    let mut v: Vec<char> = Vec::new();
    for c in it: s.chars()
        invariant
            it.seq() == s@,
            v@ == it.seq().take(it.index()),
    {
        v.push(c);
    }
    v
}

/// Appends `v[lo..hi]` to `out`.
pub fn push_range(out: &mut String, v: &Vec<char>, lo: usize, hi: usize)
    requires
        lo <= hi <= v@.len(),
    ensures
        final(out)@ == old(out)@ + v@.subrange(lo as int, hi as int),
{
    let mut i = lo;
    while i < hi
        invariant
            lo <= i <= hi <= v@.len(),
            out@ == old(out)@ + v@.subrange(lo as int, i as int),
        decreases hi - i,
    {
        push_char(out, v[i]);
        assert(v@.subrange(lo as int, i + 1) == v@.subrange(lo as int, i as int).push(v@[i as int]));
        i = i + 1;
    }
}

/// A `String` with the characters of `s`.
pub fn owned(s: &str) -> (r: String)
    ensures
        r@ == s@,
{
    let mut r = String::new();
    r.append(s);
    r
}

/// `parts` joined with `sep` between neighbours.
pub open spec fn join(parts: Seq<Seq<char>>, sep: Seq<char>) -> Seq<char>
    decreases parts.len(),
{
    if parts.len() == 0 {
        Seq::empty()
    } else if parts.len() == 1 {
        parts[0]
    } else {
        join(parts.drop_last(), sep) + sep + parts.last()
    }
}

/// The views of a list of strings.
pub open spec fn views(v: Seq<String>) -> Seq<Seq<char>> {
    v.map_values(|s: String| s@)
}

/// Joins `parts` with `sep`, as `[String]::join` does.
pub fn join_strings(parts: &Vec<String>, sep: &str) -> (r: String)
    ensures
        r@ == join(views(parts@), sep@),
{
    let mut r = String::new();
    let ghost ps = views(parts@);
    let mut i: usize = 0;
    while i < parts.len()
        invariant
            i <= parts@.len(),
            ps == views(parts@),
            r@ == join(ps.take(i as int), sep@),
        decreases parts@.len() - i,
    {
        if i != 0 {
            r.append(sep);
        }
        r.append(parts[i].as_str());
        assert(ps.take(i + 1).drop_last() == ps.take(i as int));
        i = i + 1;
    }
    assert(ps.take(parts@.len() as int) == ps);
    r
}

/// Unicode `White_Space`, which is what `char::is_whitespace` tests.
pub open spec fn is_ws(c: char) -> bool {
    ||| '\u{9}' <= c <= '\u{d}'
    ||| c == ' '
    ||| c == '\u{85}'
    ||| c == '\u{a0}'
    ||| c == '\u{1680}'
    ||| '\u{2000}' <= c <= '\u{200a}'
    ||| c == '\u{2028}'
    ||| c == '\u{2029}'
    ||| c == '\u{202f}'
    ||| c == '\u{205f}'
    ||| c == '\u{3000}'
}

pub fn is_whitespace(c: char) -> (b: bool)
    ensures
        b == is_ws(c),
{
    ('\u{9}' <= c && c <= '\u{d}') || c == ' ' || c == '\u{85}' || c == '\u{a0}'
        || c == '\u{1680}' || ('\u{2000}' <= c && c <= '\u{200a}') || c == '\u{2028}'
        || c == '\u{2029}' || c == '\u{202f}' || c == '\u{205f}' || c == '\u{3000}'
}

/// `str::trim_end`: trailing whitespace removed.
pub open spec fn trim_end(t: Seq<char>) -> Seq<char>
    decreases t.len(),
{
    if t.len() > 0 && is_ws(t.last()) {
        trim_end(t.drop_last())
    } else {
        t
    }
}

/// A line as `str::lines` yields it: a `\r` is dropped only before the `\n`.
pub open spec fn strip_cr(t: Seq<char>) -> Seq<char> {
    if t.len() > 0 && t.last() == '\r' {
        t.drop_last()
    } else {
        t
    }
}

/// The lines of `cur + s`, where `cur` is the part of the current line
/// already read.
pub open spec fn lines_from(cur: Seq<char>, s: Seq<char>) -> Seq<Seq<char>>
    decreases s.len(),
{
    if s.len() == 0 {
        if cur.len() == 0 {
            Seq::empty()
        } else {
            seq![cur]
        }
    } else if s[0] == '\n' {
        seq![strip_cr(cur)] + lines_from(Seq::empty(), s.drop_first())
    } else {
        lines_from(cur.push(s[0]), s.drop_first())
    }
}

/// `str::lines`: split at `\n`, with an optional `\r` before it, and no
/// empty line after a final line break.
pub open spec fn lines(s: Seq<char>) -> Seq<Seq<char>> {
    lines_from(Seq::empty(), s)
}

/// The text of each `(start, end)` range of `v`.
pub open spec fn range_texts(v: Seq<char>, rs: Seq<(usize, usize)>) -> Seq<Seq<char>> {
    rs.map_values(|r: (usize, usize)| v.subrange(r.0 as int, r.1 as int))
}

pub open spec fn ranges_in(v: Seq<char>, rs: Seq<(usize, usize)>) -> bool {
    forall|k: int| 0 <= k < rs.len() ==> #[trigger] rs[k].0 <= rs[k].1 && rs[k].1 <= v.len()
}

/// The lines of `v` as index ranges into it.
pub fn line_ranges(v: &Vec<char>) -> (rs: Vec<(usize, usize)>)
    ensures
        ranges_in(v@, rs@),
        range_texts(v@, rs@) == lines(v@),
{
    let mut rs: Vec<(usize, usize)> = Vec::new();
    let mut start: usize = 0;
    let mut j: usize = 0;
    assert(v@.skip(0) == v@);
    assert(v@.subrange(0, 0) == Seq::<char>::empty());
    assert(range_texts(v@, rs@) == Seq::<Seq<char>>::empty());
    while j < v.len()
        invariant
            start <= j <= v@.len(),
            ranges_in(v@, rs@),
            lines(v@) == range_texts(v@, rs@) + lines_from(
                v@.subrange(start as int, j as int),
                v@.skip(j as int),
            ),
        decreases v@.len() - j,
    {
        let ghost cur = v@.subrange(start as int, j as int);
        assert(v@.skip(j as int).drop_first() == v@.skip(j + 1));
        assert(v@.skip(j as int)[0] == v@[j as int]);
        if v[j] == '\n' {
            let mut end = j;
            if end > start && v[end - 1] == '\r' {
                end = end - 1;
            }
            assert(v@.subrange(start as int, end as int) == strip_cr(cur));
            let ghost before = rs@;
            rs.push((start, end));
            assert(range_texts(v@, rs@) == range_texts(v@, before).push(strip_cr(cur)));
            start = j + 1;
            assert(v@.subrange(start as int, start as int) == Seq::<char>::empty());
        } else {
            assert(v@.subrange(start as int, j + 1) == cur.push(v@[j as int]));
        }
        j = j + 1;
    }
    if start < v.len() {
        rs.push((start, v.len()));
    }
    rs
}

/// The decimal digit for `d < 10`.
pub open spec fn digit(d: nat) -> char {
    if d == 0 { '0' }
    else if d == 1 { '1' }
    else if d == 2 { '2' }
    else if d == 3 { '3' }
    else if d == 4 { '4' }
    else if d == 5 { '5' }
    else if d == 6 { '6' }
    else if d == 7 { '7' }
    else if d == 8 { '8' }
    else { '9' }
}

/// `n` in decimal, as `{}` formats an unsigned integer.
pub open spec fn decimal(n: nat) -> Seq<char>
    decreases n,
{
    if n < 10 {
        seq![digit(n)]
    } else {
        decimal(n / 10).push(digit(n % 10))
    }
}

fn digit_char(d: usize) -> (c: char)
    requires
        d < 10,
    ensures
        c == digit(d as nat),
{
    if d == 0 { '0' }
    else if d == 1 { '1' }
    else if d == 2 { '2' }
    else if d == 3 { '3' }
    else if d == 4 { '4' }
    else if d == 5 { '5' }
    else if d == 6 { '6' }
    else if d == 7 { '7' }
    else if d == 8 { '8' }
    else { '9' }
}

/// Appends `n` in decimal to `out`.
pub fn push_decimal(out: &mut String, n: usize)
    ensures
        final(out)@ == old(out)@ + decimal(n as nat),
    decreases n,
{
    if n < 10 {
        push_char(out, digit_char(n));
    } else {
        push_decimal(out, n / 10);
        push_char(out, digit_char(n % 10));
    }
}

/// Whitespace at the end of a slice of `v` removed: the end index of
/// `trim_end(v[lo..hi])`.
pub fn trim_end_range(v: &Vec<char>, lo: usize, hi: usize) -> (e: usize)
    requires
        lo <= hi <= v@.len(),
    ensures
        lo <= e <= hi,
        v@.subrange(lo as int, e as int) == trim_end(v@.subrange(lo as int, hi as int)),
{
    let mut e = hi;
    while e > lo && is_whitespace(v[e - 1])
        invariant
            lo <= e <= hi <= v@.len(),
            trim_end(v@.subrange(lo as int, hi as int)) == trim_end(v@.subrange(lo as int, e as int)),
        decreases e - lo,
    {
        assert(v@.subrange(lo as int, e as int).drop_last() == v@.subrange(lo as int, e - 1));
        e = e - 1;
    }
    e
}

/// Appends `join(texts of rs[from..to], sep)` to an empty `out`.
pub fn join_ranges(v: &Vec<char>, rs: &Vec<(usize, usize)>, from: usize, to: usize, sep: char) -> (out: String)
    requires
        from <= to <= rs@.len(),
        ranges_in(v@, rs@),
    ensures
        out@ == join(range_texts(v@, rs@).subrange(from as int, to as int), seq![sep]),
{
    let ghost ts = range_texts(v@, rs@);
    let mut out = String::new();
    let mut i = from;
    assert(ts.subrange(from as int, from as int) == Seq::<Seq<char>>::empty());
    while i < to
        invariant
            from <= i <= to <= rs@.len(),
            ranges_in(v@, rs@),
            ts == range_texts(v@, rs@),
            out@ == join(ts.subrange(from as int, i as int), seq![sep]),
        decreases to - i,
    {
        if i != from {
            push_char(&mut out, sep);
        }
        let (lo, hi) = rs[i];
        assert(rs@[i as int].0 <= rs@[i as int].1 <= v@.len());
        push_range(&mut out, v, lo, hi);
        assert(ts.subrange(from as int, i + 1).drop_last() == ts.subrange(from as int, i as int));
        assert(ts[i as int] == v@.subrange(lo as int, hi as int));
        i = i + 1;
    }
    out
}

/// Whether `t` ends with `suffix`.
pub open spec fn ends_with(t: Seq<char>, suffix: Seq<char>) -> bool {
    t.len() >= suffix.len() && t.subrange(t.len() - suffix.len(), t.len() as int) == suffix
}

pub fn has_suffix(t: &str, suffix: &Vec<char>) -> (b: bool)
    ensures
        b == ends_with(t@, suffix@),
{
    let v = chars_of(t);
    if v.len() < suffix.len() {
        return false;
    }
    let off = v.len() - suffix.len();
    let mut i: usize = 0;
    while i < suffix.len()
        invariant
            v@ == t@,
            off + suffix@.len() == v@.len(),
            v@.len() <= usize::MAX,
            i <= suffix@.len(),
            forall|k: int| 0 <= k < i ==> v@[off + k] == suffix@[k],
        decreases suffix@.len() - i,
    {
        if v[off + i] != suffix[i] {
            assert(v@.subrange(off as int, v@.len() as int)[i as int] == v@[off + i]);
            return false;
        }
        i = i + 1;
    }
    assert(v@.subrange(off as int, v@.len() as int) =~= suffix@);
    true
}

/// A join starts with its first part and ends with its last.
pub proof fn lemma_join_ends(parts: Seq<Seq<char>>, sep: Seq<char>)
    requires
        parts.len() >= 1,
    ensures
        join(parts, sep).len() >= parts[0].len(),
        join(parts, sep).take(parts[0].len() as int) == parts[0],
        join(parts, sep).len() >= parts.last().len(),
        join(parts, sep).skip(join(parts, sep).len() - parts.last().len()) == parts.last(),
    decreases parts.len(),
{
    if parts.len() == 1 {
        assert(join(parts, sep).take(parts[0].len() as int) =~= parts[0]);
        assert(join(parts, sep).skip(0) =~= parts[0]);
    } else {
        let init = parts.drop_last();
        lemma_join_ends(init, sep);
        let j = join(parts, sep);
        let ji = join(init, sep);
        assert(j == ji + sep + parts.last());
        assert(init[0] == parts[0]);
        assert(j.take(parts[0].len() as int) =~= ji.take(parts[0].len() as int));
        assert(j.skip(j.len() - parts.last().len()) =~= parts.last());
    }
}

} // verus!
