//! Character-level string helpers shared by the command modules: the
//! whitespace class of `char::is_whitespace`, trimming, line splitting in the
//! manner of `str::lines`, whitespace tokens in the manner of
//! `str::split_whitespace`, and prefix/suffix tests.

use vstd::prelude::*;

verus! {

// ---------------------------------------------------------------------------
// Specifications
// ---------------------------------------------------------------------------

/// The Unicode `White_Space` property, which `char::is_whitespace` tests.
pub open spec fn is_ws(c: char) -> bool {
    ||| ('\u{9}' <= c && c <= '\u{d}')
    ||| c == ' '
    ||| c == '\u{85}'
    ||| c == '\u{a0}'
    ||| c == '\u{1680}'
    ||| ('\u{2000}' <= c && c <= '\u{200a}')
    ||| c == '\u{2028}'
    ||| c == '\u{2029}'
    ||| c == '\u{202f}'
    ||| c == '\u{205f}'
    ||| c == '\u{3000}'
}

/// `s` begins with `p`.
pub open spec fn starts_with(s: Seq<char>, p: Seq<char>) -> bool {
    p.len() <= s.len() && s.take(p.len() as int) == p
}

/// `s` ends with `p`.
pub open spec fn ends_with(s: Seq<char>, p: Seq<char>) -> bool {
    p.len() <= s.len() && s.skip(s.len() - p.len()) == p
}

/// `s` without its leading whitespace.
pub open spec fn trim_start(s: Seq<char>) -> Seq<char>
    decreases s.len(),
{
    if s.len() > 0 && is_ws(s[0]) {
        trim_start(s.drop_first())
    } else {
        s
    }
}

/// `s` without its trailing whitespace.
pub open spec fn trim_end(s: Seq<char>) -> Seq<char>
    decreases s.len(),
{
    if s.len() > 0 && is_ws(s.last()) {
        trim_end(s.drop_last())
    } else {
        s
    }
}

/// `s` without leading and trailing whitespace (`str::trim`).
pub open spec fn trim(s: Seq<char>) -> Seq<char> {
    trim_end(trim_start(s))
}

/// The pieces of `s` cut after each `'\n'`, the newline kept at the end of
/// its piece (`str::split_inclusive('\n')`).
pub open spec fn pieces(s: Seq<char>) -> Seq<Seq<char>>
    decreases s.len(),
{
    if s.len() == 0 {
        seq![]
    } else {
        let prev = pieces(s.drop_last());
        if s.len() == 1 || s[s.len() - 2] == '\n' {
            prev.push(seq![s.last()])
        } else {
            prev.update(prev.len() - 1, prev.last().push(s.last()))
        }
    }
}

/// A piece without its line ending: `"\n"` or `"\r\n"`.
pub open spec fn strip_line_end(p: Seq<char>) -> Seq<char> {
    if p.len() > 0 && p.last() == '\n' {
        let q = p.drop_last();
        if q.len() > 0 && q.last() == '\r' {
            q.drop_last()
        } else {
            q
        }
    } else {
        p
    }
}

/// The lines of `s` as `str::lines` yields them.
pub open spec fn lines(s: Seq<char>) -> Seq<Seq<char>> {
    pieces(s).map_values(|p: Seq<char>| strip_line_end(p))
}

/// The maximal runs of non-whitespace characters of `s`
/// (`str::split_whitespace`).
pub open spec fn tokens(s: Seq<char>) -> Seq<Seq<char>>
    decreases s.len(),
{
    if s.len() == 0 {
        seq![]
    } else {
        let prev = tokens(s.drop_last());
        if is_ws(s.last()) {
            prev
        } else if s.len() >= 2 && !is_ws(s[s.len() - 2]) {
            prev.update(prev.len() - 1, prev.last().push(s.last()))
        } else {
            prev.push(seq![s.last()])
        }
    }
}

/// The views of a sequence of strings.
pub open spec fn views(v: Seq<String>) -> Seq<Seq<char>> {
    v.map_values(|s: String| s@)
}

// ---------------------------------------------------------------------------
// Trusted std call
// ---------------------------------------------------------------------------

/// Appends one character to a `String`.
/// Trusted: std's `String::push` appends the given `char` to the end of the
/// string and changes nothing else.
#[verifier::external_body]
pub(crate) fn push_char(s: &mut String, c: char)
    ensures
        final(s)@ == old(s)@.push(c),
{
    s.push(c);
}

// ---------------------------------------------------------------------------
// Executable helpers
// ---------------------------------------------------------------------------

/// Whether two texts hold the same characters.
pub fn text_eq(a: &str, b: &str) -> (res: bool)
    ensures
        res == (a@ == b@),
{
    a.to_string() == b.to_string()
}

/// The characters of `s`, in order.
pub fn chars_of(s: &str) -> (res: Vec<char>)
    ensures
        res@ == s@,
{
    let mut res: Vec<char> = Vec::new();
    for c in it: s.chars()
        invariant
            it.seq() == s@,
            res@ == it.seq().take(it.index() as int),
    {
        res.push(c);
    }
    res
}

/// A `String` holding exactly the characters `v[from..to]`.
pub fn string_of_range(v: &Vec<char>, from: usize, to: usize) -> (res: String)
    requires
        from <= to <= v.len(),
    ensures
        res@ == v@.subrange(from as int, to as int),
{
    let mut res = String::new();
    let mut i = from;
    while i < to
        invariant
            from <= i <= to <= v.len(),
            res@ == v@.subrange(from as int, i as int),
        decreases to - i,
    {
        push_char(&mut res, v[i]);
        i = i + 1;
    }
    res
}

/// A `String` holding exactly the characters of `v`.
pub fn string_of(v: &Vec<char>) -> (res: String)
    ensures
        res@ == v@,
{
    string_of_range(v, 0, v.len())
}

/// `char::is_whitespace`, decided by the `White_Space` table.
pub fn is_whitespace(c: char) -> (res: bool)
    ensures
        res == is_ws(c),
{
    ('\u{9}' <= c && c <= '\u{d}') || c == ' ' || c == '\u{85}' || c == '\u{a0}' || c == '\u{1680}'
        || ('\u{2000}' <= c && c <= '\u{200a}') || c == '\u{2028}' || c == '\u{2029}' || c
        == '\u{202f}' || c == '\u{205f}' || c == '\u{3000}'
}

/// Whether `v[from..]` begins with the characters of `p`.
pub fn range_starts_with(v: &Vec<char>, from: usize, p: &Vec<char>) -> (res: bool)
    requires
        from <= v.len(),
    ensures
        res == starts_with(v@.skip(from as int), p@),
{
    if p.len() > v.len() - from {
        return false;
    }
    let mut i: usize = 0;
    while i < p.len()
        invariant
            from <= v.len(),
            p.len() <= v.len() - from,
            0 <= i <= p.len(),
            forall|k: int| 0 <= k < i ==> v@[from + k] == p@[k],
        decreases p.len() - i,
    {
        if v[from + i] != p[i] {
            assert(v@.skip(from as int).take(p.len() as int)[i as int] != p@[i as int]);
            return false;
        }
        i = i + 1;
    }
    assert(v@.skip(from as int).take(p.len() as int) =~= p@);
    true
}

/// Whether `v[..to]` ends with the characters of `p`.
pub fn range_ends_with(v: &Vec<char>, to: usize, p: &Vec<char>) -> (res: bool)
    requires
        to <= v.len(),
    ensures
        res == ends_with(v@.take(to as int), p@),
{
    if p.len() > to {
        return false;
    }
    let start = to - p.len();
    let mut i: usize = 0;
    while i < p.len()
        invariant
            to <= v.len(),
            p.len() <= to,
            start == to - p.len(),
            0 <= i <= p.len(),
            forall|k: int| 0 <= k < i ==> v@[start + k] == p@[k],
        decreases p.len() - i,
    {
        if v[start + i] != p[i] {
            assert(v@.take(to as int).skip(start as int)[i as int] != p@[i as int]);
            return false;
        }
        i = i + 1;
    }
    assert(v@.take(to as int).skip(start as int) =~= p@);
    true
}


// ---------------------------------------------------------------------------
// Joining and splitting on a separator character
// ---------------------------------------------------------------------------

/// The parts, in order, with `sep` between each two neighbours.
pub open spec fn join(parts: Seq<Seq<char>>, sep: char) -> Seq<char>
    decreases parts.len(),
{
    if parts.len() == 0 {
        seq![]
    } else if parts.len() == 1 {
        parts[0]
    } else {
        join(parts.drop_last(), sep).push(sep) + parts.last()
    }
}

/// The fields of `s` between occurrences of `sep` (`str::split(sep)`):
/// always at least one field.
pub open spec fn split(s: Seq<char>, sep: char) -> Seq<Seq<char>>
    decreases s.len(),
{
    if s.len() == 0 {
        seq![seq![]]
    } else {
        let prev = split(s.drop_last(), sep);
        if s.last() == sep {
            prev.push(seq![])
        } else {
            prev.update(prev.len() - 1, prev.last().push(s.last()))
        }
    }
}

/// `s` does not contain `c`.
pub open spec fn lacks(s: Seq<char>, c: char) -> bool {
    forall|i: int| 0 <= i < s.len() ==> s[i] != c
}

pub proof fn lemma_split_nonempty(s: Seq<char>, sep: char)
    ensures
        split(s, sep).len() >= 1,
    decreases s.len(),
{
    if s.len() > 0 {
        lemma_split_nonempty(s.drop_last(), sep);
    }
}

/// Appending text free of `sep` extends the last field.
pub proof fn lemma_split_append_field(x: Seq<char>, p: Seq<char>, sep: char)
    requires
        lacks(p, sep),
    ensures
        split(x + p, sep) == split(x, sep).update(
            split(x, sep).len() - 1,
            split(x, sep).last() + p,
        ),
    decreases p.len(),
{
    lemma_split_nonempty(x, sep);
    if p.len() == 0 {
        assert(x + p =~= x);
        assert(split(x, sep).last() + p =~= split(x, sep).last());
        assert(split(x, sep).update(split(x, sep).len() - 1, split(x, sep).last()) =~= split(
            x,
            sep,
        ));
    } else {
        let q = p.drop_last();
        lemma_split_append_field(x, q, sep);
        assert((x + p).drop_last() =~= x + q);
        assert((x + p).last() == p.last());
        assert(p.last() == p[p.len() - 1]);
        assert(split(x, sep).last() + q + seq![p.last()] =~= split(x, sep).last() + p);
        assert((split(x, sep).last() + q).push(p.last()) =~= split(x, sep).last() + p);
        let a = split(x + q, sep);
        let b = split(x + p, sep);
        assert(b =~= a.update(a.len() - 1, a.last().push(p.last())));
        assert(b =~= split(x, sep).update(split(x, sep).len() - 1, split(x, sep).last() + p));
    }
}

/// Text, a separator, more text: the fields of the first text, then those
/// of the second.
pub proof fn lemma_split_concat(x: Seq<char>, y: Seq<char>, sep: char)
    ensures
        split(x.push(sep) + y, sep) == split(x, sep) + split(y, sep),
    decreases y.len(),
{
    lemma_split_nonempty(x, sep);
    lemma_split_nonempty(y, sep);
    let xs = x.push(sep);
    assert(xs.drop_last() =~= x);
    if y.len() == 0 {
        assert(xs + y =~= xs);
        assert(split(x, sep).push(seq![]) =~= split(x, sep) + split(y, sep));
    } else {
        let yi = y.drop_last();
        lemma_split_concat(x, yi, sep);
        lemma_split_nonempty(yi, sep);
        assert((xs + y).drop_last() =~= xs + yi);
        assert((xs + y).last() == y.last());
        let a = split(x, sep);
        let b = split(yi, sep);
        if y.last() == sep {
            assert((a + b).push(seq![]) =~= a + b.push(seq![]));
        } else {
            assert((a + b).update((a + b).len() - 1, (a + b).last().push(y.last())) =~= a + b.update(
                b.len() - 1,
                b.last().push(y.last()),
            ));
        }
    }
}

/// Joining fields free of the separator and splitting again gives the fields
/// back.
pub proof fn lemma_split_join(parts: Seq<Seq<char>>, sep: char)
    requires
        parts.len() >= 1,
        forall|i: int| 0 <= i < parts.len() ==> lacks(#[trigger] parts[i], sep),
    ensures
        split(join(parts, sep), sep) == parts,
    decreases parts.len(),
{
    if parts.len() == 1 {
        lemma_split_append_field(seq![], parts[0], sep);
        assert(seq![] + parts[0] =~= parts[0]);
        assert(split(Seq::<char>::empty(), sep) =~= seq![seq![]]);
        assert(split(join(parts, sep), sep) =~= parts);
    } else {
        let init = parts.drop_last();
        assert forall|i: int| 0 <= i < init.len() implies lacks(#[trigger] init[i], sep) by {
            assert(init[i] == parts[i]);
        }
        lemma_split_join(init, sep);
        let x = join(init, sep).push(sep);
        assert(x.drop_last() =~= join(init, sep));
        assert(split(x, sep) =~= init.push(seq![]));
        assert(lacks(parts[parts.len() - 1], sep));
        lemma_split_append_field(x, parts.last(), sep);
        assert(seq![] + parts.last() =~= parts.last());
        assert(split(join(parts, sep), sep) =~= parts);
    }
}

/// The join of separator-free parts holds `sep` exactly between parts:
/// text free of a second character `c` stays free of it.
pub proof fn lemma_join_lacks(parts: Seq<Seq<char>>, sep: char, c: char)
    requires
        sep != c,
        forall|i: int| 0 <= i < parts.len() ==> lacks(#[trigger] parts[i], c),
    ensures
        lacks(join(parts, sep), c),
    decreases parts.len(),
{
    if parts.len() == 1 {
        assert(lacks(parts[0], c));
    } else if parts.len() > 1 {
        let init = parts.drop_last();
        assert forall|i: int| 0 <= i < init.len() implies lacks(#[trigger] init[i], c) by {
            assert(init[i] == parts[i]);
        }
        lemma_join_lacks(init, sep, c);
        assert(lacks(parts[parts.len() - 1], c));
        let j = join(parts, sep);
        let a = join(init, sep).push(sep);
        assert(j =~= a + parts.last());
        assert forall|i: int| 0 <= i < j.len() implies j[i] != c by {
            if i < a.len() {
                assert(j[i] == a[i]);
                if i < a.len() - 1 {
                    assert(a[i] == join(init, sep)[i]);
                }
            } else {
                assert(j[i] == parts.last()[i - a.len()]);
            }
        }
    }
}


/// The lines of `text` as `str::lines` yields them: split at `"\n"` or
/// `"\r\n"`, the final line ending optional.
pub fn content_lines(text: &str) -> (res: Vec<String>)
    ensures
        views(res@) == lines(text@),
{
    let v = chars_of(text);
    line_strings(&v)
}

/// The lines of the characters `v`.
pub fn line_strings(v: &Vec<char>) -> (res: Vec<String>)
    ensures
        views(res@) == lines(v@),
{
    let mut done: Vec<String> = Vec::new();
    let mut cur: Vec<char> = Vec::new();
    let mut i: usize = 0;
    assert(v@.take(0) =~= Seq::<char>::empty());
    assert(lines(Seq::<char>::empty()) =~= Seq::<Seq<char>>::empty());
    assert(views(done@) + Seq::<Seq<char>>::empty() =~= Seq::<Seq<char>>::empty());
    while i < v.len()
        invariant
            0 <= i <= v.len(),
            ({
                let p = v@.take(i as int);
                &&& (cur@.len() > 0) == (p.len() > 0 && p.last() != '\n')
                &&& cur@.len() > 0 ==> pieces(p).len() > 0 && pieces(p).last() == cur@
                &&& lacks(cur@, '\n')
                &&& views(done@) + (if cur@.len() > 0 {
                    seq![cur@]
                } else {
                    Seq::<Seq<char>>::empty()
                }) == lines(p)
            }),
        decreases v.len() - i,
    {
        let c = v[i];
        let ghost p = v@.take(i as int);
        let ghost q = v@.take(i + 1);
        let ghost old_done = done@;
        let ghost old_cur = cur@;
        proof {
            assert(q.drop_last() =~= p);
            assert(q.last() == c);
            assert(q.len() == 1 || q[q.len() - 2] == p.last());
        }
        if c == '\n' {
            let mut end = cur.len();
            if end > 0 && cur[end - 1] == '\r' {
                end = end - 1;
            }
            let line = string_of_range(&cur, 0, end);
            done.push(line);
            proof {
                let piece = old_cur.push('\n');
                assert(piece.drop_last() =~= old_cur);
                assert(strip_line_end(piece) =~= line@);
                assert(views(done@) =~= views(old_done).push(line@));
                if old_cur.len() > 0 {
                    let pp = pieces(p);
                    assert(pieces(q) == pp.update(pp.len() - 1, pp.last().push('\n')));
                    assert(lines(q) =~= lines(p).update(lines(p).len() - 1, line@));
                    assert(lines(p) =~= views(old_done).push(old_cur));
                    assert(views(done@) =~= lines(q));
                } else {
                    assert(pieces(q) == pieces(p).push(seq!['\n']));
                    assert(seq!['\n'].drop_last() =~= Seq::<char>::empty());
                    assert(strip_line_end(seq!['\n']) =~= Seq::<char>::empty());
                    assert(line@ =~= Seq::<char>::empty());
                    assert(lines(q) =~= lines(p).push(line@));
                    assert(views(old_done) + Seq::<Seq<char>>::empty() =~= views(old_done));
                    assert(views(done@) =~= lines(q));
                }
            }
            cur = Vec::new();
            proof {
                assert(views(done@) + Seq::<Seq<char>>::empty() =~= views(done@));
            }
        } else {
            cur.push(c);
            proof {
                assert(lacks(cur@, '\n'));
                if old_cur.len() > 0 {
                    let pp = pieces(p);
                    assert(pieces(q) == pp.update(pp.len() - 1, pp.last().push(c)));
                    assert(strip_line_end(cur@) == cur@);
                    assert(strip_line_end(old_cur) == old_cur);
                    assert(lines(p) =~= views(old_done).push(old_cur));
                    assert(lines(q) =~= lines(p).update(lines(p).len() - 1, cur@));
                    assert(views(done@) + seq![cur@] =~= lines(q));
                } else {
                    assert(pieces(q) == pieces(p).push(seq![c]));
                    assert(cur@ =~= seq![c]);
                    assert(strip_line_end(seq![c]) == seq![c]);
                    assert(views(done@) + Seq::<Seq<char>>::empty() =~= views(done@));
                    assert(lines(q) =~= lines(p).push(cur@));
                    assert(views(done@) + seq![cur@] =~= lines(q));
                }
            }
        }
        i = i + 1;
    }
    assert(v@.take(v.len() as int) =~= v@);
    if cur.len() > 0 {
        let ghost old_done = done@;
        let last = string_of(&cur);
        done.push(last);
        assert(views(done@) =~= views(old_done) + seq![cur@]);
    } else {
        assert(views(done@) + Seq::<Seq<char>>::empty() =~= views(done@));
    }
    done
}


/// The index where `v` stops being whitespace at the front.
pub fn trim_start_index(v: &Vec<char>) -> (i: usize)
    ensures
        i <= v.len(),
        v@.skip(i as int) == trim_start(v@),
{
    let mut i: usize = 0;
    assert(v@.skip(0) =~= v@);
    while i < v.len() && is_whitespace(v[i])
        invariant
            0 <= i <= v.len(),
            trim_start(v@) == trim_start(v@.skip(i as int)),
        decreases v.len() - i,
    {
        assert(v@.skip(i as int).drop_first() =~= v@.skip(i + 1));
        assert(v@.skip(i as int)[0] == v@[i as int]);
        i = i + 1;
    }
    if i < v.len() {
        assert(v@.skip(i as int)[0] == v@[i as int]);
    } else {
        assert(v@.skip(i as int) =~= Seq::<char>::empty());
    }
    i
}

/// The index where `v[..to]` stops being whitespace at the back.
pub fn trim_end_index(v: &Vec<char>, to: usize) -> (j: usize)
    requires
        to <= v.len(),
    ensures
        j <= to,
        v@.take(j as int) == trim_end(v@.take(to as int)),
{
    let mut j: usize = to;
    while j > 0 && is_whitespace(v[j - 1])
        invariant
            0 <= j <= to <= v.len(),
            trim_end(v@.take(to as int)) == trim_end(v@.take(j as int)),
        decreases j,
    {
        assert(v@.take(j as int).drop_last() =~= v@.take(j - 1));
        assert(v@.take(j as int).last() == v@[j - 1]);
        j = j - 1;
    }
    if j > 0 {
        assert(v@.take(j as int).last() == v@[j - 1]);
    }
    j
}

/// `s` without leading and trailing whitespace (`str::trim`).
pub fn trim_text(s: &str) -> (res: String)
    ensures
        res@ == trim(s@),
{
    let v = chars_of(s);
    let i = trim_start_index(&v);
    let j = trim_end_index(&v, v.len());
    assert(v@.take(v.len() as int) =~= v@);
    if j <= i {
        // everything is whitespace
        proof {
            lemma_trim_all_ws(v@, i as int, j as int);
        }
        String::new()
    } else {
        proof {
            lemma_trim_range(v@, i as int, j as int);
        }
        string_of_range(&v, i, j)
    }
}

proof fn lemma_trim_end_of_trimmed_start(s: Seq<char>, i: int, j: int)
    requires
        0 <= i <= s.len(),
        0 <= j <= s.len(),
        forall|k: int| j <= k < s.len() ==> is_ws(#[trigger] s[k]),
        trim_end(s) == s.take(j),
        i < j,
    ensures
        trim_end(s.skip(i)) == s.subrange(i, j),
    decreases s.len() - j,
{
    if j < s.len() {
        let t = s.drop_last();
        assert(is_ws(s[s.len() - 1]));
        assert(trim_end(t) == trim_end(s));
        assert(t.take(j) =~= s.take(j));
        lemma_trim_end_of_trimmed_start(t, i, j);
        assert(s.skip(i).drop_last() =~= t.skip(i));
        assert(s.skip(i).last() == s[s.len() - 1]);
        assert(t.subrange(i, j) =~= s.subrange(i, j));
    } else {
        assert(s.take(j) =~= s);
        assert(s.skip(i) =~= s.subrange(i, j));
        lemma_trim_end_fixed(s.skip(i), s);
    }
}

proof fn lemma_trim_end_len(s: Seq<char>)
    ensures
        trim_end(s).len() <= s.len(),
    decreases s.len(),
{
    if s.len() > 0 {
        lemma_trim_end_len(s.drop_last());
    }
}

proof fn lemma_trim_end_fixed(t: Seq<char>, s: Seq<char>)
    requires
        trim_end(s) == s,
        t.len() > 0 ==> s.len() > 0 && t.last() == s.last(),
    ensures
        trim_end(t) == t,
{
    if s.len() > 0 {
        lemma_trim_end_len(s.drop_last());
        assert(!is_ws(s.last()));
    }
}

proof fn lemma_trim_end_all_ws(s: Seq<char>)
    requires
        forall|k: int| 0 <= k < s.len() ==> is_ws(#[trigger] s[k]),
    ensures
        trim_end(s) =~= Seq::<char>::empty(),
    decreases s.len(),
{
    if s.len() > 0 {
        let t = s.drop_last();
        assert forall|k: int| 0 <= k < t.len() implies is_ws(#[trigger] t[k]) by {
            assert(t[k] == s[k]);
        }
        assert(is_ws(s[s.len() - 1]));
        lemma_trim_end_all_ws(t);
    }
}

proof fn lemma_trim_range(s: Seq<char>, i: int, j: int)
    requires
        0 <= i < j <= s.len(),
        s.skip(i) == trim_start(s),
        s.take(j) == trim_end(s.take(s.len() as int)),
    ensures
        trim(s) == s.subrange(i, j),
{
    assert(s.take(s.len() as int) =~= s);
    lemma_trim_end_tail_ws(s, j);
    lemma_trim_end_of_trimmed_start(s, i, j);
}

proof fn lemma_trim_end_tail_ws(s: Seq<char>, j: int)
    requires
        0 <= j <= s.len(),
        s.take(j) == trim_end(s),
    ensures
        forall|k: int| j <= k < s.len() ==> is_ws(#[trigger] s[k]),
    decreases s.len(),
{
    if s.len() > j {
        // trim_end removed at least the last character
        if !is_ws(s.last()) {
            assert(trim_end(s) == s);
            assert(s.take(j).len() == j);
        }
        let t = s.drop_last();
        assert(trim_end(s) == trim_end(t));
        assert(t.take(j) =~= s.take(j));
        lemma_trim_end_tail_ws(t, j);
        assert forall|k: int| j <= k < s.len() implies is_ws(#[trigger] s[k]) by {
            if k < s.len() - 1 {
                assert(s[k] == t[k]);
            }
        }
    }
}

proof fn lemma_trim_all_ws(s: Seq<char>, i: int, j: int)
    requires
        0 <= i <= s.len(),
        0 <= j <= s.len(),
        j <= i,
        s.skip(i) == trim_start(s),
        s.take(j) == trim_end(s.take(s.len() as int)),
    ensures
        trim(s) == Seq::<char>::empty(),
{
    assert(s.take(s.len() as int) =~= s);
    lemma_trim_end_tail_ws(s, j);
    assert forall|k: int| 0 <= k < s.skip(i).len() implies is_ws(#[trigger] s.skip(i)[k]) by {
        assert(s.skip(i)[k] == s[i + k]);
    }
    lemma_trim_end_all_ws(s.skip(i));
}


/// The views of a sequence of character vectors.
pub open spec fn char_views(v: Seq<Vec<char>>) -> Seq<Seq<char>> {
    v.map_values(|t: Vec<char>| t@)
}

/// The whitespace-separated tokens of `v`.
pub fn tokens_of(v: &Vec<char>) -> (res: Vec<Vec<char>>)
    ensures
        char_views(res@) == tokens(v@),
{
    let mut done: Vec<Vec<char>> = Vec::new();
    let mut cur: Vec<char> = Vec::new();
    let mut i: usize = 0;
    assert(v@.take(0) =~= Seq::<char>::empty());
    assert(char_views(done@) + Seq::<Seq<char>>::empty() =~= Seq::<Seq<char>>::empty());
    while i < v.len()
        invariant
            0 <= i <= v.len(),
            ({
                let p = v@.take(i as int);
                &&& (cur@.len() > 0) == (p.len() > 0 && !is_ws(p.last()))
                &&& char_views(done@) + (if cur@.len() > 0 {
                    seq![cur@]
                } else {
                    Seq::<Seq<char>>::empty()
                }) == tokens(p)
            }),
        decreases v.len() - i,
    {
        let c = v[i];
        let ghost p = v@.take(i as int);
        let ghost q = v@.take(i + 1);
        let ghost old_done = done@;
        let ghost old_cur = cur@;
        proof {
            assert(q.drop_last() =~= p);
            assert(q.last() == c);
            assert(q.len() >= 2 ==> q[q.len() - 2] == p.last());
        }
        if is_whitespace(c) {
            if cur.len() > 0 {
                let t = cur;
                done.push(t);
                cur = Vec::new();
                proof {
                    assert(char_views(done@) =~= char_views(old_done) + seq![old_cur]);
                    assert(char_views(done@) + Seq::<Seq<char>>::empty() =~= char_views(done@));
                }
            } else {
                proof {
                    assert(tokens(q) == tokens(p));
                }
            }
        } else {
            cur.push(c);
            proof {
                if old_cur.len() > 0 {
                    let tp = tokens(p);
                    assert(tp =~= char_views(old_done).push(old_cur));
                    assert(tokens(q) == tp.update(tp.len() - 1, tp.last().push(c)));
                    assert(char_views(done@) + seq![cur@] =~= tokens(q));
                } else {
                    assert(char_views(old_done) + Seq::<Seq<char>>::empty() =~= char_views(
                        old_done,
                    ));
                    assert(tokens(q) == tokens(p).push(seq![c]));
                    assert(cur@ =~= seq![c]);
                    assert(char_views(done@) + seq![cur@] =~= tokens(q));
                }
            }
        }
        i = i + 1;
    }
    assert(v@.take(v.len() as int) =~= v@);
    if cur.len() > 0 {
        let ghost old_done = done@;
        let ghost c = cur@;
        done.push(cur);
        assert(char_views(done@) =~= char_views(old_done) + seq![c]);
    } else {
        assert(char_views(done@) + Seq::<Seq<char>>::empty() =~= char_views(done@));
    }
    done
}

} // verus!
