//! Character-level text operations used by the library, each proved
//! against a mathematical description over `Seq<char>`.
//!
//! The descriptions follow the behaviour of the standard library's
//! `str::contains`, `str::replace`, `str::trim_end_matches`, `str::lines`
//! and `str::split(..).nth(1)` for the (non-empty) patterns the library uses.

use vstd::prelude::*;

verus! {

/// Index of the first occurrence of `c` in `s`, or `s.len()` when `c` does not occur.
pub open spec fn seq_char_pos(s: Seq<char>, c: char) -> nat
    decreases s.len(),
{
    if s.len() == 0 {
        0
    } else if s[0] == c {
        0
    } else {
        1 + seq_char_pos(s.drop_first(), c)
    }
}

/// `pat` occurs in `s` starting at index `i`.
pub open spec fn occurs_at(s: Seq<char>, pat: Seq<char>, i: int) -> bool {
    &&& 0 <= i
    &&& i + pat.len() <= s.len()
    &&& s.subrange(i, i + pat.len()) == pat
}

/// `pat` occurs somewhere in `s`.
pub open spec fn seq_contains(s: Seq<char>, pat: Seq<char>) -> bool {
    exists|i: int| occurs_at(s, pat, i)
}

/// `s` with every occurrence of `pat` replaced by `rep`, occurrences taken
/// from left to right without overlap (`pat` is meant to be non-empty).
pub open spec fn seq_replace(s: Seq<char>, pat: Seq<char>, rep: Seq<char>) -> Seq<char>
    decreases s.len(),
{
    if pat.len() == 0 || s.len() < pat.len() {
        s
    } else if s.take(pat.len() as int) == pat {
        rep + seq_replace(s.skip(pat.len() as int), pat, rep)
    } else {
        seq![s[0]] + seq_replace(s.drop_first(), pat, rep)
    }
}

/// `s` with `suf` removed from its end as many times as it is a suffix
/// (`suf` is meant to be non-empty).
pub open spec fn seq_trim_end(s: Seq<char>, suf: Seq<char>) -> Seq<char>
    decreases s.len(),
{
    if suf.len() > 0 && suf.len() <= s.len() && s.skip(s.len() - suf.len()) == suf {
        seq_trim_end(s.take(s.len() - suf.len()), suf)
    } else {
        s
    }
}

/// A line without the carriage return that ended it, if any.
pub open spec fn strip_cr(l: Seq<char>) -> Seq<char> {
    if l.len() > 0 && l.last() == '\r' {
        l.drop_last()
    } else {
        l
    }
}

/// The lines of `s`: pieces separated by `'\n'`, a `'\r'` right before a
/// `'\n'` dropped, and no empty last line after a final `'\n'`.
pub open spec fn seq_lines(s: Seq<char>) -> Seq<Seq<char>>
    decreases s.len(),
{
    if s.len() == 0 {
        seq![]
    } else {
        let e = seq_char_pos(s, '\n');
        proof {
            lemma_char_pos_bound(s, '\n');
        }
        if e >= s.len() {
            seq![s]
        } else {
            seq![strip_cr(s.take(e as int))] + seq_lines(s.skip(e + 1 as int))
        }
    }
}

/// The second of the pieces of `s` separated by `sep`, if there are at least two.
pub open spec fn seq_second_field(s: Seq<char>, sep: char) -> Option<Seq<char>> {
    let j = seq_char_pos(s, sep);
    if j >= s.len() {
        None
    } else {
        let rest = s.skip(j + 1 as int);
        Some(rest.take(seq_char_pos(rest, sep) as int))
    }
}

pub proof fn lemma_char_pos_bound(s: Seq<char>, c: char)
    ensures
        seq_char_pos(s, c) <= s.len(),
        seq_char_pos(s, c) < s.len() ==> s[seq_char_pos(s, c) as int] == c,
        forall|i: int| 0 <= i < seq_char_pos(s, c) ==> s[i] != c,
    decreases s.len(),
{
    if s.len() > 0 && s[0] != c {
        lemma_char_pos_bound(s.drop_first(), c);
        assert forall|i: int| 0 <= i < seq_char_pos(s, c) implies s[i] != c by {
            if i > 0 {
                assert(s.drop_first()[i - 1] == s[i]);
            }
        }
    }
}

/// The first occurrence of `c` in `s` is at `k` when no earlier character is `c`
/// and `k` is the end or holds `c`.
pub proof fn lemma_char_pos_at(s: Seq<char>, c: char, k: int)
    requires
        0 <= k <= s.len(),
        forall|i: int| 0 <= i < k ==> s[i] != c,
        k == s.len() || s[k] == c,
    ensures
        seq_char_pos(s, c) == k,
    decreases k,
{
    if k > 0 {
        assert forall|i: int| 0 <= i < k - 1 implies s.drop_first()[i] != c by {
            assert(s[i + 1] != c);
        }
        lemma_char_pos_at(s.drop_first(), c, k - 1);
    }
}

/// Copies the characters of `s` into a vector.
pub fn to_chars(s: &str) -> (v: Vec<char>)
    ensures
        v@ == s@,
{
    let mut v: Vec<char> = Vec::new();
    for c in it: s.chars()
        invariant
            v@ == it.seq().take(it.index() as int),
            it.seq() == s@,
    {
        v.push(c);
    }
    v
}

/// Whether `p` occurs in `v` at index `i`.
fn matches_at(v: &Vec<char>, p: &Vec<char>, i: usize) -> (r: bool)
    requires
        i <= v@.len(),
    ensures
        r == occurs_at(v@, p@, i as int),
{
    if p.len() > v.len() - i {
        return false;
    }
    let vl = v.len();
    let mut k: usize = 0;
    while k < p.len()
        invariant
            k <= p@.len(),
            vl == v@.len(),
            i + p@.len() <= v@.len(),
            forall|t: int| 0 <= t < k ==> v@[i + t] == p@[t],
        decreases p@.len() - k,
    {
        if v[i + k] != p[k] {
            assert(v@.subrange(i as int, i + p@.len())[k as int] != p@[k as int]);
            return false;
        }
        k += 1;
    }
    assert(v@.subrange(i as int, i + p@.len()) =~= p@);
    true
}

/// Whether the two strings hold the same characters.
pub fn str_eq(a: &str, b: &str) -> (r: bool)
    ensures
        r == (a@ == b@),
{
    let va = to_chars(a);
    let vb = to_chars(b);
    if va.len() != vb.len() {
        return false;
    }
    let r = matches_at(&va, &vb, 0);
    assert(va@.subrange(0, vb@.len() as int) =~= va@);
    r
}

/// Whether `pat` occurs in `s` (`str::contains`).
pub fn contains(s: &str, pat: &str) -> (r: bool)
    ensures
        r == seq_contains(s@, pat@),
{
    let v = to_chars(s);
    let p = to_chars(pat);
    let n = v.len();
    let m = p.len();
    if m == 0 {
        assert(s@.subrange(0, 0) =~= pat@);
        assert(occurs_at(s@, pat@, 0));
        return true;
    }
    let mut i: usize = 0;
    while m <= n - i
        invariant
            v@ == s@,
            p@ == pat@,
            n == v@.len(),
            m == p@.len(),
            m > 0,
            i <= n,
            forall|j: int| 0 <= j < i ==> !occurs_at(s@, pat@, j),
        decreases n - i,
    {
        if matches_at(&v, &p, i) {
            return true;
        }
        i += 1;
    }
    assert forall|j: int| !occurs_at(s@, pat@, j) by {
        if 0 <= j < i {
        }
    }
    false
}

/// `s` with every occurrence of the non-empty `pat` replaced by `rep` (`str::replace`).
pub fn replace(s: &str, pat: &str, rep: &str) -> (r: String)
    requires
        pat@.len() > 0,
    ensures
        r@ == seq_replace(s@, pat@, rep@),
{
    let v = to_chars(s);
    let p = to_chars(pat);
    let n = v.len();
    let m = p.len();
    let mut out = String::new();
    let mut seg: usize = 0;
    let mut i: usize = 0;
    assert(s@.skip(0) =~= s@);
    assert(s@.subrange(0, 0) =~= Seq::<char>::empty());
    assert(out@ + s@.subrange(0, 0) =~= Seq::<char>::empty());
    while m <= n - i
        invariant
            v@ == s@,
            p@ == pat@,
            n == v@.len(),
            m == p@.len(),
            m > 0,
            seg <= i <= n,
            seq_replace(s@, pat@, rep@) == out@ + s@.subrange(seg as int, i as int)
                + seq_replace(s@.skip(i as int), pat@, rep@),
        decreases n - i,
    {
        let ghost t = s@.skip(i as int);
        if matches_at(&v, &p, i) {
            assert(t.take(m as int) =~= s@.subrange(i as int, i + m));
            assert(t.skip(m as int) =~= s@.skip(i + m));
            let piece = s.substring_char(seg, i);
            out.append(piece);
            out.append(rep);
            i = i + m;
            seg = i;
            assert(s@.subrange(seg as int, i as int) =~= Seq::<char>::empty());
        } else {
            assert(t.take(m as int) =~= s@.subrange(i as int, i + m));
            assert(t.drop_first() =~= s@.skip(i + 1));
            assert(s@.subrange(seg as int, i + 1) =~= s@.subrange(seg as int, i as int).push(s@[i as int]));
            i = i + 1;
        }
    }
    let piece = s.substring_char(seg, n);
    out.append(piece);
    assert(s@.skip(i as int) =~= s@.subrange(i as int, n as int));
    assert(s@.subrange(seg as int, n as int) =~= s@.subrange(seg as int, i as int) + s@.subrange(i as int, n as int));
    out
}

/// `s` with the non-empty `suf` removed from its end as many times as it
/// is a suffix (`str::trim_end_matches`).
pub fn trim_end_matches(s: &str, suf: &str) -> (r: String)
    requires
        suf@.len() > 0,
    ensures
        r@ == seq_trim_end(s@, suf@),
{
    let v = to_chars(s);
    let p = to_chars(suf);
    let m = p.len();
    let mut k = v.len();
    assert(s@.take(k as int) =~= s@);
    while m <= k && matches_at(&v, &p, k - m)
        invariant
            k <= v@.len(),
            v@ == s@,
            p@ == suf@,
            m == p@.len(),
            m > 0,
            seq_trim_end(s@, suf@) == seq_trim_end(s@.take(k as int), suf@),
        decreases k,
    {
        let ghost t = s@.take(k as int);
        assert(t.skip(k - m) =~= s@.subrange(k - m, k as int));
        assert(t.take(k - m) =~= s@.take(k - m));
        k = k - m;
    }
    let ghost t = s@.take(k as int);
    if m <= k {
        assert(t.skip(k - m) =~= s@.subrange(k - m, k as int));
    }
    let piece = s.substring_char(0, k);
    String::from_str(piece)
}

/// The lines of `s` (`str::lines`).
pub fn lines(s: &str) -> (r: Vec<String>)
    ensures
        r@.map_values(|l: String| l@) == seq_lines(s@),
{
    let v = to_chars(s);
    let n = v.len();
    let mut out: Vec<String> = Vec::new();
    let mut pos: usize = 0;
    assert(s@.skip(0) =~= s@);
    while pos < n
        invariant
            pos <= n,
            n == v@.len(),
            v@ == s@,
            seq_lines(s@) == out@.map_values(|l: String| l@) + seq_lines(s@.skip(pos as int)),
        decreases n - pos,
    {
        let mut j = pos;
        while j < n && v[j] != '\n'
            invariant
                pos <= j <= n,
                n == v@.len(),
                forall|t: int| pos <= t < j ==> v@[t] != '\n',
            decreases n - j,
        {
            j += 1;
        }
        let ghost t = s@.skip(pos as int);
        proof {
            lemma_char_pos_at(t, '\n', j - pos);
        }
        let ghost old_views = out@.map_values(|l: String| l@);
        if j == n {
            let line = String::from_str(s.substring_char(pos, n));
            assert(line@ =~= t);
            out.push(line);
            pos = n;
            assert(out@.map_values(|l: String| l@) =~= old_views.push(t));
            assert(seq_lines(s@.skip(pos as int)) =~= Seq::<Seq<char>>::empty()) by {
                assert(s@.skip(pos as int).len() == 0);
            }
            assert(seq_lines(t) =~= seq![t]);
        } else {
            let end = if j > pos && v[j - 1] == '\r' { j - 1 } else { j };
            let line = String::from_str(s.substring_char(pos, end));
            assert(t.take(j - pos) =~= s@.subrange(pos as int, j as int));
            assert(line@ =~= strip_cr(t.take(j - pos)));
            out.push(line);
            assert(t.skip(j - pos + 1) =~= s@.skip(j + 1));
            pos = j + 1;
            assert(out@.map_values(|l: String| l@) =~= old_views.push(line@));
            assert(seq_lines(t) == seq![line@] + seq_lines(s@.skip(pos as int)));
            assert(old_views.push(line@) + seq_lines(s@.skip(pos as int)) =~= old_views + (seq![line@] + seq_lines(s@.skip(pos as int))));
        }
    }
    assert(s@.skip(pos as int) =~= Seq::<char>::empty());
    assert(out@.map_values(|l: String| l@) + Seq::<Seq<char>>::empty() =~= out@.map_values(|l: String| l@));
    out
}

/// The second of the pieces of `s` separated by `sep`, if any
/// (`s.split(sep).nth(1)`).
pub fn second_field(s: &str, sep: char) -> (r: Option<String>)
    ensures
        r matches Some(f) ==> seq_second_field(s@, sep) == Some(f@),
        r is None ==> seq_second_field(s@, sep) is None,
{
    let v = to_chars(s);
    let n = v.len();
    let mut j: usize = 0;
    while j < n && v[j] != sep
        invariant
            j <= n,
            n == v@.len(),
            forall|t: int| 0 <= t < j ==> v@[t] != sep,
        decreases n - j,
    {
        j += 1;
    }
    proof {
        lemma_char_pos_at(s@, sep, j as int);
    }
    if j == n {
        return None;
    }
    let mut k: usize = j + 1;
    while k < n && v[k] != sep
        invariant
            j < k <= n,
            n == v@.len(),
            forall|t: int| j < t < k ==> v@[t] != sep,
        decreases n - k,
    {
        k += 1;
    }
    let ghost rest = s@.skip(j + 1);
    proof {
        assert forall|t: int| 0 <= t < k - (j + 1) implies rest[t] != sep by {
            assert(rest[t] == v@[t + j + 1]);
        }
        if k < n {
            assert(rest[k - (j + 1)] == v@[k as int]);
        }
        lemma_char_pos_at(rest, sep, k - (j + 1));
    }
    let field = String::from_str(s.substring_char(j + 1, k));
    assert(field@ =~= rest.take(k - (j + 1)));
    Some(field)
}

/// Replacing a pattern that does not occur changes nothing.
pub proof fn lemma_replace_absent(s: Seq<char>, pat: Seq<char>, rep: Seq<char>)
    requires
        pat.len() > 0,
        !seq_contains(s, pat),
    ensures
        seq_replace(s, pat, rep) == s,
    decreases s.len(),
{
    if s.len() >= pat.len() {
        assert(s.take(pat.len() as int) =~= s.subrange(0, pat.len() as int));
        assert(!occurs_at(s, pat, 0));
        let t = s.drop_first();
        assert forall|i: int| !occurs_at(t, pat, i) by {
            if occurs_at(t, pat, i) {
                assert(s.subrange(i + 1, i + 1 + pat.len()) =~= t.subrange(i, i + pat.len()));
                assert(occurs_at(s, pat, i + 1));
            }
        }
        lemma_replace_absent(t, pat, rep);
        assert(seq![s[0]] + t =~= s);
    }
}

/// A text that starts with the pattern: the replacement, then the rest replaced.
pub proof fn lemma_replace_prefix(pat: Seq<char>, rest: Seq<char>, rep: Seq<char>)
    requires
        pat.len() > 0,
    ensures
        seq_replace(pat + rest, pat, rep) == rep + seq_replace(rest, pat, rep),
{
    let s = pat + rest;
    assert(s.take(pat.len() as int) =~= pat);
    assert(s.skip(pat.len() as int) =~= rest);
}

/// An occurrence in a piece of a text is an occurrence in the text.
pub proof fn lemma_contains_piece(s: Seq<char>, off: int, len: int, pat: Seq<char>)
    requires
        0 <= off,
        0 <= len,
        off + len <= s.len(),
        seq_contains(s.subrange(off, off + len), pat),
    ensures
        seq_contains(s, pat),
{
    let t = s.subrange(off, off + len);
    let i = choose|i: int| occurs_at(t, pat, i);
    assert(s.subrange(off + i, off + i + pat.len()) =~= t.subrange(i, i + pat.len()));
    assert(occurs_at(s, pat, off + i));
}

/// A pattern that occurs neither in `y` nor starts anywhere in `x`, as no
/// character of `x` is its first, does not occur in `x + y`.
pub proof fn lemma_not_contains_concat(x: Seq<char>, y: Seq<char>, pat: Seq<char>)
    requires
        pat.len() > 0,
        forall|k: int| 0 <= k < x.len() ==> x[k] != pat[0],
        !seq_contains(y, pat),
    ensures
        !seq_contains(x + y, pat),
{
    let s = x + y;
    assert forall|i: int| !occurs_at(s, pat, i) by {
        if occurs_at(s, pat, i) {
            if i < x.len() {
                assert(s.subrange(i, i + pat.len())[0] == s[i]);
            } else {
                assert(y.subrange(i - x.len(), i - x.len() + pat.len()) =~= s.subrange(i, i + pat.len()));
                assert(occurs_at(y, pat, i - x.len()));
            }
        }
    }
}

/// Lines split at a newline: the lines up to and including that newline,
/// then the lines of the rest.
pub proof fn lemma_lines_append(a: Seq<char>, b: Seq<char>)
    ensures
        seq_lines(a + seq!['\n'] + b) == seq_lines(a + seq!['\n']) + seq_lines(b),
    decreases a.len(),
{
    let s = a + seq!['\n'] + b;
    let t = a + seq!['\n'];
    lemma_char_pos_bound(a, '\n');
    let e = seq_char_pos(a, '\n') as int;
    assert forall|i: int| 0 <= i < e implies s[i] != '\n' by {
        assert(s[i] == a[i]);
    }
    assert forall|i: int| 0 <= i < e implies t[i] != '\n' by {
        assert(t[i] == a[i]);
    }
    lemma_char_pos_at(s, '\n', e);
    lemma_char_pos_at(t, '\n', e);
    assert(s.take(e) =~= a.take(e));
    assert(t.take(e) =~= a.take(e));
    if e < a.len() {
        let a2 = a.skip(e + 1);
        assert(s.skip(e + 1) =~= a2 + seq!['\n'] + b);
        assert(t.skip(e + 1) =~= a2 + seq!['\n']);
        lemma_lines_append(a2, b);
        assert(seq_lines(s) =~= seq_lines(t) + seq_lines(b));
    } else {
        assert(s.skip(e + 1) =~= b);
        assert(t.skip(e + 1) =~= Seq::<char>::empty());
        assert(seq_lines(Seq::<char>::empty()) =~= Seq::<Seq<char>>::empty());
        assert(a.take(e) =~= a);
        assert(seq_lines(t) == seq![strip_cr(a.take(e))] + seq_lines(t.skip(e + 1)));
        assert(seq_lines(t) =~= seq![strip_cr(a)]);
        assert(seq_lines(s) =~= seq_lines(t) + seq_lines(b));
    }
}

/// A text without `'\n'` is one line, when it is not empty.
pub proof fn lemma_lines_single(l: Seq<char>)
    requires
        l.len() > 0,
        forall|k: int| 0 <= k < l.len() ==> l[k] != '\n',
    ensures
        seq_lines(l) == seq![l],
{
    lemma_char_pos_at(l, '\n', l.len() as int);
}

/// When a pattern does not occur in a text, it occurs in none of its lines.
pub proof fn lemma_lines_not_contain(s: Seq<char>, pat: Seq<char>)
    requires
        !seq_contains(s, pat),
    ensures
        forall|k: int| 0 <= k < seq_lines(s).len() ==> !seq_contains(#[trigger] seq_lines(s)[k], pat),
    decreases s.len(),
{
    if s.len() > 0 {
        lemma_char_pos_bound(s, '\n');
        let e = seq_char_pos(s, '\n') as int;
        if e < s.len() {
            let head = strip_cr(s.take(e));
            if seq_contains(head, pat) {
                assert(head =~= s.subrange(0, head.len() as int));
                lemma_contains_piece(s, 0, head.len() as int, pat);
            }
            let rest = s.skip(e + 1);
            if seq_contains(rest, pat) {
                assert(rest =~= s.subrange(e + 1, s.len() as int));
                lemma_contains_piece(s, e + 1, rest.len() as int, pat);
            }
            lemma_lines_not_contain(rest, pat);
            assert forall|k: int| 0 <= k < seq_lines(s).len() implies !seq_contains(#[trigger] seq_lines(s)[k], pat) by {
                if k > 0 {
                    assert(seq_lines(s)[k] == seq_lines(rest)[k - 1]);
                }
            }
        }
    }
}

/// A line followed by a newline is that one line, its final `'\r'` dropped.
pub proof fn lemma_lines_line_newline(l: Seq<char>)
    requires
        forall|k: int| 0 <= k < l.len() ==> l[k] != '\n',
    ensures
        seq_lines(l + seq!['\n']) == seq![strip_cr(l)],
{
    let t = l + seq!['\n'];
    assert forall|k: int| 0 <= k < l.len() implies t[k] != '\n' by {
        assert(t[k] == l[k]);
    }
    lemma_char_pos_at(t, '\n', l.len() as int);
    assert(t.take(l.len() as int) =~= l);
    assert(t.skip(l.len() + 1int) =~= Seq::<char>::empty());
    assert(seq_lines(Seq::<char>::empty()) =~= Seq::<Seq<char>>::empty());
    assert(seq_lines(t) =~= seq![strip_cr(l)]);
}

/// Appending a character that the pattern does not hold creates no occurrence.
pub proof fn lemma_not_contains_push(s: Seq<char>, c: char, pat: Seq<char>)
    requires
        !seq_contains(s, pat),
        forall|k: int| 0 <= k < pat.len() ==> pat[k] != c,
    ensures
        !seq_contains(s.push(c), pat),
{
    let t = s.push(c);
    if pat.len() == 0 {
        assert(s.subrange(0, 0) =~= pat);
        assert(occurs_at(s, pat, 0));
    }
    assert forall|i: int| !occurs_at(t, pat, i) by {
        if occurs_at(t, pat, i) {
            if i + pat.len() <= s.len() {
                assert(s.subrange(i, i + pat.len()) =~= t.subrange(i, i + pat.len()));
                assert(occurs_at(s, pat, i));
            } else {
                let k = s.len() - i;
                assert(0 <= k < pat.len());
                assert(t.subrange(i, i + pat.len())[k] == t[s.len() as int]);
            }
        }
    }
}

/// Replacing in `a + b`, when no occurrence straddles the boundary, is
/// replacing in each part.
pub proof fn lemma_replace_concat(a: Seq<char>, b: Seq<char>, pat: Seq<char>, rep: Seq<char>)
    requires
        pat.len() > 0,
        forall|i: int| 0 <= i < a.len() && a.len() < i + pat.len() ==> !occurs_at(a + b, pat, i),
    ensures
        seq_replace(a + b, pat, rep) == seq_replace(a, pat, rep) + seq_replace(b, pat, rep),
    decreases a.len(),
{
    let s = a + b;
    let m = pat.len() as int;
    if a.len() == 0 {
        assert(s =~= b);
        assert(seq_replace(a, pat, rep) =~= Seq::<char>::empty());
        assert(s =~= Seq::<char>::empty() + b);
    } else if s.len() < m {
        assert(seq_replace(s, pat, rep) == s);
        assert(seq_replace(a, pat, rep) == a);
        assert(seq_replace(b, pat, rep) == b);
    } else if s.take(m) == pat {
        assert(s.take(m) =~= s.subrange(0, m));
        assert(occurs_at(s, pat, 0));
        assert(a.len() >= m);
        assert(a.take(m) =~= s.take(m));
        let a2 = a.skip(m);
        assert(s.skip(m) =~= a2 + b);
        assert forall|i: int| 0 <= i < a2.len() && a2.len() < i + m implies !occurs_at(a2 + b, pat, i) by {
            if occurs_at(a2 + b, pat, i) {
                assert((a2 + b).subrange(i, i + m) =~= s.subrange(i + m, i + m + m));
                assert(occurs_at(s, pat, i + m));
            }
        }
        lemma_replace_concat(a2, b, pat, rep);
        assert(seq_replace(s, pat, rep) =~= seq_replace(a, pat, rep) + seq_replace(b, pat, rep));
    } else {
        let a2 = a.drop_first();
        assert(s.drop_first() =~= a2 + b);
        assert forall|i: int| 0 <= i < a2.len() && a2.len() < i + m implies !occurs_at(a2 + b, pat, i) by {
            if occurs_at(a2 + b, pat, i) {
                assert((a2 + b).subrange(i, i + m) =~= s.subrange(i + 1, i + 1 + m));
                assert(occurs_at(s, pat, i + 1));
            }
        }
        lemma_replace_concat(a2, b, pat, rep);
        if a.len() < m {
            assert(seq_replace(a2, pat, rep) == a2);
            assert(seq_replace(a, pat, rep) == a);
            assert(seq![a[0]] + a2 =~= a);
            assert(seq_replace(s, pat, rep) =~= seq_replace(a, pat, rep) + seq_replace(b, pat, rep));
        } else {
            assert(a.take(m) =~= s.take(m));
            assert(s[0] == a[0]);
            assert(seq_replace(s, pat, rep) =~= seq_replace(a, pat, rep) + seq_replace(b, pat, rep));
        }
    }
}

/// An occurrence of a pattern is an occurrence of each of its beginnings.
pub proof fn lemma_contains_prefix(s: Seq<char>, pat: Seq<char>, k: int)
    requires
        0 <= k <= pat.len(),
        seq_contains(s, pat),
    ensures
        seq_contains(s, pat.take(k)),
{
    let i = choose|i: int| occurs_at(s, pat, i);
    assert(s.subrange(i, i + k) =~= s.subrange(i, i + pat.len()).take(k));
    assert(occurs_at(s, pat.take(k), i));
}

/// No occurrence straddles a character that the pattern does not hold.
pub proof fn lemma_no_straddle(a: Seq<char>, c: char, b: Seq<char>, pat: Seq<char>)
    requires
        forall|k: int| 0 <= k < pat.len() ==> pat[k] != c,
    ensures
        forall|i: int| 0 <= i < a.len() && a.len() < i + pat.len() ==> !occurs_at(a + (seq![c] + b), pat, i),
{
    let s = a + (seq![c] + b);
    assert forall|i: int| 0 <= i < a.len() && a.len() < i + pat.len() implies !occurs_at(s, pat, i) by {
        if occurs_at(s, pat, i) {
            assert(s.subrange(i, i + pat.len())[a.len() - i] == s[a.len() as int]);
        }
    }
}

/// Trimming a text that ends with the suffix is trimming the text before it.
pub proof fn lemma_trim_end_appended(x: Seq<char>, suf: Seq<char>)
    requires
        suf.len() > 0,
    ensures
        seq_trim_end(x + suf, suf) == seq_trim_end(x, suf),
{
    let s = x + suf;
    assert(s.skip(s.len() - suf.len()) =~= suf);
    assert(s.take(s.len() - suf.len()) =~= x);
}

/// `s` ends with `suf`.
pub open spec fn ends_with(s: Seq<char>, suf: Seq<char>) -> bool {
    suf.len() <= s.len() && s.skip(s.len() - suf.len()) == suf
}

/// `s` begins with `pre`.
pub open spec fn starts_with(s: Seq<char>, pre: Seq<char>) -> bool {
    pre.len() <= s.len() && s.take(pre.len() as int) == pre
}

/// Trimming leaves a beginning of the text.
pub proof fn lemma_trim_end_prefix(s: Seq<char>, suf: Seq<char>)
    ensures
        seq_trim_end(s, suf).len() <= s.len(),
        seq_trim_end(s, suf) == s.take(seq_trim_end(s, suf).len() as int),
    decreases s.len(),
{
    if suf.len() > 0 && suf.len() <= s.len() && s.skip(s.len() - suf.len()) == suf {
        let t = s.take(s.len() - suf.len());
        lemma_trim_end_prefix(t, suf);
        let r = seq_trim_end(t, suf);
        assert(s.take(r.len() as int) =~= t.take(r.len() as int));
    } else {
        assert(s.take(s.len() as int) =~= s);
    }
}

/// A pattern without the character `c`, found in neither `x` nor `y`, is not
/// found in `x`, `c`, `y` put together.
pub proof fn lemma_not_contains_sep(x: Seq<char>, c: char, y: Seq<char>, pat: Seq<char>)
    requires
        pat.len() > 0,
        forall|k: int| 0 <= k < pat.len() ==> pat[k] != c,
        !seq_contains(x, pat),
        !seq_contains(y, pat),
    ensures
        !seq_contains(x + seq![c] + y, pat),
{
    let s = x + seq![c] + y;
    let n = x.len() as int;
    assert forall|i: int| !occurs_at(s, pat, i) by {
        if occurs_at(s, pat, i) {
            if i + pat.len() <= n {
                assert(x.subrange(i, i + pat.len()) =~= s.subrange(i, i + pat.len()));
                assert(occurs_at(x, pat, i));
            } else if i <= n {
                assert(s.subrange(i, i + pat.len())[n - i] == s[n]);
            } else {
                assert(y.subrange(i - n - 1, i - n - 1 + pat.len()) =~= s.subrange(i, i + pat.len()));
                assert(occurs_at(y, pat, i - n - 1));
            }
        }
    }
}

/// A text holding `c` followed by `pat` holds `pat`.
pub proof fn lemma_contains_after_char(s: Seq<char>, c: char, pat: Seq<char>)
    requires
        seq_contains(s, seq![c] + pat),
    ensures
        seq_contains(s, pat),
{
    let q = seq![c] + pat;
    let i = choose|i: int| occurs_at(s, q, i);
    assert(s.subrange(i + 1, i + 1 + pat.len()) =~= s.subrange(i, i + q.len()).skip(1));
    assert(q.skip(1) =~= pat);
    assert(occurs_at(s, pat, i + 1));
}

/// When `y` does not hold `pat`, `c` followed by `y` does not hold `c`
/// followed by `pat`.
pub proof fn lemma_not_contains_led(c: char, y: Seq<char>, pat: Seq<char>)
    requires
        !seq_contains(y, pat),
    ensures
        !seq_contains(seq![c] + y, seq![c] + pat),
{
    let s = seq![c] + y;
    let q = seq![c] + pat;
    assert forall|i: int| !occurs_at(s, q, i) by {
        if occurs_at(s, q, i) {
            if i == 0 {
                assert(y.subrange(0, pat.len() as int) =~= s.subrange(1, 1 + pat.len() as int));
                assert(s.subrange(1, 1 + pat.len() as int) =~= q.skip(1));
                assert(q.skip(1) =~= pat);
                assert(occurs_at(y, pat, 0));
            } else {
                assert(y.subrange(i - 1, i - 1 + q.len()) =~= s.subrange(i, i + q.len()));
                assert(occurs_at(y, q, i - 1));
                lemma_contains_after_char(y, c, pat);
            }
        }
    }
}

} // verus!
