//! Verified character and string helpers shared by the parsers and the
//! classifier.
//!
//! Executable functions here are specified against the `Seq<char>` views that
//! `vstd` gives to `&str` and `String`. The module also defines the spec-level
//! notions of whitespace, trimming, line splitting and substring search that
//! the public contracts of the library are stated over.

use vstd::prelude::*;

verus! {

use vstd::string::StrSliceExecFns;

/// The whitespace characters recognized when trimming lines: the six ASCII
/// whitespace characters. This is the library's fixed policy for what counts
/// as a blank line; a line whose only content is other Unicode spacing is
/// treated as non-blank.
pub open spec fn is_space_char(c: char) -> bool {
    c == ' ' || c == '\t' || c == '\r' || c == '\n' || c == '\u{b}' || c == '\u{c}'
}

/// Executable mirror of [`is_space_char`].
pub fn is_space(c: char) -> (r: bool)
    ensures
        r == is_space_char(c),
{
    c == ' ' || c == '\t' || c == '\r' || c == '\n' || c == '\u{b}' || c == '\u{c}'
}

/// Equality of two string slices, decided character by character.
pub fn str_eq(a: &str, b: &str) -> (r: bool)
    ensures
        r == (a@ == b@),
{
    let an = a.unicode_len();
    let bn = b.unicode_len();
    if an != bn {
        return false;
    }
    let mut i: usize = 0;
    while i < an
        invariant
            i <= an,
            an == a@.len(),
            an == b@.len(),
            forall|j: int| 0 <= j < i ==> a@[j] == b@[j],
        decreases an - i,
    {
        if a.get_char(i) != b.get_char(i) {
            return false;
        }
        i = i + 1;
    }
    proof {
        assert(a@ =~= b@);
    }
    true
}

/// `p` occurs as a contiguous substring of `t`.
pub open spec fn has_sub(t: Seq<char>, p: Seq<char>) -> bool {
    exists|i: int| 0 <= i && i + p.len() <= t.len() && #[trigger] t.subrange(i, i + p.len()) == p
}

/// Substring search, specified by [`has_sub`].
pub fn contains_sub(t: &str, p: &str) -> (r: bool)
    ensures
        r == has_sub(t@, p@),
{
    let tn = t.unicode_len();
    let pn = p.unicode_len();
    if pn > tn {
        return false;
    }
    if pn == 0 {
        proof {
            assert(t@.subrange(0, 0 + p@.len() as int) =~= p@);
        }
        return true;
    }
    let mut i: usize = 0;
    while i <= tn - pn
        invariant
            1 <= pn <= tn,
            tn == t@.len(),
            pn == p@.len(),
            i <= tn - pn + 1,
            forall|k: int| 0 <= k < i ==> #[trigger] t@.subrange(k, k + pn) != p@,
        decreases tn - pn + 1 - i,
    {
        let mut j: usize = 0;
        let mut matched: bool = true;
        while matched && j < pn
            invariant
                pn <= tn,
                tn == t@.len(),
                pn == p@.len(),
                i + pn <= tn,
                j <= pn,
                matched ==> forall|q: int| 0 <= q < j ==> t@[i + q] == p@[q],
                !matched ==> t@.subrange(i as int, i + pn) != p@,
            decreases pn - j,
        {
            if t.get_char(i + j) != p.get_char(j) {
                proof {
                    assert(t@.subrange(i as int, i + pn)[j as int] == t@[i + j]);
                }
                matched = false;
                j = pn;
            } else {
                j = j + 1;
            }
        }
        if matched {
            proof {
                assert(t@.subrange(i as int, i + pn) =~= p@);
            }
            return true;
        }
        i = i + 1;
    }
    proof {
        assert(!has_sub(t@, p@)) by {
            if has_sub(t@, p@) {
                let k = choose|k: int|
                    0 <= k && k + p@.len() <= t@.len() && #[trigger] t@.subrange(k, k + p@.len())
                        == p@;
                assert(t@.subrange(k, k + pn) != p@);
            }
        }
    }
    false
}

/// `p` is a prefix of `s`.
pub open spec fn is_prefix(s: Seq<char>, p: Seq<char>) -> bool {
    p.len() <= s.len() && s.subrange(0, p.len() as int) == p
}

/// Prefix test, specified by [`is_prefix`].
pub fn has_prefix(s: &str, p: &str) -> (r: bool)
    ensures
        r == is_prefix(s@, p@),
{
    let sn = s.unicode_len();
    let pn = p.unicode_len();
    if pn > sn {
        return false;
    }
    let mut i: usize = 0;
    while i < pn
        invariant
            pn <= sn,
            sn == s@.len(),
            pn == p@.len(),
            i <= pn,
            forall|j: int| 0 <= j < i ==> s@[j] == p@[j],
        decreases pn - i,
    {
        if s.get_char(i) != p.get_char(i) {
            proof {
                assert(s@.subrange(0, pn as int)[i as int] == s@[i as int]);
            }
            return false;
        }
        i = i + 1;
    }
    proof {
        assert(s@.subrange(0, pn as int) =~= p@);
    }
    true
}

/// Index of the first occurrence of `c` in `l`, or `l.len()` if absent.
pub open spec fn find_ch(l: Seq<char>, c: char) -> int
    decreases l.len(),
{
    if l.len() == 0 {
        0
    } else if l[0] == c {
        0
    } else {
        1 + find_ch(l.drop_first(), c)
    }
}

pub proof fn lemma_find_ch_eq(l: Seq<char>, c: char, k: int)
    requires
        0 <= k <= l.len(),
        forall|j: int| 0 <= j < k ==> l[j] != c,
        k < l.len() ==> l[k] == c,
    ensures
        find_ch(l, c) == k,
    decreases l.len(),
{
    if l.len() > 0 && l[0] != c {
        assert(k != 0);
        lemma_find_ch_eq(l.drop_first(), c, k - 1);
    }
}

/// Searches `s` for the first occurrence of `c` within `[from, to)`.
pub fn find_char_in(s: &str, from: usize, to: usize, c: char) -> (r: Option<usize>)
    requires
        from <= to <= s@.len(),
    ensures
        match r {
            Some(i) => from <= i < to && s@[i as int] == c && forall|j: int|
                from <= j < i ==> s@[j] != c,
            None => forall|j: int| from <= j < to ==> s@[j] != c,
        },
{
    let mut i: usize = from;
    while i < to
        invariant
            from <= i <= to,
            to <= s@.len(),
            forall|j: int| from <= j < i ==> s@[j] != c,
        decreases to - i,
    {
        if s.get_char(i) == c {
            return Some(i);
        }
        i = i + 1;
    }
    None
}

/// Number of leading whitespace characters of `l`.
pub open spec fn leading_spaces(l: Seq<char>) -> int
    decreases l.len(),
{
    if l.len() == 0 {
        0
    } else if is_space_char(l[0]) {
        1 + leading_spaces(l.drop_first())
    } else {
        0
    }
}

/// Number of trailing whitespace characters of `l`.
pub open spec fn trailing_spaces(l: Seq<char>) -> int
    decreases l.len(),
{
    if l.len() == 0 {
        0
    } else if is_space_char(l[l.len() - 1]) {
        1 + trailing_spaces(l.drop_last())
    } else {
        0
    }
}

/// `l` with leading and trailing whitespace removed.
pub open spec fn trim_spec(l: Seq<char>) -> Seq<char> {
    let a = leading_spaces(l);
    let b = l.len() - trailing_spaces(l);
    if a <= b {
        l.subrange(a, b)
    } else {
        Seq::empty()
    }
}

pub proof fn lemma_leading_spaces_eq(l: Seq<char>, k: int)
    requires
        0 <= k <= l.len(),
        forall|j: int| 0 <= j < k ==> is_space_char(l[j]),
        k < l.len() ==> !is_space_char(l[k]),
    ensures
        leading_spaces(l) == k,
    decreases l.len(),
{
    if l.len() > 0 && is_space_char(l[0]) {
        assert(k != 0);
        lemma_leading_spaces_eq(l.drop_first(), k - 1);
    }
}

pub proof fn lemma_trailing_spaces_eq(l: Seq<char>, k: int)
    requires
        0 <= k <= l.len(),
        forall|j: int| l.len() - k <= j < l.len() ==> is_space_char(l[j]),
        k < l.len() ==> !is_space_char(l[l.len() - 1 - k]),
    ensures
        trailing_spaces(l) == k,
    decreases l.len(),
{
    if l.len() > 0 && is_space_char(l[l.len() - 1]) {
        assert(k != 0);
        lemma_trailing_spaces_eq(l.drop_last(), k - 1);
    }
}

/// Finds the bounds of the trimmed region of `s[from..to]`.
pub fn trim_bounds(s: &str, from: usize, to: usize) -> (r: (usize, usize))
    requires
        from <= to <= s@.len(),
    ensures
        from <= r.0 <= r.1 <= to,
        s@.subrange(r.0 as int, r.1 as int) == trim_spec(s@.subrange(from as int, to as int)),
{
    let ghost l = s@.subrange(from as int, to as int);
    let mut i: usize = from;
    while i < to && is_space(s.get_char(i))
        invariant
            from <= i <= to,
            to <= s@.len(),
            forall|j: int| from <= j < i ==> is_space_char(s@[j]),
        decreases to - i,
    {
        i = i + 1;
    }
    if i == to {
        proof {
            lemma_leading_spaces_eq(l, l.len() as int);
            lemma_trailing_spaces_eq(l, l.len() as int);
            assert(s@.subrange(to as int, to as int) =~= Seq::<char>::empty());
            if l.len() > 0 {
                assert(trim_spec(l) == Seq::<char>::empty());
            } else {
                assert(trim_spec(l) =~= Seq::<char>::empty());
            }
        }
        return (to, to);
    }
    let mut j: usize = to;
    while j > i && is_space(s.get_char(j - 1))
        invariant
            i <= j <= to,
            i < to,
            to <= s@.len(),
            !is_space_char(s@[i as int]),
            forall|k: int| j <= k < to ==> is_space_char(s@[k]),
        decreases j,
    {
        j = j - 1;
    }
    proof {
        assert(j > i) by {
            if j == i {
                assert(is_space_char(s@[i as int]));
            }
        }
        lemma_leading_spaces_eq(l, i - from);
        lemma_trailing_spaces_eq(l, to - j);
        assert(s@.subrange(i as int, j as int) =~= l.subrange(
            i - from,
            (j - from) as int,
        ));
    }
    (i, j)
}

/// The lines of `s`, split at `'\n'`; a final newline does not introduce a
/// trailing empty line.
pub open spec fn split_lines(s: Seq<char>) -> Seq<Seq<char>>
    decreases s.len(),
{
    if s.len() == 0 {
        Seq::empty()
    } else {
        let rest = split_lines(s.drop_first());
        if s[0] == '\n' {
            seq![Seq::<char>::empty()] + rest
        } else if rest.len() == 0 {
            seq![s]
        } else {
            seq![seq![s[0]] + rest[0]] + rest.drop_first()
        }
    }
}

/// Unrolls [`split_lines`] once, at the first line break of `s`.
pub proof fn lemma_split_lines_step(s: Seq<char>, n: int)
    requires
        s.len() > 0,
        0 <= n <= s.len(),
        forall|j: int| 0 <= j < n ==> s[j] != '\n',
        n < s.len() ==> s[n] == '\n',
    ensures
        n < s.len() ==> split_lines(s) == seq![s.subrange(0, n)] + split_lines(
            s.subrange(n + 1, s.len() as int),
        ),
        n == s.len() ==> split_lines(s) == seq![s],
    decreases n,
{
    let rest = split_lines(s.drop_first());
    if n == 0 {
        if n < s.len() {
            assert(s.drop_first() =~= s.subrange(1, s.len() as int));
            assert(s.subrange(0, 0) =~= Seq::<char>::empty());
        } else {
            assert(s.len() == 0);
        }
    } else {
        let s1 = s.drop_first();
        assert(s1 =~= s.subrange(1, s.len() as int));
        if s1.len() == 0 {
            // s has one character and it is not a newline, so n == 1 == s.len()
            assert(n == s.len());
            assert(split_lines(s) == seq![s]);
        } else {
            lemma_split_lines_step(s1, n - 1);
            if n < s.len() {
                assert(rest == seq![s1.subrange(0, n - 1)] + split_lines(
                    s1.subrange(n, s1.len() as int),
                ));
                assert(rest.len() > 0);
                assert(rest[0] == s1.subrange(0, n - 1));
                assert(seq![s[0]] + s1.subrange(0, n - 1) =~= s.subrange(0, n));
                assert(s1.subrange(n, s1.len() as int) =~= s.subrange(n + 1, s.len() as int));
                assert(rest.drop_first() =~= split_lines(s.subrange(n + 1, s.len() as int)));
                assert(split_lines(s) == seq![seq![s[0]] + rest[0]] + rest.drop_first());
                assert(split_lines(s) =~= seq![s.subrange(0, n)] + split_lines(
                    s.subrange(n + 1, s.len() as int),
                ));
            } else {
                assert(rest == seq![s1]);
                assert(seq![s[0]] + s1 =~= s);
                assert(split_lines(s) == seq![seq![s[0]] + rest[0]] + rest.drop_first());
                assert(split_lines(s) =~= seq![s]);
            }
        }
    }
}

/// The span `sp` delimits line `i` of `s`.
pub open spec fn span_ok(s: Seq<char>, all: Seq<Seq<char>>, sp: (usize, usize), i: int) -> bool {
    sp.0 <= sp.1 <= s.len() && s.subrange(sp.0 as int, sp.1 as int) == all[i]
}

/// Computes the character spans of the lines of `s`, in order.
pub fn line_spans(s: &str) -> (r: Vec<(usize, usize)>)
    ensures
        r@.len() == split_lines(s@).len(),
        forall|i: int| 0 <= i < r@.len() ==> #[trigger] span_ok(s@, split_lines(s@), r@[i], i),
{
    let n = s.unicode_len();
    let ghost all = split_lines(s@);
    let mut r: Vec<(usize, usize)> = Vec::new();
    let mut pos: usize = 0;
    proof {
        assert(s@.subrange(0, n as int) =~= s@);
        assert(all.subrange(0, all.len() as int) =~= all);
    }
    while pos < n
        invariant
            pos <= n,
            n == s@.len(),
            all == split_lines(s@),
            r@.len() <= all.len(),
            forall|i: int| 0 <= i < r@.len() ==> #[trigger] span_ok(s@, all, r@[i], i),
            all.subrange(r@.len() as int, all.len() as int) == split_lines(
                s@.subrange(pos as int, n as int),
            ),
        decreases n - pos,
    {
        let ghost rem = s@.subrange(pos as int, n as int);
        let ghost done = r@.len() as int;
        let nl = find_char_in(s, pos, n, '\n');
        let le: usize = match nl {
            Some(k) => k,
            None => n,
        };
        proof {
            assert(rem.len() > 0);
            let nn = le - pos;
            assert forall|j: int| 0 <= j < nn implies rem[j] != '\n' by {
                assert(rem[j] == s@[pos + j]);
            }
            if nn < rem.len() {
                assert(rem[nn as int] == s@[le as int]);
            }
            lemma_split_lines_step(rem, le - pos);
            assert(rem.subrange(0, le - pos) =~= s@.subrange(pos as int, le as int));
        }
        let ghost prev = r@;
        r.push((pos, le));
        proof {
            let tail = all.subrange(done, all.len() as int);
            if le < n {
                assert(tail == seq![s@.subrange(pos as int, le as int)] + split_lines(
                    rem.subrange(le - pos + 1, rem.len() as int),
                ));
                assert(rem.subrange(le - pos + 1, rem.len() as int) =~= s@.subrange(
                    le + 1,
                    n as int,
                ));
            } else {
                assert(tail == seq![rem]);
                assert(rem =~= s@.subrange(pos as int, le as int));
            }
            assert(tail.len() > 0);
            assert(done < all.len());
            assert(all[done] == tail[0]);
            assert(all[done] == s@.subrange(pos as int, le as int));
            assert(all.subrange(done + 1, all.len() as int) =~= tail.drop_first());
            assert forall|i: int| 0 <= i < r@.len() implies #[trigger] span_ok(
                s@,
                all,
                r@[i],
                i,
            ) by {
                if i < done {
                    assert(r@[i] == prev[i]);
                    assert(span_ok(s@, all, prev[i], i));
                } else {
                    assert(r@[i] == (pos, le));
                }
            }
        }
        if le < n {
            pos = le + 1;
        } else {
            proof {
                assert(s@.subrange(n as int, n as int).len() == 0);
                assert(split_lines(s@.subrange(n as int, n as int)) =~= Seq::<Seq<char>>::empty());
            }
            pos = n;
        }
    }
    proof {
        assert(s@.subrange(pos as int, n as int).len() == 0);
        assert(split_lines(s@.subrange(pos as int, n as int)) =~= Seq::<Seq<char>>::empty());
        assert(all.subrange(r@.len() as int, all.len() as int).len() == 0);
        assert(r@.len() == all.len());
    }
    r
}

/// Strict lexicographic order on character sequences, by code point.
pub open spec fn seq_char_lt(a: Seq<char>, b: Seq<char>) -> bool
    decreases a.len(),
{
    if b.len() == 0 {
        false
    } else if a.len() == 0 {
        true
    } else if a[0] != b[0] {
        (a[0] as u32) < (b[0] as u32)
    } else {
        seq_char_lt(a.drop_first(), b.drop_first())
    }
}

/// Non-strict lexicographic order on character sequences.
pub open spec fn seq_char_le(a: Seq<char>, b: Seq<char>) -> bool {
    seq_char_lt(a, b) || a == b
}

/// The strict order is asymmetric, and two sequences that neither orders
/// are equal.
pub proof fn lemma_seq_char_lt_total(a: Seq<char>, b: Seq<char>)
    ensures
        !(seq_char_lt(a, b) && seq_char_lt(b, a)),
        !seq_char_lt(a, b) && !seq_char_lt(b, a) ==> a == b,
    decreases a.len(),
{
    if a.len() == 0 && b.len() == 0 {
        assert(a =~= b);
    } else if a.len() > 0 && b.len() > 0 {
        if a[0] == b[0] {
            lemma_seq_char_lt_total(a.drop_first(), b.drop_first());
            if !seq_char_lt(a, b) && !seq_char_lt(b, a) {
                assert(!seq_char_lt(a.drop_first(), b.drop_first()));
                assert(!seq_char_lt(b.drop_first(), a.drop_first()));
                assert(a.drop_first() == b.drop_first());
                assert forall|j: int| 0 <= j < a.len() implies a[j] == b[j] by {
                    if j > 0 {
                        assert(a.drop_first()[j - 1] == b.drop_first()[j - 1]);
                    }
                }
                assert(a =~= b);
            }
        } else {
            if !seq_char_lt(a, b) && !seq_char_lt(b, a) {
                assert((a[0] as u32) == (b[0] as u32));
                vstd::utf8::char_u32_cast(a[0], a[0] as u32);
                vstd::utf8::char_u32_cast(b[0], b[0] as u32);
                assert(a[0] == b[0]);
            }
        }
    }
}

/// The strict order is transitive.
pub proof fn lemma_seq_char_lt_trans(a: Seq<char>, b: Seq<char>, c: Seq<char>)
    requires
        seq_char_lt(a, b),
        seq_char_lt(b, c),
    ensures
        seq_char_lt(a, c),
    decreases a.len(),
{
    if a.len() > 0 && b.len() > 0 && c.len() > 0 {
        if a[0] == b[0] && b[0] == c[0] {
            lemma_seq_char_lt_trans(a.drop_first(), b.drop_first(), c.drop_first());
        }
    }
}

/// Strict-below-or-equal composed with strict stays strict, and so on; the
/// non-strict order is transitive.
pub proof fn lemma_seq_char_le_trans(a: Seq<char>, b: Seq<char>, c: Seq<char>)
    requires
        seq_char_le(a, b),
        seq_char_le(b, c),
    ensures
        seq_char_le(a, c),
{
    if seq_char_lt(a, b) && seq_char_lt(b, c) {
        lemma_seq_char_lt_trans(a, b, c);
    }
}

/// Dropping an equal prefix does not change the order.
pub proof fn lemma_seq_char_lt_skip(a: Seq<char>, b: Seq<char>, i: int)
    requires
        0 <= i <= a.len(),
        i <= b.len(),
        forall|j: int| 0 <= j < i ==> a[j] == b[j],
    ensures
        seq_char_lt(a, b) == seq_char_lt(
            a.subrange(i, a.len() as int),
            b.subrange(i, b.len() as int),
        ),
    decreases i,
{
    if i == 0 {
        assert(a.subrange(0, a.len() as int) =~= a);
        assert(b.subrange(0, b.len() as int) =~= b);
    } else {
        let a1 = a.drop_first();
        let b1 = b.drop_first();
        assert(a[0] == b[0]);
        assert forall|j: int| 0 <= j < i - 1 implies a1[j] == b1[j] by {
            assert(a[j + 1] == b[j + 1]);
        }
        lemma_seq_char_lt_skip(a1, b1, i - 1);
        assert(a1.subrange(i - 1, a1.len() as int) =~= a.subrange(i, a.len() as int));
        assert(b1.subrange(i - 1, b1.len() as int) =~= b.subrange(i, b.len() as int));
    }
}

/// Lexicographic comparison of two string slices, specified by
/// [`seq_char_lt`].
pub fn str_lt(a: &str, b: &str) -> (r: bool)
    ensures
        r == seq_char_lt(a@, b@),
{
    let an = a.unicode_len();
    let bn = b.unicode_len();
    let mut i: usize = 0;
    while i < an && i < bn
        invariant
            i <= an,
            i <= bn,
            an == a@.len(),
            bn == b@.len(),
            forall|j: int| 0 <= j < i ==> a@[j] == b@[j],
        decreases an - i,
    {
        let ca = a.get_char(i);
        let cb = b.get_char(i);
        if ca != cb {
            proof {
                lemma_seq_char_lt_skip(a@, b@, i as int);
                let ar = a@.subrange(i as int, an as int);
                let br = b@.subrange(i as int, bn as int);
                assert(ar[0] == ca);
                assert(br[0] == cb);
            }
            return (ca as u32) < (cb as u32);
        }
        i = i + 1;
    }
    proof {
        lemma_seq_char_lt_skip(a@, b@, i as int);
        let ar = a@.subrange(i as int, an as int);
        let br = b@.subrange(i as int, bn as int);
        if an < bn {
            assert(ar.len() == 0 && br.len() > 0);
        } else if an == bn {
            assert(br.len() == 0);
        } else {
            assert(br.len() == 0);
        }
    }
    an < bn
}

} // verus!
