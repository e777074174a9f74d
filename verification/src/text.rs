//! Verified byte-string helpers: the statement is handled as its UTF-8
//! bytes, so offsets are byte offsets exactly as the caller sees them.

use vstd::prelude::*;

verus! {

/// The first index `i` in `[from, to)` with `s[i] == c`, if any.
pub open spec fn find_from(s: Seq<u8>, from: int, to: int, c: u8) -> Option<int>
    decreases to - from,
{
    if from < 0 || from >= to || to > s.len() {
        None
    } else if s[from] == c {
        Some(from)
    } else {
        find_from(s, from + 1, to, c)
    }
}

/// What `find_from` returns is the first occurrence.
pub proof fn lemma_find_from(s: Seq<u8>, from: int, to: int, c: u8)
    requires
        0 <= from <= to <= s.len(),
    ensures
        match find_from(s, from, to, c) {
            Some(i) => from <= i < to && s[i] == c && forall|j: int| from <= j < i ==> s[j] != c,
            None => forall|j: int| from <= j < to ==> s[j] != c,
        },
    decreases to - from,
{
    if from < to {
        lemma_find_from(s, from + 1, to, c);
    }
}

/// Scans `s[from..to]` for the byte `c` and returns the index of its first
/// occurrence.
pub fn find_byte(s: &[u8], from: usize, to: usize, c: u8) -> (r: Option<usize>)
    requires
        from <= to <= s@.len(),
    ensures
        match r {
            Some(i) => find_from(s@, from as int, to as int, c) == Some(i as int),
            None => find_from(s@, from as int, to as int, c) is None,
        },
{
    let mut i: usize = from;
    while i < to
        invariant
            from <= i <= to <= s@.len(),
            forall|j: int| from <= j < i ==> s@[j] != c,
        decreases to - i,
    {
        if s[i] == c {
            proof {
                lemma_find_from(s@, from as int, to as int, c);
            }
            return Some(i);
        }
        i = i + 1;
    }
    proof {
        lemma_find_from(s@, from as int, to as int, c);
    }
    None
}

/// Whether two byte strings hold the same bytes.
pub fn bytes_eq(a: &[u8], b: &[u8]) -> (r: bool)
    ensures
        r == (a@ == b@),
{
    if a.len() != b.len() {
        proof {
            assert(a@.len() != b@.len());
        }
        return false;
    }
    let n: usize = a.len();
    let mut i: usize = 0;
    while i < n
        invariant
            i <= n,
            n == a@.len() && n == b@.len(),
            forall|j: int| 0 <= j < i ==> a@[j] == b@[j],
        decreases n - i,
    {
        if a[i] != b[i] {
            proof {
                assert(a@[i as int] != b@[i as int]);
            }
            return false;
        }
        i = i + 1;
    }
    proof {
        assert(a@ =~= b@);
    }
    true
}

/// Copies `s[from..to]` into an owned vector.
pub fn subrange_vec(s: &[u8], from: usize, to: usize) -> (r: Vec<u8>)
    requires
        from <= to <= s@.len(),
    ensures
        r@ == s@.subrange(from as int, to as int),
{
    let mut r: Vec<u8> = Vec::new();
    let mut i: usize = from;
    while i < to
        invariant
            from <= i <= to <= s@.len(),
            r@ =~= s@.subrange(from as int, i as int),
        decreases to - i,
    {
        r.push(s[i]);
        i = i + 1;
        proof {
            assert(r@ =~= s@.subrange(from as int, i as int));
        }
    }
    r
}

/// The ASCII whitespace bytes that trimming removes.
pub open spec fn is_ws(b: u8) -> bool {
    b == 32 || b == 9 || b == 10 || b == 11 || b == 12 || b == 13
}

/// `s` with leading whitespace removed.
pub open spec fn trim_front(s: Seq<u8>) -> Seq<u8>
    decreases s.len(),
{
    if s.len() > 0 && is_ws(s[0]) {
        trim_front(s.subrange(1, s.len() as int))
    } else {
        s
    }
}

/// `s` with trailing whitespace removed.
pub open spec fn trim_back(s: Seq<u8>) -> Seq<u8>
    decreases s.len(),
{
    if s.len() > 0 && is_ws(s[s.len() - 1]) {
        trim_back(s.subrange(0, s.len() - 1))
    } else {
        s
    }
}

/// `s` with whitespace removed at both ends.
pub open spec fn trim_bytes(s: Seq<u8>) -> Seq<u8> {
    trim_back(trim_front(s))
}

proof fn lemma_trim_front_range(s: Seq<u8>)
    ensures
        exists|a: int|
            0 <= a <= s.len() && trim_front(s) =~= s.subrange(a, s.len() as int) && (forall|j: int|
                0 <= j < a ==> is_ws(s[j])) && (a < s.len() ==> !is_ws(s[a])),
    decreases s.len(),
{
    if s.len() > 0 && is_ws(s[0]) {
        let t = s.subrange(1, s.len() as int);
        lemma_trim_front_range(t);
        let a0 = choose|a: int|
            0 <= a <= t.len() && trim_front(t) =~= t.subrange(a, t.len() as int) && (forall|j: int|
                0 <= j < a ==> is_ws(t[j])) && (a < t.len() ==> !is_ws(t[a]));
        assert(t.subrange(a0, t.len() as int) =~= s.subrange(a0 + 1, s.len() as int));
        assert(forall|j: int| 0 <= j < t.len() ==> t[j] == s[j + 1]);
        assert forall|j: int| 0 <= j < a0 + 1 implies is_ws(s[j]) by {
            if j > 0 {
                assert(is_ws(t[j - 1]));
                assert(t[j - 1] == s[j]);
            }
        }
        assert(0 <= a0 + 1 <= s.len() && trim_front(s) =~= s.subrange(a0 + 1, s.len() as int) && (
        forall|j: int| 0 <= j < a0 + 1 ==> is_ws(s[j])) && (a0 + 1 < s.len() ==> !is_ws(s[a0 + 1])));
    } else {
        assert(trim_front(s) =~= s.subrange(0, s.len() as int));
    }
}

proof fn lemma_trim_back_range(s: Seq<u8>)
    ensures
        exists|b: int|
            0 <= b <= s.len() && trim_back(s) =~= s.subrange(0, b) && (forall|j: int|
                b <= j < s.len() ==> is_ws(s[j])) && (b > 0 ==> !is_ws(s[b - 1])),
    decreases s.len(),
{
    if s.len() > 0 && is_ws(s[s.len() - 1]) {
        let t = s.subrange(0, s.len() - 1);
        lemma_trim_back_range(t);
        let b0 = choose|b: int|
            0 <= b <= t.len() && trim_back(t) =~= t.subrange(0, b) && (forall|j: int|
                b <= j < t.len() ==> is_ws(t[j])) && (b > 0 ==> !is_ws(t[b - 1]));
        assert(t.subrange(0, b0) =~= s.subrange(0, b0));
        assert(forall|j: int| 0 <= j < t.len() ==> t[j] == s[j]);
        assert forall|j: int| b0 <= j < s.len() implies is_ws(s[j]) by {
            if j < s.len() - 1 {
                assert(is_ws(t[j]));
                assert(t[j] == s[j]);
            } else {
                assert(is_ws(s[s.len() - 1]));
            }
        }
        assert(0 <= b0 <= s.len() && trim_back(s) =~= s.subrange(0, b0) && (forall|j: int|
            b0 <= j < s.len() ==> is_ws(s[j])) && (b0 > 0 ==> !is_ws(s[b0 - 1])));
    } else {
        assert(trim_back(s) =~= s.subrange(0, s.len() as int));
    }
}

/// Trimming a string whose head is no whitespace keeps that head.
pub proof fn lemma_trim_keeps_head(s: Seq<u8>)
    requires
        s.len() > 0,
        !is_ws(s[0]),
    ensures
        trim_bytes(s).len() > 0,
        trim_bytes(s)[0] == s[0],
{
    assert(trim_front(s) == s);
    lemma_trim_back_range(s);
    let b = choose|b: int|
        0 <= b <= s.len() && trim_back(s) =~= s.subrange(0, b) && (forall|j: int|
            b <= j < s.len() ==> is_ws(s[j])) && (b > 0 ==> !is_ws(s[b - 1]));
    assert(b > 0) by {
        if b == 0 {
            assert(is_ws(s[0]));
        }
    }
    assert(trim_bytes(s)[0] == s.subrange(0, b)[0]);
}

/// Removes whitespace at both ends of `s`, as trimming a string does.
pub fn trim_vec(s: &[u8]) -> (r: Vec<u8>)
    ensures
        r@ == trim_bytes(s@),
{
    let n: usize = s.len();
    let mut a: usize = 0;
    while a < n
        invariant
            a <= n,
            n == s@.len(),
            forall|j: int| 0 <= j < a ==> is_ws(s@[j]),
        ensures
            a <= n,
            forall|j: int| 0 <= j < a ==> is_ws(s@[j]),
            a < n ==> !is_ws(s@[a as int]),
        decreases n - a,
    {
        if !is_ws_byte(s[a]) {
            break ;
        }
        a = a + 1;
    }
    let mut b: usize = n;
    while b > a
        invariant
            a <= b <= n,
            n == s@.len(),
            forall|j: int| b <= j < n ==> is_ws(s@[j]),
        ensures
            a <= b <= n,
            forall|j: int| b <= j < n ==> is_ws(s@[j]),
            b > a ==> !is_ws(s@[b - 1]),
        decreases b,
    {
        if !is_ws_byte(s[b - 1]) {
            break ;
        }
        b = b - 1;
    }
    let r = subrange_vec(s, a, b);
    proof {
        lemma_trim_front_range(s@);
        let a0 = choose|x: int|
            0 <= x <= s@.len() && trim_front(s@) =~= s@.subrange(x, s@.len() as int) && (forall|
                j: int,
            |
                0 <= j < x ==> is_ws(s@[j])) && (x < s@.len() ==> !is_ws(s@[x]));
        if a < n {
            assert(!is_ws(s@[a as int]));
        }
        assert(a0 == a) by {
            if a0 < a {
                assert(is_ws(s@[a0]));
            }
            if a0 > a {
                assert(is_ws(s@[a as int]));
            }
        }
        let f = trim_front(s@);
        lemma_trim_back_range(f);
        let b0 = choose|x: int|
            0 <= x <= f.len() && trim_back(f) =~= f.subrange(0, x) && (forall|j: int|
                x <= j < f.len() ==> is_ws(f[j])) && (x > 0 ==> !is_ws(f[x - 1]));
        assert(f =~= s@.subrange(a as int, n as int));
        assert(b0 == b - a) by {
            if b > a {
                assert(!is_ws(s@[b - 1]));
                assert(f[b - a - 1] == s@[b - 1]);
            }
            if b0 < b - a {
                assert(is_ws(f[b - a - 1]));
                assert(f[b - a - 1] == s@[b - 1]);
            }
            if b0 > b - a {
                assert(is_ws(s@[a + b0 - 1]));
                assert(f[b0 - 1] == s@[a + b0 - 1]);
            }
        }
        assert(trim_back(f) =~= f.subrange(0, b - a));
        assert(f.subrange(0, b - a) =~= s@.subrange(a as int, b as int));
        assert(r@ == trim_bytes(s@));
    }
    r
}

/// Every non-overlapping occurrence of `n` in `h` replaced by `r`,
/// scanning left to right.
pub open spec fn replace_all_spec(h: Seq<u8>, n: Seq<u8>, r: Seq<u8>) -> Seq<u8>
    decreases h.len() when n.len() > 0
{
    if h.len() < n.len() {
        h
    } else if h.subrange(0, n.len() as int) == n {
        r + replace_all_spec(h.skip(n.len() as int), n, r)
    } else {
        seq![h[0]] + replace_all_spec(h.skip(1), n, r)
    }
}

/// Whether `n` occurs in `h` at position `i`.
fn matches_at(h: &[u8], i: usize, n: &[u8]) -> (r: bool)
    requires
        i + n@.len() <= h@.len(),
    ensures
        r == (h@.subrange(i as int, i + n@.len()) == n@),
{
    let m: usize = n.len();
    let hl: usize = h.len();
    let mut j: usize = 0;
    while j < m
        invariant
            j <= m,
            m == n@.len(),
            hl == h@.len(),
            i + m <= hl,
            forall|k: int| 0 <= k < j ==> h@[i + k] == n@[k],
        decreases m - j,
    {
        if h[i + j] != n[j] {
            proof {
                assert(h@.subrange(i as int, i + n@.len())[j as int] == h@[i + j]);
            }
            return false;
        }
        j = j + 1;
    }
    proof {
        assert(h@.subrange(i as int, i + n@.len()) =~= n@);
    }
    true
}

/// Replaces every non-overlapping occurrence of `n` in `h` by `r`, left to
/// right, as replacing a pattern in a string does.
pub fn replace_all(h: &[u8], n: &[u8], r: &[u8]) -> (out: Vec<u8>)
    requires
        n@.len() > 0,
    ensures
        out@ == replace_all_spec(h@, n@, r@),
{
    let mut out: Vec<u8> = Vec::new();
    let hn: usize = h.len();
    let m: usize = n.len();
    let mut i: usize = 0;
    proof {
        assert(h@.skip(0) =~= h@);
    }
    while i < hn
        invariant
            i <= hn,
            hn == h@.len(),
            m == n@.len(),
            m > 0,
            out@ + replace_all_spec(h@.skip(i as int), n@, r@) == replace_all_spec(h@, n@, r@),
        decreases hn - i,
    {
        let ghost prev_out = out@;
        let ghost rest = h@.skip(i as int);
        if m <= hn - i && matches_at(h, i, n) {
            proof {
                assert(rest.len() >= m);
                assert(rest.subrange(0, m as int) =~= h@.subrange(i as int, i + m as int));
                assert(replace_all_spec(rest, n@, r@) == r@ + replace_all_spec(
                    rest.skip(m as int),
                    n@,
                    r@,
                ));
                assert(rest.skip(m as int) =~= h@.skip(i + m));
            }
            out.extend_from_slice(r);
            i = i + m;
            proof {
                assert(out@ =~= prev_out + r@);
                assert(out@ + replace_all_spec(h@.skip(i as int), n@, r@) =~= (prev_out + r@)
                    + replace_all_spec(h@.skip(i as int), n@, r@));
                assert((prev_out + r@) + replace_all_spec(h@.skip(i as int), n@, r@) =~= prev_out
                    + (r@ + replace_all_spec(h@.skip(i as int), n@, r@)));
            }
        } else {
            proof {
                if rest.len() >= m {
                    assert(rest.subrange(0, m as int) =~= h@.subrange(i as int, i + m as int));
                }
                assert(replace_all_spec(rest, n@, r@) == seq![h@[i as int]] + replace_all_spec(
                    rest.skip(1),
                    n@,
                    r@,
                ));
                assert(rest.skip(1) =~= h@.skip(i + 1));
            }
            out.push(h[i]);
            i = i + 1;
            proof {
                assert(out@ =~= prev_out + seq![h@[i - 1]]);
                assert(out@ + replace_all_spec(h@.skip(i as int), n@, r@) =~= prev_out + (seq![
                    h@[i - 1],
                ] + replace_all_spec(h@.skip(i as int), n@, r@)));
            }
        }
    }
    proof {
        assert(h@.skip(hn as int) =~= Seq::<u8>::empty());
        assert(replace_all_spec(h@.skip(hn as int), n@, r@) =~= Seq::<u8>::empty());
        assert(out@ =~= out@ + Seq::<u8>::empty());
    }
    out
}

/// Whether the byte is trimmable whitespace.
pub fn is_ws_byte(b: u8) -> (r: bool)
    ensures
        r == is_ws(b),
{
    b == 32 || b == 9 || b == 10 || b == 11 || b == 12 || b == 13
}

} // verus!
