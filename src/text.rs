//! Character-sequence helpers: literal substring replacement and its laws.
use vstd::prelude::*;

verus! {

/// `p` stands at position `i` of `s`.
pub open spec fn occurs_at(s: Seq<char>, p: Seq<char>, i: int) -> bool {
    0 <= i && i + p.len() <= s.len() && s.subrange(i, i + p.len()) == p
}

/// `p` stands somewhere in `s`.
pub open spec fn occurs_in(s: Seq<char>, p: Seq<char>) -> bool {
    exists|i: int| occurs_at(s, p, i)
}

/// Replaces every non-overlapping occurrence of `p` in `s` by `r`, scanning
/// from the left, as `str::replace` does.
pub open spec fn replace_spec(s: Seq<char>, p: Seq<char>, r: Seq<char>) -> Seq<char>
    decreases s.len(),
{
    if p.len() == 0 || s.len() < p.len() {
        s
    } else if s.subrange(0, p.len() as int) == p {
        r + replace_spec(s.subrange(p.len() as int, s.len() as int), p, r)
    } else {
        seq![s[0]] + replace_spec(s.subrange(1, s.len() as int), p, r)
    }
}

/// Text without an occurrence of the pattern comes back unchanged.
pub proof fn lemma_replace_absent(s: Seq<char>, p: Seq<char>, r: Seq<char>)
    requires
        p.len() > 0,
        !occurs_in(s, p),
    ensures
        replace_spec(s, p, r) == s,
    decreases s.len(),
{
    if s.len() >= p.len() {
        assert(!occurs_at(s, p, 0));
        let t = s.subrange(1, s.len() as int);
        assert forall|i: int| !occurs_at(t, p, i) by {
            if occurs_at(t, p, i) {
                assert(s.subrange(i + 1, i + 1 + p.len()) =~= t.subrange(i, i + p.len()));
                assert(occurs_at(s, p, i + 1));
            }
        }
        lemma_replace_absent(t, p, r);
        assert(seq![s[0]] + t =~= s);
    }
}

/// The pattern itself is replaced whole.
pub proof fn lemma_replace_exact(p: Seq<char>, r: Seq<char>)
    requires
        p.len() > 0,
    ensures
        replace_spec(p, p, r) == r,
{
    assert(p.subrange(0, p.len() as int) =~= p);
    let e = p.subrange(p.len() as int, p.len() as int);
    assert(e.len() == 0);
    assert(replace_spec(e, p, r) == e);
    assert(r + e =~= r);
}

/// Where no occurrence of the pattern straddles the seam between `x` and `y`,
/// replacing in `x + y` is replacing in each part.
pub proof fn lemma_replace_concat(x: Seq<char>, y: Seq<char>, p: Seq<char>, r: Seq<char>)
    requires
        p.len() > 0,
        forall|i: int| 0 <= i < x.len() < i + p.len() ==> !occurs_at(x + y, p, i),
    ensures
        replace_spec(x + y, p, r) == replace_spec(x, p, r) + replace_spec(y, p, r),
    decreases x.len(),
{
    let s = x + y;
    if x.len() == 0 {
        assert(s =~= y);
        assert(replace_spec(x, p, r) + replace_spec(y, p, r) =~= replace_spec(y, p, r));
    } else if s.len() < p.len() {
        assert(replace_spec(y, p, r) == y);
    } else if s.subrange(0, p.len() as int) == p {
        assert(occurs_at(s, p, 0));
        assert(p.len() <= x.len());
        assert(x.subrange(0, p.len() as int) =~= s.subrange(0, p.len() as int));
        let x2 = x.subrange(p.len() as int, x.len() as int);
        assert(s.subrange(p.len() as int, s.len() as int) =~= x2 + y);
        assert forall|i: int| 0 <= i < x2.len() < i + p.len() implies !occurs_at(x2 + y, p, i) by {
            if occurs_at(x2 + y, p, i) {
                assert(s.subrange(i + p.len(), i + 2 * p.len()) =~= (x2 + y).subrange(i, i + p.len()));
                assert(occurs_at(s, p, i + p.len()));
            }
        }
        lemma_replace_concat(x2, y, p, r);
        assert(r + (replace_spec(x2, p, r) + replace_spec(y, p, r)) =~= (r + replace_spec(x2, p, r)) + replace_spec(y, p, r));
    } else {
        let x2 = x.subrange(1, x.len() as int);
        assert(s.subrange(1, s.len() as int) =~= x2 + y);
        assert forall|i: int| 0 <= i < x2.len() < i + p.len() implies !occurs_at(x2 + y, p, i) by {
            if occurs_at(x2 + y, p, i) {
                assert(s.subrange(i + 1, i + 1 + p.len()) =~= (x2 + y).subrange(i, i + p.len()));
                assert(occurs_at(s, p, i + 1));
            }
        }
        lemma_replace_concat(x2, y, p, r);
        if x.len() < p.len() {
            assert(replace_spec(x2, p, r) == x2);
            assert(seq![x[0]] + x2 =~= x);
        } else {
            assert(x.subrange(0, p.len() as int) =~= s.subrange(0, p.len() as int));
        }
        assert(replace_spec(x, p, r) == seq![x[0]] + replace_spec(x2, p, r));
        assert(seq![s[0]] + (replace_spec(x2, p, r) + replace_spec(y, p, r)) =~= (seq![x[0]] + replace_spec(x2, p, r)) + replace_spec(y, p, r));
    }
}

/// Whether `pat` stands in `s` at character position `i`.
pub fn matches_at(s: &str, pat: &str, i: usize) -> (b: bool)
    requires
        i + pat@.len() <= s@.len(),
    ensures
        b == (s@.subrange(i as int, i + pat@.len()) == pat@),
{
    let n = s.unicode_len();
    let m = pat.unicode_len();
    let mut k: usize = 0;
    while k < m
        invariant
            n == s@.len(),
            m == pat@.len(),
            i + m <= s@.len(),
            k <= m,
            forall|j: int| 0 <= j < k ==> s@[i + j] == pat@[j],
        decreases m - k,
    {
        if s.get_char(i + k) != pat.get_char(k) {
            assert(s@.subrange(i as int, i + m)[k as int] != pat@[k as int]);
            return false;
        }
        k = k + 1;
    }
    assert(s@.subrange(i as int, i + m) =~= pat@);
    true
}

/// Replaces every non-overlapping occurrence of `pat` in `s` by `rep`.
pub fn replace_all(s: &str, pat: &str, rep: &str) -> (r: String)
    requires
        pat@.len() > 0,
    ensures
        r@ == replace_spec(s@, pat@, rep@),
{
    let n = s.unicode_len();
    let m = pat.unicode_len();
    let mut out = String::new();
    let mut i: usize = 0;
    assert(s@.subrange(0, n as int) =~= s@);
    assert(out@ + s@ =~= s@);
    while i < n
        invariant
            n == s@.len(),
            m == pat@.len(),
            m > 0,
            i <= n,
            out@ + replace_spec(s@.subrange(i as int, n as int), pat@, rep@) == replace_spec(s@, pat@, rep@),
        decreases n - i,
    {
        let ghost t = s@.subrange(i as int, n as int);
        if n - i >= m && matches_at(s, pat, i) {
            assert(t.subrange(0, m as int) =~= s@.subrange(i as int, i + m));
            assert(t.subrange(m as int, t.len() as int) =~= s@.subrange(i + m, n as int));
            out.append(rep);
            i = i + m;
            assert(out@ + replace_spec(s@.subrange(i as int, n as int), pat@, rep@) =~= replace_spec(s@, pat@, rep@));
        } else {
            let c = s.substring_char(i, i + 1);
            assert(t.subrange(1, t.len() as int) =~= s@.subrange(i + 1, n as int));
            if n - i >= m {
                assert(t.subrange(0, m as int) =~= s@.subrange(i as int, i + m));
            } else {
                assert(replace_spec(t.subrange(1, t.len() as int), pat@, rep@) == t.subrange(1, t.len() as int));
                assert(seq![t[0]] + t.subrange(1, t.len() as int) =~= t);
            }
            assert(c@ =~= seq![t[0]]);
            out.append(c);
            i = i + 1;
            assert(out@ + replace_spec(s@.subrange(i as int, n as int), pat@, rep@) =~= replace_spec(s@, pat@, rep@));
        }
    }
    assert(out@ + replace_spec(s@.subrange(n as int, n as int), pat@, rep@) =~= out@);
    out
}

} // verus!
