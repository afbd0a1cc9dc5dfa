//! Byte-level helpers shared by the parser, the router and the writer.
use vstd::prelude::*;

verus! {

/// Carriage return.
pub const CR: u8 = 13;

/// Line feed.
pub const LF: u8 = 10;

/// `:`, the separator between a header's name and its value.
pub const COLON: u8 = 58;

/// `.`
pub const DOT: u8 = 46;

/// `/`
pub const SLASH: u8 = 47;

/// `\`
pub const BACKSLASH: u8 = 92;

/// ASCII whitespace, as `u8::is_ascii_whitespace` defines it.
pub open spec fn is_ws(b: u8) -> bool {
    b == 32 || b == 9 || b == 10 || b == 12 || b == 13
}

pub fn is_ws_byte(b: u8) -> (r: bool)
    ensures
        r == is_ws(b),
{
    b == 32 || b == 9 || b == 10 || b == 12 || b == 13
}

/// `s` begins with `p`.
pub open spec fn has_prefix(s: Seq<u8>, p: Seq<u8>) -> bool {
    p.len() <= s.len() && s.subrange(0, p.len() as int) == p
}

/// `s` holds two dots in a row somewhere.
pub open spec fn has_dot_dot(s: Seq<u8>) -> bool {
    exists|i: int| 0 <= i && i + 1 < s.len() && #[trigger] s[i] == DOT && s[i + 1] == DOT
}

/// The first index at or after `i` where `s` holds `b`, or `s.len()` if there is none.
pub open spec fn find_from(s: Seq<u8>, b: u8, i: int) -> int
    decreases s.len() - i,
{
    if i < 0 || i >= s.len() {
        s.len() as int
    } else if s[i] == b {
        i
    } else {
        find_from(s, b, i + 1)
    }
}

pub proof fn lemma_find_from_bounds(s: Seq<u8>, b: u8, i: int)
    requires
        0 <= i <= s.len(),
    ensures
        i <= find_from(s, b, i) <= s.len(),
        find_from(s, b, i) < s.len() ==> s[find_from(s, b, i)] == b,
        forall|j: int| i <= j < find_from(s, b, i) ==> s[j] != b,
    decreases s.len() - i,
{
    if i < s.len() && s[i] != b {
        lemma_find_from_bounds(s, b, i + 1);
    }
}

/// Where `s` first holds `b` at or after `i`, when that place is known.
pub proof fn lemma_find_from_at(s: Seq<u8>, b: u8, i: int, j: int)
    requires
        0 <= i <= j < s.len(),
        s[j] == b,
        forall|k: int| i <= k < j ==> s[k] != b,
    ensures
        find_from(s, b, i) == j,
    decreases j - i,
{
    if i < j {
        lemma_find_from_at(s, b, i + 1, j);
    }
}

/// `s` with leading whitespace removed.
pub open spec fn trim_start(s: Seq<u8>) -> Seq<u8>
    decreases s.len(),
{
    if s.len() > 0 && is_ws(s[0]) {
        trim_start(s.drop_first())
    } else {
        s
    }
}

/// `s` with trailing whitespace removed.
pub open spec fn trim_end(s: Seq<u8>) -> Seq<u8>
    decreases s.len(),
{
    if s.len() > 0 && is_ws(s.last()) {
        trim_end(s.drop_last())
    } else {
        s
    }
}

/// `s` with surrounding whitespace removed.
pub open spec fn trim(s: Seq<u8>) -> Seq<u8> {
    trim_end(trim_start(s))
}

/// The whitespace-separated tokens of `s`, in order.
pub open spec fn tokens(s: Seq<u8>) -> Seq<Seq<u8>>
    decreases s.len(),
{
    if s.len() == 0 {
        seq![]
    } else {
        let prev = tokens(s.drop_last());
        let c = s.last();
        if is_ws(c) {
            prev
        } else if s.len() >= 2 && !is_ws(s[s.len() - 2]) {
            prev.update(prev.len() - 1, prev.last().push(c))
        } else {
            prev.push(seq![c])
        }
    }
}

/// A string that ends in a byte other than whitespace has at least one token.
pub proof fn lemma_tokens_nonempty(s: Seq<u8>)
    requires
        s.len() > 0,
        !is_ws(s.last()),
    ensures
        tokens(s).len() > 0,
    decreases s.len(),
{
    if s.len() >= 2 && !is_ws(s[s.len() - 2]) {
        assert(s.drop_last().last() == s[s.len() - 2]);
        lemma_tokens_nonempty(s.drop_last());
    }
}

/// A non-empty string without whitespace is one token.
pub proof fn lemma_tokens_word(w: Seq<u8>)
    requires
        w.len() > 0,
        forall|i: int| 0 <= i < w.len() ==> !is_ws(#[trigger] w[i]),
    ensures
        tokens(w) == seq![w],
    decreases w.len(),
{
    if w.len() == 1 {
        assert(w.drop_last() =~= Seq::<u8>::empty());
        assert(tokens(w.drop_last()) =~= Seq::<Seq<u8>>::empty());
        assert(!is_ws(w[0]));
        assert(seq![w.last()] =~= w);
        assert(Seq::<Seq<u8>>::empty().push(seq![w.last()]) =~= seq![w]);
    } else {
        let p = w.drop_last();
        lemma_tokens_word(p);
        assert(w[w.len() - 2] == p[p.len() - 1]);
        assert(!is_ws(w[w.len() - 2]));
        assert(!is_ws(w[w.len() - 1]));
        assert(p.push(w.last()) =~= w);
        assert(seq![p].update(0, p.push(w.last())) =~= seq![w]);
    }
}

/// A whitespace byte at the end adds no token.
pub proof fn lemma_tokens_ws_end(w: Seq<u8>, c: u8)
    requires
        is_ws(c),
    ensures
        tokens(w.push(c)) == tokens(w),
{
    assert(w.push(c).drop_last() =~= w);
}

/// After whitespace (or at the start) the tokens of what follows are counted on their own.
pub proof fn lemma_tokens_concat(a: Seq<u8>, b: Seq<u8>)
    requires
        a.len() == 0 || is_ws(a.last()),
    ensures
        tokens(a + b) == tokens(a) + tokens(b),
    decreases b.len(),
{
    if b.len() == 0 {
        assert(a + b =~= a);
        assert(tokens(a) + tokens(b) =~= tokens(a));
    } else {
        let b1 = b.drop_last();
        let c = b.last();
        lemma_tokens_concat(a, b1);
        let ab = a + b;
        assert(ab.drop_last() =~= a + b1);
        assert(ab.last() == c);
        let ta = tokens(a);
        let tb = tokens(b1);
        if b.len() >= 2 {
            assert(ab[ab.len() - 2] == b[b.len() - 2]);
            if !is_ws(c) && !is_ws(b[b.len() - 2]) {
                assert(b1.last() == b[b.len() - 2]);
                lemma_tokens_nonempty(b1);
                assert((ta + tb).update((ta + tb).len() - 1, (ta + tb).last().push(c)) =~= ta
                    + tb.update(tb.len() - 1, tb.last().push(c)));
            }
        } else if a.len() > 0 {
            assert(ab[ab.len() - 2] == a.last());
        }
        assert((ta + tb).push(seq![c]) =~= ta + tb.push(seq![c]));
    }
}

/// The value of a string of decimal digits.
pub open spec fn digits_value(s: Seq<u8>) -> nat
    decreases s.len(),
{
    if s.len() == 0 {
        0
    } else {
        digits_value(s.drop_last()) * 10 + (s.last() - 48) as nat
    }
}

/// `s` is a non-empty string of decimal digits.
pub open spec fn is_decimal(s: Seq<u8>) -> bool {
    s.len() > 0 && forall|i: int| 0 <= i < s.len() ==> 48 <= #[trigger] s[i] <= 57
}

/// The decimal digits of `n`, most significant first, without leading zeros.
pub open spec fn decimal(n: nat) -> Seq<u8>
    decreases n,
{
    if n < 10 {
        seq![(48 + n) as u8]
    } else {
        decimal(n / 10).push((48 + n % 10) as u8)
    }
}

/// The bytes of `s` from `a` up to `b`, copied.
pub fn copy_range(s: &[u8], a: usize, b: usize) -> (r: Vec<u8>)
    requires
        a <= b <= s@.len(),
    ensures
        r@ == s@.subrange(a as int, b as int),
{
    let mut r: Vec<u8> = Vec::new();
    let mut k: usize = a;
    while k < b
        invariant
            a <= k <= b <= s@.len(),
            r@ == s@.subrange(a as int, k as int),
        decreases b - k,
    {
        r.push(s[k]);
        k += 1;
        assert(r@ =~= s@.subrange(a as int, k as int));
    }
    r
}

/// Appends all of `p` to `out`.
pub fn push_all(out: &mut Vec<u8>, p: &[u8])
    ensures
        final(out)@ == old(out)@ + p@,
{
    let mut k: usize = 0;
    while k < p.len()
        invariant
            k <= p@.len(),
            out@ == old(out)@ + p@.subrange(0, k as int),
        decreases p@.len() - k,
    {
        out.push(p[k]);
        k += 1;
        assert(out@ =~= old(out)@ + p@.subrange(0, k as int));
    }
    assert(p@.subrange(0, p@.len() as int) =~= p@);
}

/// The first index at or after `i` where `s` holds `b`, or `s.len()`.
pub fn find_byte(s: &[u8], b: u8, i: usize) -> (r: usize)
    requires
        i <= s@.len(),
    ensures
        r == find_from(s@, b, i as int),
{
    let mut k: usize = i;
    while k < s.len() && s[k] != b
        invariant
            i <= k <= s@.len(),
            find_from(s@, b, i as int) == find_from(s@, b, k as int),
        decreases s@.len() - k,
    {
        k += 1;
    }
    k
}

/// Whether `s` begins with `p`.
pub fn starts_with(s: &[u8], p: &[u8]) -> (r: bool)
    ensures
        r == has_prefix(s@, p@),
{
    if p.len() > s.len() {
        return false;
    }
    let mut k: usize = 0;
    while k < p.len()
        invariant
            p@.len() <= s@.len(),
            k <= p@.len(),
            forall|j: int| 0 <= j < k ==> s@[j] == p@[j],
        decreases p@.len() - k,
    {
        if s[k] != p[k] {
            assert(s@.subrange(0, p@.len() as int)[k as int] != p@[k as int]);
            return false;
        }
        k += 1;
    }
    assert(s@.subrange(0, p@.len() as int) =~= p@);
    true
}

/// Whether `a` and `b` hold the same bytes.
pub fn bytes_eq(a: &[u8], b: &[u8]) -> (r: bool)
    ensures
        r == (a@ == b@),
{
    if a.len() != b.len() {
        return false;
    }
    assert(a@.subrange(0, b@.len() as int) =~= a@);
    starts_with(a, b)
}

/// Whether `s` holds two dots in a row.
pub fn contains_dot_dot(s: &[u8]) -> (r: bool)
    ensures
        r == has_dot_dot(s@),
{
    let mut k: usize = 0;
    while k < s.len() && k + 1 < s.len()
        invariant
            k <= s@.len(),
            forall|j: int| 0 <= j < k && j + 1 < s@.len() ==> !(#[trigger] s@[j] == DOT && s@[j + 1] == DOT),
        decreases s@.len() - k,
    {
        if s[k] == DOT && s[k + 1] == DOT {
            return true;
        }
        k += 1;
    }
    assert forall|j: int| 0 <= j && j + 1 < s@.len() && #[trigger] s@[j] == DOT implies s@[j
        + 1] != DOT by {
        assert(j < k);
    }
    false
}

/// Bounds of the part of `s[a..b]` that is left once surrounding whitespace is removed.
pub fn trim_bounds(s: &[u8], a: usize, b: usize) -> (r: (usize, usize))
    requires
        a <= b <= s@.len(),
    ensures
        a <= r.0 <= r.1 <= b,
        s@.subrange(r.0 as int, r.1 as int) == trim(s@.subrange(a as int, b as int)),
{
    let mut lo: usize = a;
    while lo < b && is_ws_byte(s[lo])
        invariant
            a <= lo <= b <= s@.len(),
            trim_start(s@.subrange(a as int, b as int)) == trim_start(
                s@.subrange(lo as int, b as int),
            ),
        decreases b - lo,
    {
        assert(s@.subrange(lo as int, b as int).drop_first() =~= s@.subrange(
            lo + 1,
            b as int,
        ));
        lo += 1;
    }
    assert(trim_start(s@.subrange(lo as int, b as int)) == s@.subrange(lo as int, b as int));
    let mut hi: usize = b;
    while hi > lo && is_ws_byte(s[hi - 1])
        invariant
            a <= lo <= hi <= b <= s@.len(),
            trim(s@.subrange(a as int, b as int)) == trim_end(s@.subrange(lo as int, hi as int)),
        decreases hi - lo,
    {
        assert(s@.subrange(lo as int, hi as int).drop_last() =~= s@.subrange(
            lo as int,
            hi - 1,
        ));
        hi -= 1;
    }
    (lo, hi)
}

pub proof fn lemma_digits_value_grows(s: Seq<u8>, i: int, j: int)
    requires
        0 <= i <= j <= s.len(),
    ensures
        digits_value(s.subrange(0, i)) <= digits_value(s.subrange(0, j)),
    decreases j - i,
{
    if i < j {
        lemma_digits_value_grows(s, i, j - 1);
        assert(s.subrange(0, j).drop_last() =~= s.subrange(0, j - 1));
    }
}

/// The value of `s` as a decimal number, if it is one that fits in `usize`.
pub fn parse_decimal(s: &[u8]) -> (r: Option<usize>)
    ensures
        r == (if is_decimal(s@) && digits_value(s@) <= usize::MAX {
            Some(digits_value(s@) as usize)
        } else {
            None
        }),
{
    if s.len() == 0 {
        return None;
    }
    let mut acc: usize = 0;
    let mut k: usize = 0;
    while k < s.len()
        invariant
            k <= s@.len(),
            acc == digits_value(s@.subrange(0, k as int)),
            forall|j: int| 0 <= j < k ==> 48 <= #[trigger] s@[j] <= 57,
        decreases s@.len() - k,
    {
        let c = s[k];
        if c < 48 || c > 57 {
            return None;
        }
        let d = (c - 48) as usize;
        assert(s@.subrange(0, k + 1).drop_last() =~= s@.subrange(0, k as int));
        if acc > (usize::MAX - d) / 10 {
            proof {
                assert(digits_value(s@.subrange(0, k + 1)) > usize::MAX) by (nonlinear_arith)
                    requires
                        digits_value(s@.subrange(0, k + 1)) == acc * 10 + d,
                        acc > (usize::MAX - d) / 10,
                        d <= 9,
                ;
                lemma_digits_value_grows(s@, k + 1, s@.len() as int);
                assert(s@.subrange(0, s@.len() as int) =~= s@);
            }
            return None;
        }
        proof {
            assert(acc * 10 + d <= usize::MAX) by (nonlinear_arith)
                requires
                    acc <= (usize::MAX - d) / 10,
                    d <= 9,
            ;
        }
        acc = acc * 10 + d;
        k += 1;
    }
    assert(s@.subrange(0, s@.len() as int) =~= s@);
    Some(acc)
}

/// Appends the decimal digits of `n` to `out`.
pub fn push_decimal(out: &mut Vec<u8>, n: usize)
    ensures
        final(out)@ == old(out)@ + decimal(n as nat),
    decreases n,
{
    if n < 10 {
        out.push(48 + n as u8);
        assert(out@ =~= old(out)@ + decimal(n as nat));
    } else {
        push_decimal(out, n / 10);
        out.push(48 + (n % 10) as u8);
        assert(out@ =~= old(out)@ + decimal(n as nat));
    }
}

/// The whitespace-separated tokens of `s[a..b]`.
pub fn split_tokens(s: &[u8], a: usize, b: usize) -> (r: Vec<Vec<u8>>)
    requires
        a <= b <= s@.len(),
    ensures
        r@.len() == tokens(s@.subrange(a as int, b as int)).len(),
        forall|j: int|
            0 <= j < r@.len() ==> #[trigger] r@[j]@ == tokens(s@.subrange(a as int, b as int))[j],
{
    let mut done: Vec<Vec<u8>> = Vec::new();
    let mut cur: Vec<u8> = Vec::new();
    let ghost mut dv: Seq<Seq<u8>> = seq![];
    let mut k: usize = a;
    while k < b
        invariant
            a <= k <= b <= s@.len(),
            dv.len() == done@.len(),
            forall|j: int| 0 <= j < done@.len() ==> #[trigger] done@[j]@ == dv[j],
            cur@.len() > 0 <==> (k > a && !is_ws(s@[k - 1])),
            tokens(s@.subrange(a as int, k as int)) == (if cur@.len() > 0 {
                dv.push(cur@)
            } else {
                dv
            }),
        decreases b - k,
    {
        let c = s[k];
        let ghost t = s@.subrange(a as int, k + 1);
        assert(t.drop_last() =~= s@.subrange(a as int, k as int));
        assert(t.last() == c);
        assert(k > a ==> t[t.len() - 2] == s@[k - 1]);
        if is_ws_byte(c) {
            if cur.len() > 0 {
                proof {
                    dv = dv.push(cur@);
                }
                done.push(cur);
                cur = Vec::new();
            }
        } else {
            proof {
                if cur@.len() == 0 {
                    assert(cur@.push(c) =~= seq![c]);
                } else {
                    assert(dv.push(cur@).update(dv.len() as int, cur@.push(c)) =~= dv.push(
                        cur@.push(c),
                    ));
                }
            }
            cur.push(c);
        }
        k += 1;
    }
    if cur.len() > 0 {
        proof {
            dv = dv.push(cur@);
        }
        done.push(cur);
    }
    done
}

} // verus!
