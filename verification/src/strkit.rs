//! Character-sequence helpers: ASCII case folding, lexicographic order and
//! substring search, with executable counterparts proved against them.
//!
//! Name ordering and the case-insensitive name search of the repositories
//! are specified with these functions.

use vstd::prelude::*;

verus! {

/// ASCII lower-casing of one character; every other character is unchanged.
pub open spec fn lower_char(c: char) -> char {
    if 65 <= c as u32 && c as u32 <= 90 {
        ((c as u32 + 32) as u8) as char
    } else {
        c
    }
}

/// ASCII lower-casing of a character sequence.
pub open spec fn lower_seq(s: Seq<char>) -> Seq<char> {
    s.map_values(|c: char| lower_char(c))
}

/// `n` occurs in `h` starting at position `i`.
pub open spec fn occurs_at(h: Seq<char>, n: Seq<char>, i: int) -> bool {
    0 <= i && i + n.len() <= h.len() && h.subrange(i, i + n.len() as int) == n
}

/// `n` occurs somewhere in `h`.
pub open spec fn has_substring(h: Seq<char>, n: Seq<char>) -> bool {
    exists|i: int| occurs_at(h, n, i)
}

/// Lexicographic order on character sequences, by code point,
/// with the empty sequence first.
pub open spec fn chars_le(a: Seq<char>, b: Seq<char>) -> bool
    decreases a.len(),
{
    if a.len() == 0 {
        true
    } else if b.len() == 0 {
        false
    } else if (a[0] as u32) < (b[0] as u32) {
        true
    } else if (a[0] as u32) > (b[0] as u32) {
        false
    } else {
        chars_le(a.drop_first(), b.drop_first())
    }
}

/// The order is total: one direction always holds.
pub proof fn lemma_chars_le_total(a: Seq<char>, b: Seq<char>)
    ensures
        chars_le(a, b) || chars_le(b, a),
    decreases a.len(),
{
    if a.len() == 0 {
    } else if b.len() == 0 {
    } else if a[0] as u32 == b[0] as u32 {
        lemma_chars_le_total(a.drop_first(), b.drop_first());
    }
}

/// The order is transitive.
pub proof fn lemma_chars_le_trans(a: Seq<char>, b: Seq<char>, c: Seq<char>)
    requires
        chars_le(a, b),
        chars_le(b, c),
    ensures
        chars_le(a, c),
    decreases a.len(),
{
    if a.len() == 0 {
    } else {
        // b and c are non-empty since chars_le(a, b) and chars_le(b, c) hold.
        if a[0] as u32 == b[0] as u32 && b[0] as u32 == c[0] as u32 {
            lemma_chars_le_trans(a.drop_first(), b.drop_first(), c.drop_first());
        }
    }
}

/// Stepping one equal character forward preserves the comparison.
proof fn lemma_chars_le_skip_step(a: Seq<char>, b: Seq<char>, i: int)
    requires
        0 <= i < a.len(),
        0 <= i < b.len(),
        a[i] == b[i],
    ensures
        chars_le(a.skip(i), b.skip(i)) == chars_le(a.skip(i + 1), b.skip(i + 1)),
{
    let sa = a.skip(i);
    let sb = b.skip(i);
    assert(sa[0] == a[i]);
    assert(sb[0] == b[i]);
    assert(sa.drop_first() =~= a.skip(i + 1));
    assert(sb.drop_first() =~= b.skip(i + 1));
}

/// Character-for-character string equality.
pub fn str_eq(a: &str, b: &str) -> (r: bool)
    ensures
        r == (a@ == b@),
{
    let alen = a.unicode_len();
    let blen = b.unicode_len();
    if alen != blen {
        return false;
    }
    let mut i: usize = 0;
    while i < alen
        invariant
            i <= alen,
            alen == a@.len(),
            alen == b@.len(),
            forall|k: int| 0 <= k < i ==> a@[k] == b@[k],
        decreases alen - i,
    {
        if a.get_char(i) != b.get_char(i) {
            return false;
        }
        i = i + 1;
    }
    proof {
        assert(a@ =~= b@);
    }
    true
}

/// Lexicographic comparison of two strings by code point.
pub fn str_le(a: &str, b: &str) -> (r: bool)
    ensures
        r == chars_le(a@, b@),
{
    let alen = a.unicode_len();
    let blen = b.unicode_len();
    let mut i: usize = 0;
    proof {
        assert(a@.skip(0) =~= a@);
        assert(b@.skip(0) =~= b@);
    }
    loop
        invariant
            i <= alen,
            i <= blen,
            alen == a@.len(),
            blen == b@.len(),
            chars_le(a@, b@) == chars_le(a@.skip(i as int), b@.skip(i as int)),
            chars_le(b@, a@) == chars_le(b@.skip(i as int), a@.skip(i as int)),
        decreases alen - i,
    {
        if i >= alen {
            assert(a@.skip(i as int).len() == 0);
            return true;
        }
        if i >= blen {
            assert(b@.skip(i as int).len() == 0);
            assert(a@.skip(i as int).len() > 0);
            return false;
        }
        let ca = a.get_char(i);
        let cb = b.get_char(i);
        let xa = ca as u32;
        let xb = cb as u32;
        proof {
            assert(a@.skip(i as int)[0] == a@[i as int]);
            assert(b@.skip(i as int)[0] == b@[i as int]);
        }
        if xa < xb {
            return true;
        }
        if xa > xb {
            return false;
        }
        proof {
            assert(ca == cb);
            lemma_chars_le_skip_step(a@, b@, i as int);
            lemma_chars_le_skip_step(b@, a@, i as int);
        }
        i = i + 1;
    }
}

/// ASCII lower-casing of one character.
pub fn fold_char(c: char) -> (r: char)
    ensures
        r == lower_char(c),
{
    let x = c as u32;
    if 65 <= x && x <= 90 {
        ((x + 32) as u8) as char
    } else {
        c
    }
}

/// Case-insensitive substring test: does the query occur in the name,
/// after ASCII lower-casing both?
pub fn name_matches(name: &str, query: &str) -> (r: bool)
    ensures
        r == has_substring(lower_seq(name@), lower_seq(query@)),
{
    let h = name.unicode_len();
    let n = query.unicode_len();
    let ghost lh = lower_seq(name@);
    let ghost ln = lower_seq(query@);
    assert(lh.len() == h && ln.len() == n);
    if n == 0 {
        assert(occurs_at(lh, ln, 0)) by {
            assert(lh.subrange(0, 0) =~= ln);
        }
        return true;
    }
    if n > h {
        proof {
            if has_substring(lh, ln) {
                let w = choose|w: int| occurs_at(lh, ln, w);
                assert(w + ln.len() <= lh.len());
            }
        }
        return false;
    }
    let mut i: usize = 0;
    loop
        invariant
            1 <= n <= h,
            i <= h - n + 1,
            h == name@.len(),
            n == query@.len(),
            lh == lower_seq(name@),
            ln == lower_seq(query@),
            forall|k: int| 0 <= k < i ==> !occurs_at(lh, ln, k),
        decreases h - n + 1 - i,
    {
        if i > h - n {
            proof {
                if has_substring(lh, ln) {
                    let w = choose|w: int| occurs_at(lh, ln, w);
                    assert(w + ln.len() <= lh.len());
                    assert(0 <= w <= h - n < i);
                    assert(!occurs_at(lh, ln, w));
                }
            }
            return false;
        }
        // compare ln against lh at offset i
        let mut j: usize = 0;
        let mut hit: bool = true;
        while j < n
            invariant
                hit ==> forall|t: int| 0 <= t < j ==> lh[i + t] == ln[t],
                !hit ==> !occurs_at(lh, ln, i as int),
                i + n <= h,
                j <= n,
                h == name@.len(),
                n == query@.len(),
                lh == lower_seq(name@),
                ln == lower_seq(query@),
            decreases n - j,
        {
            let ch = fold_char(name.get_char(i + j));
            let cq = fold_char(query.get_char(j));
            assert(ch == lh[i + j] && cq == ln[j as int]);
            if ch != cq {
                proof {
                    let sub = lh.subrange(i as int, i + ln.len() as int);
                    assert(sub[j as int] == lh[i + j]);
                    assert(sub != ln);
                }
                hit = false;
                j = n;
            } else {
                j = j + 1;
            }
        }
        if hit {
            proof {
                let sub = lh.subrange(i as int, i + ln.len() as int);
                assert(forall|t: int| 0 <= t < ln.len() ==> sub[t] == lh[i + t]);
                assert(sub =~= ln);
                assert(occurs_at(lh, ln, i as int));
            }
            return true;
        }
        i = i + 1;
    }
}

} // verus!
