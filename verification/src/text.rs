//! Byte-string primitives: substring search, replacement, and
//! lexicographic ordering, each against a direct mathematical model.

use vstd::multiset::Multiset;
use vstd::prelude::*;

verus! {

/// `needle` occurs in `hay` starting at index `i`.
pub open spec fn matches_at(hay: Seq<u8>, needle: Seq<u8>, i: int) -> bool {
    &&& 0 <= i
    &&& i + needle.len() <= hay.len()
    &&& hay.subrange(i, i + needle.len() as int) == needle
}

/// `needle` occurs somewhere in `hay`.
pub open spec fn contains_seq(hay: Seq<u8>, needle: Seq<u8>) -> bool {
    exists|i: int| matches_at(hay, needle, i)
}

/// Index of the leftmost occurrence of `tok` in `s` (meaningful when
/// `contains_seq(s, tok)` holds and `tok` is non-empty).
pub open spec fn first_occ(s: Seq<u8>, tok: Seq<u8>) -> int
    decreases s.len(),
{
    if tok.len() > 0 && matches_at(s, tok, 0) {
        0
    } else if s.len() == 0 {
        0
    } else {
        1 + first_occ(s.skip(1), tok)
    }
}

/// `s` with every (leftmost-first, non-overlapping) occurrence of `from`
/// replaced by `to`.
pub open spec fn spec_replace(s: Seq<u8>, from: Seq<u8>, to: Seq<u8>) -> Seq<u8>
    decreases s.len(),
{
    if s.len() == 0 {
        s
    } else if from.len() > 0 && matches_at(s, from, 0) {
        to + spec_replace(s.skip(from.len() as int), from, to)
    } else {
        seq![s[0]] + spec_replace(s.skip(1), from, to)
    }
}

/// Occurrences in a suffix are occurrences in the whole, shifted.
pub proof fn lemma_matches_at_shift(hay: Seq<u8>, needle: Seq<u8>, d: int, i: int)
    requires
        0 <= d <= hay.len(),
        0 <= i,
    ensures
        matches_at(hay.skip(d), needle, i) <==> matches_at(hay, needle, d + i),
{
    if i + needle.len() <= hay.len() - d {
        assert(hay.skip(d).subrange(i, i + needle.len() as int) =~= hay.subrange(
            d + i,
            d + i + needle.len() as int,
        ));
    }
}

/// The leftmost occurrence really is an occurrence, and nothing precedes it.
pub proof fn lemma_first_occ(s: Seq<u8>, tok: Seq<u8>)
    requires
        tok.len() > 0,
        contains_seq(s, tok),
    ensures
        0 <= first_occ(s, tok),
        first_occ(s, tok) + tok.len() <= s.len(),
        matches_at(s, tok, first_occ(s, tok)),
        forall|j: int| 0 <= j < first_occ(s, tok) ==> !matches_at(s, tok, j),
    decreases s.len(),
{
    if matches_at(s, tok, 0) {
    } else {
        let i = choose|i: int| matches_at(s, tok, i);
        assert(i >= 1);
        assert(s.len() >= 1);
        lemma_matches_at_shift(s, tok, 1, i - 1);
        assert(matches_at(s.skip(1), tok, i - 1));
        lemma_first_occ(s.skip(1), tok);
        let f = first_occ(s.skip(1), tok);
        lemma_matches_at_shift(s, tok, 1, f);
        assert forall|j: int| 0 <= j < first_occ(s, tok) implies !matches_at(s, tok, j) by {
            if j >= 1 {
                lemma_matches_at_shift(s, tok, 1, j - 1);
            }
        }
    }
}

/// With an empty token the leftmost-occurrence scan runs off the end.
pub proof fn lemma_first_occ_empty(s: Seq<u8>, tok: Seq<u8>)
    requires
        tok.len() == 0,
    ensures
        first_occ(s, tok) == s.len(),
    decreases s.len(),
{
    if s.len() > 0 {
        lemma_first_occ_empty(s.skip(1), tok);
    }
}

/// Compares `hay[i .. i + needle.len()]` with `needle`.
pub fn check_match_at(hay: &[u8], needle: &[u8], i: usize) -> (r: bool)
    requires
        i + needle@.len() <= hay@.len(),
    ensures
        r == matches_at(hay@, needle@, i as int),
{
    let n = needle.len();
    let hn = hay.len();
    let mut k: usize = 0;
    while k < n
        invariant
            i + n <= hn,
            hn == hay@.len(),
            n == needle@.len(),
            0 <= k <= n,
            forall|j: int| 0 <= j < k ==> hay@[i + j] == needle@[j],
        decreases n - k,
    {
        if hay[i + k] != needle[k] {
            proof {
                if matches_at(hay@, needle@, i as int) {
                    assert(hay@.subrange(i as int, i + needle@.len() as int)[k as int]
                        == needle@[k as int]);
                }
            }
            return false;
        }
        k += 1;
    }
    proof {
        assert(hay@.subrange(i as int, i + needle@.len() as int) =~= needle@);
    }
    true
}

/// Whether `needle` occurs in `hay`.
pub fn contains_sub(hay: &[u8], needle: &[u8]) -> (r: bool)
    ensures
        r == contains_seq(hay@, needle@),
{
    if needle.len() > hay.len() {
        assert(forall|i: int| !matches_at(hay@, needle@, i));
        return false;
    }
    let bound = hay.len() - needle.len();
    let mut i: usize = 0;
    loop
        invariant
            needle@.len() <= hay@.len(),
            bound == hay@.len() - needle@.len(),
            0 <= i <= bound,
            forall|j: int| 0 <= j < i ==> !matches_at(hay@, needle@, j),
        decreases bound - i,
    {
        if check_match_at(hay, needle, i) {
            return true;
        }
        if i == bound {
            assert(forall|j: int| !matches_at(hay@, needle@, j));
            return false;
        }
        i += 1;
    }
}

/// Leftmost occurrence of `tok` in `s`.
pub fn find_first(s: &[u8], tok: &[u8]) -> (r: usize)
    requires
        tok@.len() > 0,
        contains_seq(s@, tok@),
    ensures
        r as int == first_occ(s@, tok@),
        matches_at(s@, tok@, r as int),
        r + tok@.len() <= s@.len(),
{
    proof {
        lemma_first_occ(s@, tok@);
        assert(s@.skip(0) =~= s@);
    }
    let n = s.len();
    let tn = tok.len();
    let mut t: usize = 0;
    loop
        invariant
            tok@.len() > 0,
            n == s@.len(),
            tn == tok@.len(),
            contains_seq(s@, tok@),
            0 <= t,
            t + tn <= n,
            first_occ(s@, tok@) == t + first_occ(s@.skip(t as int), tok@),
            contains_seq(s@.skip(t as int), tok@),
        decreases s@.len() - t,
    {
        proof {
            lemma_first_occ(s@.skip(t as int), tok@);
        }
        if check_match_at(s, tok, t) {
            proof {
                lemma_matches_at_shift(s@, tok@, t as int, 0);
                assert(first_occ(s@.skip(t as int), tok@) == 0);
                lemma_first_occ(s@, tok@);
            }
            return t;
        }
        proof {
            lemma_matches_at_shift(s@, tok@, t as int, 0);
            assert(!matches_at(s@.skip(t as int), tok@, 0));
            assert(s@.skip(t as int).skip(1) =~= s@.skip(t + 1));
            let f = first_occ(s@.skip(t as int), tok@);
            lemma_first_occ(s@.skip(t as int), tok@);
            assert(matches_at(s@.skip(t as int), tok@, f));
            assert(f >= 1);
            lemma_matches_at_shift(s@.skip(t as int), tok@, 1, f - 1);
            assert(matches_at(s@.skip(t + 1), tok@, f - 1));
        }
        t += 1;
    }
}

/// Appends every byte of `b` to `out`.
pub fn append_bytes(out: &mut Vec<u8>, b: &[u8])
    ensures
        final(out)@ == old(out)@ + b@,
{
    let mut k: usize = 0;
    while k < b.len()
        invariant
            0 <= k <= b@.len(),
            out@ == old(out)@ + b@.take(k as int),
        decreases b@.len() - k,
    {
        out.push(b[k]);
        proof {
            assert(old(out)@ + b@.take(k as int) + seq![b@[k as int]] =~= old(out)@ + b@.take(
                k + 1,
            ));
        }
        k += 1;
    }
    proof {
        assert(b@.take(b@.len() as int) =~= b@);
    }
}

/// Fresh copy of the first `n` bytes of a byte string.
pub fn take_bytes(v: &[u8], n: usize) -> (r: Vec<u8>)
    requires
        n <= v@.len(),
    ensures
        r@ == v@.take(n as int),
{
    let mut out: Vec<u8> = Vec::new();
    proof {
        assert(out@ =~= v@.subrange(0, 0));
    }
    let mut k: usize = 0;
    while k < n
        invariant
            n <= v@.len(),
            0 <= k <= n,
            out@ == v@.subrange(0, k as int),
        decreases n - k,
    {
        out.push(v[k]);
        proof {
            assert(v@.subrange(0, k as int).push(v@[k as int]) =~= v@.subrange(0, k + 1));
        }
        k += 1;
    }
    out
}

/// Fresh copy of a byte string.
pub fn dup_bytes(v: &[u8]) -> (r: Vec<u8>)
    ensures
        r@ == v@,
{
    let mut out: Vec<u8> = Vec::new();
    append_bytes(&mut out, v);
    proof {
        assert(Seq::<u8>::empty() + v@ =~= v@);
    }
    out
}

/// `s` with every occurrence of `from` replaced by `to`; an empty `from`
/// replaces nothing.
pub fn replace_all(s: &[u8], from: &[u8], to: &[u8]) -> (r: Vec<u8>)
    ensures
        r@ == spec_replace(s@, from@, to@),
{
    let mut out: Vec<u8> = Vec::new();
    proof {
        assert(s@.skip(0) =~= s@);
        assert(Seq::<u8>::empty() + spec_replace(s@, from@, to@) =~= spec_replace(
            s@,
            from@,
            to@,
        ));
    }
    let mut i: usize = 0;
    while i < s.len()
        invariant
            0 <= i <= s@.len(),
            spec_replace(s@, from@, to@) == out@ + spec_replace(s@.skip(i as int), from@, to@),
        decreases s@.len() - i,
    {
        let ghost pre = out@;
        if from.len() > 0 && from.len() <= s.len() - i && check_match_at(s, from, i) {
            append_bytes(&mut out, to);
            proof {
                lemma_matches_at_shift(s@, from@, i as int, 0);
                assert(matches_at(s@.skip(i as int), from@, 0));
                assert(s@.skip(i as int).skip(from@.len() as int) =~= s@.skip(
                    i + from@.len(),
                ));
                assert(spec_replace(s@.skip(i as int), from@, to@) == to@ + spec_replace(
                    s@.skip(i + from@.len()),
                    from@,
                    to@,
                ));
                assert(pre + (to@ + spec_replace(s@.skip(i + from@.len()), from@, to@)) =~= (pre
                    + to@) + spec_replace(s@.skip(i + from@.len()), from@, to@));
            }
            i += from.len();
        } else {
            out.push(s[i]);
            proof {
                if from@.len() > 0 {
                    if i + from@.len() <= s@.len() {
                        lemma_matches_at_shift(s@, from@, i as int, 0);
                    }
                    assert(!matches_at(s@.skip(i as int), from@, 0));
                }
                assert(s@.skip(i as int)[0] == s@[i as int]);
                assert(s@.skip(i as int).skip(1) =~= s@.skip(i + 1));
                assert(spec_replace(s@.skip(i as int), from@, to@) == seq![s@[i as int]]
                    + spec_replace(s@.skip(i + 1), from@, to@));
                assert(pre + (seq![s@[i as int]] + spec_replace(s@.skip(i + 1), from@, to@)) =~= (
                pre + seq![s@[i as int]]) + spec_replace(s@.skip(i + 1), from@, to@));
                assert(pre + seq![s@[i as int]] =~= pre.push(s@[i as int]));
            }
            i += 1;
        }
    }
    proof {
        assert(s@.skip(s@.len() as int) =~= Seq::<u8>::empty());
        assert(out@ + Seq::<u8>::empty() =~= out@);
    }
    out
}

/// Byte-wise lexicographic order.
pub open spec fn lex_le(a: Seq<u8>, b: Seq<u8>) -> bool
    decreases a.len(),
{
    if a.len() == 0 {
        true
    } else if b.len() == 0 {
        false
    } else if a[0] < b[0] {
        true
    } else if a[0] > b[0] {
        false
    } else {
        lex_le(a.skip(1), b.skip(1))
    }
}

/// Lexicographic order is total.
pub proof fn lemma_lex_total(a: Seq<u8>, b: Seq<u8>)
    ensures
        lex_le(a, b) || lex_le(b, a),
    decreases a.len(),
{
    if a.len() > 0 && b.len() > 0 && a[0] == b[0] {
        lemma_lex_total(a.skip(1), b.skip(1));
    }
}

/// Lexicographic order is transitive.
pub proof fn lemma_lex_trans(a: Seq<u8>, b: Seq<u8>, c: Seq<u8>)
    requires
        lex_le(a, b),
        lex_le(b, c),
    ensures
        lex_le(a, c),
    decreases a.len(),
{
    if a.len() > 0 && b.len() > 0 && c.len() > 0 && a[0] == b[0] && b[0] == c[0] {
        lemma_lex_trans(a.skip(1), b.skip(1), c.skip(1));
    }
}

/// Lexicographic order is antisymmetric.
pub proof fn lemma_lex_antisym(a: Seq<u8>, b: Seq<u8>)
    requires
        lex_le(a, b),
        lex_le(b, a),
    ensures
        a == b,
    decreases a.len(),
{
    if a.len() > 0 && b.len() > 0 && a[0] == b[0] {
        lemma_lex_antisym(a.skip(1), b.skip(1));
        assert(a =~= seq![a[0]] + a.skip(1));
        assert(b =~= seq![b[0]] + b.skip(1));
    }
}

/// A string never exceeds one it is a prefix of.
pub proof fn lemma_lex_le_prefix(a: Seq<u8>, s: Seq<u8>)
    ensures
        lex_le(a, a + s),
    decreases a.len(),
{
    if a.len() > 0 {
        lemma_lex_le_prefix(a.skip(1), s);
        assert((a + s).skip(1) =~= a.skip(1) + s);
        assert((a + s)[0] == a[0]);
    }
}

/// Decides `lex_le` on byte strings.
pub fn lex_le_bytes(a: &[u8], b: &[u8]) -> (r: bool)
    ensures
        r == lex_le(a@, b@),
{
    proof {
        assert(a@.skip(0) =~= a@);
        assert(b@.skip(0) =~= b@);
    }
    let mut i: usize = 0;
    loop
        invariant
            0 <= i <= a@.len(),
            i <= b@.len(),
            lex_le(a@, b@) == lex_le(a@.skip(i as int), b@.skip(i as int)),
            lex_le(b@, a@) == lex_le(b@.skip(i as int), a@.skip(i as int)),
        decreases a@.len() - i,
    {
        if i == a.len() {
            return true;
        }
        if i == b.len() {
            return false;
        }
        proof {
            assert(a@.skip(i as int)[0] == a@[i as int]);
            assert(b@.skip(i as int)[0] == b@[i as int]);
            assert(a@.skip(i as int).skip(1) =~= a@.skip(i + 1));
            assert(b@.skip(i as int).skip(1) =~= b@.skip(i + 1));
        }
        if a[i] < b[i] {
            return true;
        }
        if a[i] > b[i] {
            return false;
        }
        i += 1;
    }
}

/// A list of byte paths in ascending lexicographic order.
pub open spec fn paths_sorted(s: Seq<Vec<u8>>) -> bool {
    forall|i: int, j: int| 0 <= i < j < s.len() ==> lex_le(s[i]@, s[j]@)
}

/// Sorts byte paths lexicographically; the result holds exactly the same
/// paths.
pub fn sort_paths(v: &mut Vec<Vec<u8>>)
    ensures
        final(v)@.len() == old(v)@.len(),
        paths_sorted(final(v)@),
        final(v)@.to_multiset() == old(v)@.to_multiset(),
{
    let ghost orig = v@;
    let mut out: Vec<Vec<u8>> = Vec::new();
    proof {
        out@.to_multiset_ensures();
        v@.to_multiset_ensures();
        assert(out@.to_multiset().add(v@.to_multiset()) =~= orig.to_multiset());
    }
    while v.len() > 0
        invariant
            out@.to_multiset().add(v@.to_multiset()) == orig.to_multiset(),
            out@.len() + v@.len() == orig.len(),
            paths_sorted(out@),
            forall|i: int, j: int|
                0 <= i < out@.len() && 0 <= j < v@.len() ==> lex_le(out@[i]@, v@[j]@),
        decreases v@.len(),
    {
        let mut m: usize = 0;
        let mut k: usize = 1;
        proof {
            lemma_lex_total(v@[0]@, v@[0]@);
        }
        while k < v.len()
            invariant
                1 <= k <= v@.len(),
                0 <= m < k,
                forall|t: int| 0 <= t < k ==> lex_le(v@[m as int]@, v@[t]@),
            decreases v@.len() - k,
        {
            if lex_le_bytes(v[k].as_slice(), v[m].as_slice()) {
                proof {
                    assert forall|t: int| 0 <= t < k + 1 implies lex_le(v@[k as int]@, v@[t]@) by {
                        lemma_lex_total(v@[k as int]@, v@[t]@);
                        if t < k {
                            lemma_lex_trans(v@[k as int]@, v@[m as int]@, v@[t]@);
                        }
                    }
                }
                m = k;
            } else {
                proof {
                    lemma_lex_total(v@[m as int]@, v@[k as int]@);
                }
            }
            k += 1;
        }
        let ghost pre_out = out@;
        let ghost pre_v = v@;
        let x = v.remove(m);
        out.push(x);
        proof {
            pre_v.to_multiset_ensures();
            pre_out.to_multiset_ensures();
            assert(v@.to_multiset() == pre_v.to_multiset().remove(x));
            assert(out@.to_multiset() == pre_out.to_multiset().insert(x));
            assert(pre_v.to_multiset().count(x) > 0);
            assert(out@.to_multiset().add(v@.to_multiset()) =~= pre_out.to_multiset().add(
                pre_v.to_multiset(),
            ));
            assert forall|i: int, j: int|
                0 <= i < out@.len() && 0 <= j < v@.len() implies lex_le(out@[i]@, v@[j]@) by {
                assert(v@[j] == if j < m { pre_v[j] } else { pre_v[j + 1] });
                if i < pre_out.len() {
                    assert(out@[i] == pre_out[i]);
                } else {
                    assert(out@[i] == x);
                }
            }
            assert forall|i: int, j: int|
                0 <= i < j < out@.len() implies lex_le(out@[i]@, out@[j]@) by {
                if j == out@.len() - 1 {
                    assert(out@[j] == x);
                    assert(pre_v[m as int] == x);
                }
            }
        }
    }
    proof {
        v@.to_multiset_ensures();
        assert forall|x: Vec<u8>| true implies v@.to_multiset().count(x) == 0 by {
            if v@.to_multiset().count(x) > 0 {
                assert(v@.contains(x));
            }
        }
        assert(v@.to_multiset() =~= Multiset::<Vec<u8>>::empty());
        assert(out@.to_multiset() =~= orig.to_multiset());
    }
    *v = out;
}

/// A listing of entries (path and directory flag) in ascending
/// lexicographic path order.
pub open spec fn listing_sorted(s: Seq<(Vec<u8>, bool)>) -> bool {
    forall|i: int, j: int| 0 <= i < j < s.len() ==> lex_le(s[i].0@, s[j].0@)
}

/// Sorts an entry listing lexicographically by path; the result holds
/// exactly the same entries.
pub fn sort_entries(v: &mut Vec<(Vec<u8>, bool)>)
    ensures
        final(v)@.len() == old(v)@.len(),
        listing_sorted(final(v)@),
        final(v)@.to_multiset() == old(v)@.to_multiset(),
{
    let ghost orig = v@;
    let mut out: Vec<(Vec<u8>, bool)> = Vec::new();
    proof {
        out@.to_multiset_ensures();
        v@.to_multiset_ensures();
        assert(out@.to_multiset().add(v@.to_multiset()) =~= orig.to_multiset());
    }
    while v.len() > 0
        invariant
            out@.to_multiset().add(v@.to_multiset()) == orig.to_multiset(),
            out@.len() + v@.len() == orig.len(),
            listing_sorted(out@),
            forall|i: int, j: int|
                0 <= i < out@.len() && 0 <= j < v@.len() ==> lex_le(out@[i].0@, v@[j].0@),
        decreases v@.len(),
    {
        let mut m: usize = 0;
        let mut k: usize = 1;
        proof {
            lemma_lex_total(v@[0].0@, v@[0].0@);
        }
        while k < v.len()
            invariant
                1 <= k <= v@.len(),
                0 <= m < k,
                forall|t: int| 0 <= t < k ==> lex_le(v@[m as int].0@, v@[t].0@),
            decreases v@.len() - k,
        {
            if lex_le_bytes(v[k].0.as_slice(), v[m].0.as_slice()) {
                proof {
                    assert forall|t: int|
                        0 <= t < k + 1 implies lex_le(v@[k as int].0@, v@[t].0@) by {
                        lemma_lex_total(v@[k as int].0@, v@[t].0@);
                        if t < k {
                            lemma_lex_trans(v@[k as int].0@, v@[m as int].0@, v@[t].0@);
                        }
                    }
                }
                m = k;
            } else {
                proof {
                    lemma_lex_total(v@[m as int].0@, v@[k as int].0@);
                }
            }
            k += 1;
        }
        let ghost pre_out = out@;
        let ghost pre_v = v@;
        let x = v.remove(m);
        out.push(x);
        proof {
            pre_v.to_multiset_ensures();
            pre_out.to_multiset_ensures();
            assert(v@.to_multiset() == pre_v.to_multiset().remove(x));
            assert(out@.to_multiset() == pre_out.to_multiset().insert(x));
            assert(pre_v.to_multiset().count(x) > 0);
            assert(out@.to_multiset().add(v@.to_multiset()) =~= pre_out.to_multiset().add(
                pre_v.to_multiset(),
            ));
            assert forall|i: int, j: int|
                0 <= i < out@.len() && 0 <= j < v@.len() implies lex_le(out@[i].0@, v@[j].0@) by {
                assert(v@[j] == if j < m { pre_v[j] } else { pre_v[j + 1] });
                if i < pre_out.len() {
                    assert(out@[i] == pre_out[i]);
                } else {
                    assert(out@[i] == x);
                }
            }
            assert forall|i: int, j: int|
                0 <= i < j < out@.len() implies lex_le(out@[i].0@, out@[j].0@) by {
                if j == out@.len() - 1 {
                    assert(out@[j] == x);
                    assert(pre_v[m as int] == x);
                }
            }
        }
    }
    proof {
        v@.to_multiset_ensures();
        assert forall|x: (Vec<u8>, bool)| true implies v@.to_multiset().count(x) == 0 by {
            if v@.to_multiset().count(x) > 0 {
                assert(v@.contains(x));
            }
        }
        assert(v@.to_multiset() =~= Multiset::<(Vec<u8>, bool)>::empty());
        assert(out@.to_multiset() =~= orig.to_multiset());
    }
    *v = out;
}

} // verus!
