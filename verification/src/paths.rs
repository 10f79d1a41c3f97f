//! Byte-path algebra: file names, extensions, joining, prefix stripping,
//! and the safety condition for archive entry names.

use vstd::prelude::*;

use crate::pattern::SEP;
use crate::text::append_bytes;

verus! {

/// `.` — the extension separator.
pub const DOT: u8 = 46;

/// Index of the first byte of the final path component (the position right
/// after the last separator; 0 when there is none).
pub open spec fn name_start(p: Seq<u8>) -> int
    decreases p.len(),
{
    if p.len() == 0 {
        0
    } else if p[p.len() - 1] == SEP {
        p.len() as int
    } else {
        name_start(p.take(p.len() - 1))
    }
}

/// The final component starts within the path and everything after it is
/// separator-free.
pub proof fn lemma_name_start_props(p: Seq<u8>)
    ensures
        0 <= name_start(p) <= p.len(),
        forall|k: int| name_start(p) <= k < p.len() ==> p[k] != SEP,
        name_start(p) > 0 ==> p[name_start(p) - 1] == SEP,
    decreases p.len(),
{
    if p.len() > 0 && p[p.len() - 1] != SEP {
        lemma_name_start_props(p.take(p.len() - 1));
        assert forall|k: int| name_start(p) <= k < p.len() implies p[k] != SEP by {
            if k < p.len() - 1 {
                assert(p.take(p.len() - 1)[k] == p[k]);
            }
        }
        if name_start(p) > 0 {
            assert(p.take(p.len() - 1)[name_start(p) - 1] == p[name_start(p) - 1]);
        }
    }
}

/// Truncating after the final component does not move its start.
pub proof fn lemma_name_start_take(p: Seq<u8>, j: int)
    requires
        name_start(p) <= j <= p.len(),
    ensures
        name_start(p.take(j)) == name_start(p),
    decreases p.len() - j,
{
    lemma_name_start_props(p);
    if j == p.len() {
        assert(p.take(j) =~= p);
    } else {
        lemma_name_start_take(p, j + 1);
        assert(p.take(j + 1)[j] == p[j]);
        assert(p[j] != SEP);
        assert(p.take(j + 1).take(j) =~= p.take(j));
    }
}

/// Index of the dot that introduces the extension of the final component;
/// nothing when that component has no usable dot.
pub open spec fn ext_dot(p: Seq<u8>) -> Option<int>
    decreases p.len(),
{
    if p.len() == 0 {
        None
    } else if p[p.len() - 1] == SEP {
        None
    } else if p[p.len() - 1] == DOT {
        if p.len() - 1 > name_start(p) {
            Some((p.len() - 1) as int)
        } else {
            None
        }
    } else {
        ext_dot(p.take(p.len() - 1))
    }
}

/// The extension of the final path component, without its dot.
pub open spec fn spec_extension(p: Seq<u8>) -> Option<Seq<u8>> {
    match ext_dot(p) {
        None => None,
        Some(d) => Some(p.skip(d + 1)),
    }
}

/// Start index of the final path component.
pub fn find_name_start(p: &[u8]) -> (r: usize)
    ensures
        r as int == name_start(p@),
        r <= p@.len(),
{
    proof {
        lemma_name_start_props(p@);
        assert(p@.take(p@.len() as int) =~= p@);
    }
    let mut j: usize = p.len();
    loop
        invariant
            0 <= j <= p@.len(),
            name_start(p@) == name_start(p@.take(j as int)),
        decreases j,
    {
        if j == 0 {
            return 0;
        }
        if p[j - 1] == SEP {
            proof {
                assert(p@.take(j as int)[j - 1] == p@[j - 1]);
            }
            return j;
        }
        proof {
            assert(p@.take(j as int)[j - 1] == p@[j - 1]);
            assert(p@.take(j as int).take(j - 1) =~= p@.take(j - 1));
        }
        j -= 1;
    }
}

/// Index of the extension dot of the final component, as `ext_dot` gives
/// it.
pub fn extension_dot(p: &[u8]) -> (r: Option<usize>)
    ensures
        match r {
            Some(d) => ext_dot(p@) == Some(d as int) && d < p@.len(),
            None => ext_dot(p@) is None,
        },
{
    let ns = find_name_start(p);
    proof {
        lemma_name_start_props(p@);
        assert(p@.take(p@.len() as int) =~= p@);
    }
    let mut j: usize = p.len();
    loop
        invariant
            ns as int == name_start(p@),
            ns <= j <= p@.len(),
            forall|k: int| name_start(p@) <= k < p@.len() ==> p@[k] != SEP,
            ext_dot(p@) == ext_dot(p@.take(j as int)),
        decreases j,
    {
        if j == ns {
            proof {
                lemma_name_start_props(p@);
                if ns > 0 {
                    assert(p@[ns - 1] == SEP);
                    assert(p@.take(j as int)[j - 1] == p@[j - 1]);
                }
            }
            return None;
        }
        proof {
            assert(p@.take(j as int)[j - 1] == p@[j - 1]);
            assert(p@[j - 1] != SEP);
            lemma_name_start_take(p@, j as int);
        }
        if p[j - 1] == DOT {
            if j - 1 > ns {
                return Some(j - 1);
            }
            return None;
        }
        proof {
            assert(p@.take(j as int).take(j - 1) =~= p@.take(j - 1));
        }
        j -= 1;
    }
}

/// The extension of the final path component, or nothing.
pub fn extension_of(p: &[u8]) -> (r: Option<Vec<u8>>)
    ensures
        match r {
            Some(e) => spec_extension(p@) == Some(e@),
            None => spec_extension(p@) is None,
        },
{
    match extension_dot(p) {
        None => None,
        Some(d) => {
            let n = p.len();
            let mut e: Vec<u8> = Vec::new();
            proof {
                assert(e@ =~= p@.subrange(d + 1, d + 1));
            }
            let mut k: usize = d + 1;
            while k < p.len()
                invariant
                    d < p@.len(),
                    d + 1 <= k <= p@.len(),
                    e@ == p@.subrange(d + 1, k as int),
                decreases p@.len() - k,
            {
                e.push(p[k]);
                proof {
                    assert(p@.subrange(d + 1, k as int).push(p@[k as int]) =~= p@.subrange(
                        d + 1,
                        k + 1,
                    ));
                }
                k += 1;
            }
            proof {
                assert(p@.subrange(d + 1, p@.len() as int) =~= p@.skip(d + 1));
            }
            Some(e)
        },
    }
}

/// ASCII lower-casing of one byte.
pub open spec fn spec_lower(c: u8) -> u8 {
    if 65 <= c <= 90 {
        (c + 32) as u8
    } else {
        c
    }
}

/// ASCII lower-casing of a byte string.
pub open spec fn lower_seq(s: Seq<u8>) -> Seq<u8> {
    s.map_values(|c: u8| spec_lower(c))
}

/// Lower-cases a byte string.
pub fn to_lower(s: &[u8]) -> (r: Vec<u8>)
    ensures
        r@ == lower_seq(s@),
{
    let mut out: Vec<u8> = Vec::new();
    let mut i: usize = 0;
    while i < s.len()
        invariant
            0 <= i <= s@.len(),
            out@.len() == i,
            forall|j: int| 0 <= j < i ==> out@[j] == spec_lower(s@[j]),
        decreases s@.len() - i,
    {
        let c = s[i];
        if 65 <= c && c <= 90 {
            out.push(c + 32);
        } else {
            out.push(c);
        }
        i += 1;
    }
    proof {
        assert(out@ =~= lower_seq(s@));
    }
    out
}

/// Whether two byte strings are equal.
pub fn eq_bytes(a: &[u8], b: &[u8]) -> (r: bool)
    ensures
        r == (a@ == b@),
{
    if a.len() != b.len() {
        return false;
    }
    let mut i: usize = 0;
    while i < a.len()
        invariant
            a@.len() == b@.len(),
            0 <= i <= a@.len(),
            forall|j: int| 0 <= j < i ==> a@[j] == b@[j],
        decreases a@.len() - i,
    {
        if a[i] != b[i] {
            return false;
        }
        i += 1;
    }
    proof {
        assert(a@ =~= b@);
    }
    true
}

/// The recognized image extensions, lower-cased: `jpg`, `png`, `webp`,
/// `avif` and `gif`.
pub open spec fn image_exts() -> Seq<Seq<u8>> {
    seq![
        seq![106u8, 112, 103],
        seq![112u8, 110, 103],
        seq![119u8, 101, 98, 112],
        seq![97u8, 118, 105, 102],
        seq![103u8, 105, 102],
    ]
}

/// An entry is an image exactly when its lower-cased extension is one of
/// the recognized image extensions.
pub open spec fn spec_is_image(p: Seq<u8>) -> bool {
    match spec_extension(p) {
        None => false,
        Some(e) => image_exts().contains(lower_seq(e)),
    }
}

/// Decides `spec_is_image`.
pub fn is_image_path(p: &[u8]) -> (r: bool)
    ensures
        r == spec_is_image(p@),
{
    match extension_of(p) {
        None => false,
        Some(e) => {
            let low = to_lower(e.as_slice());
            let jpg = vec![106u8, 112, 103];
            let png = vec![112u8, 110, 103];
            let webp = vec![119u8, 101, 98, 112];
            let avif = vec![97u8, 118, 105, 102];
            let gif = vec![103u8, 105, 102];
            let hit = eq_bytes(low.as_slice(), jpg.as_slice()) || eq_bytes(
                low.as_slice(),
                png.as_slice(),
            ) || eq_bytes(low.as_slice(), webp.as_slice()) || eq_bytes(
                low.as_slice(),
                avif.as_slice(),
            ) || eq_bytes(low.as_slice(), gif.as_slice());
            proof {
                assert(jpg@ =~= image_exts()[0]);
                assert(png@ =~= image_exts()[1]);
                assert(webp@ =~= image_exts()[2]);
                assert(avif@ =~= image_exts()[3]);
                assert(gif@ =~= image_exts()[4]);
                if hit {
                    assert(image_exts().contains(lower_seq(e@)));
                } else {
                    assert forall|i: int|
                        0 <= i < image_exts().len() implies image_exts()[i] != lower_seq(e@) by {
                        assert(image_exts().len() == 5);
                    }
                }
            }
            hit
        },
    }
}

/// The path with its extension replaced (or appended): the base keeps
/// everything before the extension dot.
pub open spec fn spec_with_extension(p: Seq<u8>, e: Seq<u8>) -> Seq<u8> {
    let base = match ext_dot(p) {
        None => p,
        Some(d) => p.take(d),
    };
    if e.len() == 0 {
        base
    } else {
        base + seq![DOT] + e
    }
}

/// Replaces the extension of the final path component.
pub fn with_extension(p: &[u8], e: &[u8]) -> (r: Vec<u8>)
    ensures
        r@ == spec_with_extension(p@, e@),
{
    let mut out: Vec<u8> = Vec::new();
    let cut = match extension_dot(p) {
        None => p.len(),
        Some(d) => d,
    };
    let mut k: usize = 0;
    proof {
        assert(out@ =~= p@.subrange(0, 0));
    }
    while k < cut
        invariant
            cut <= p@.len(),
            0 <= k <= cut,
            out@ == p@.subrange(0, k as int),
        decreases cut - k,
    {
        out.push(p[k]);
        proof {
            assert(p@.subrange(0, k as int).push(p@[k as int]) =~= p@.subrange(0, k + 1));
        }
        k += 1;
    }
    proof {
        assert(p@.subrange(0, cut as int) =~= (match ext_dot(p@) {
            None => p@,
            Some(d) => p@.take(d),
        }));
    }
    if e.len() > 0 {
        let ghost base = out@;
        out.push(DOT);
        append_bytes(&mut out, e);
        proof {
            assert(base.push(DOT) + e@ =~= base + seq![DOT] + e@);
        }
    }
    out
}

/// Joining a base directory with a relative path.
pub open spec fn spec_join(base: Seq<u8>, rel: Seq<u8>) -> Seq<u8> {
    if base.len() == 0 {
        rel
    } else if base[base.len() - 1] == SEP {
        base + rel
    } else {
        base + seq![SEP] + rel
    }
}

/// Joins a base directory and a relative path with a separator.
pub fn join_path(base: &[u8], rel: &[u8]) -> (r: Vec<u8>)
    ensures
        r@ == spec_join(base@, rel@),
{
    let mut out = crate::text::dup_bytes(base);
    if base.len() == 0 {
        append_bytes(&mut out, rel);
        proof {
            assert(Seq::<u8>::empty() + rel@ =~= rel@);
        }
        return out;
    }
    if base[base.len() - 1] != SEP {
        let ghost pre = out@;
        out.push(SEP);
        proof {
            assert(out@ =~= pre + seq![SEP]);
        }
    }
    append_bytes(&mut out, rel);
    proof {
        if base@[base@.len() - 1] != SEP {
            assert(base@ + seq![SEP] + rel@ =~= (base@ + seq![SEP]) + rel@);
        }
    }
    out
}

/// The remainder of `p` under the directory `base`, when `p` lies strictly
/// under it.
pub open spec fn spec_strip_prefix(p: Seq<u8>, base: Seq<u8>) -> Option<Seq<u8>> {
    if p.len() > base.len() + 1 && p.take(base.len() as int) == base && p[base.len() as int]
        == SEP {
        Some(p.skip(base.len() as int + 1))
    } else {
        None
    }
}

/// Strips a directory prefix, returning the relative remainder.
pub fn strip_prefix(p: &[u8], base: &[u8]) -> (r: Option<Vec<u8>>)
    ensures
        match r {
            Some(rest) => spec_strip_prefix(p@, base@) == Some(rest@),
            None => spec_strip_prefix(p@, base@) is None,
        },
{
    if p.len() < 2 || base.len() > p.len() - 2 {
        return None;
    }
    let mut i: usize = 0;
    while i < base.len()
        invariant
            base@.len() + 1 < p@.len(),
            0 <= i <= base@.len(),
            forall|j: int| 0 <= j < i ==> p@[j] == base@[j],
        decreases base@.len() - i,
    {
        if p[i] != base[i] {
            proof {
                if p@.take(base@.len() as int) == base@ {
                    assert(p@.take(base@.len() as int)[i as int] == base@[i as int]);
                }
            }
            return None;
        }
        i += 1;
    }
    proof {
        assert(p@.take(base@.len() as int) =~= base@);
    }
    if p[base.len()] != SEP {
        return None;
    }
    let mut rest: Vec<u8> = Vec::new();
    let start = base.len() + 1;
    proof {
        assert(rest@ =~= p@.subrange(start as int, start as int));
    }
    let mut k: usize = start;
    while k < p.len()
        invariant
            start == base@.len() + 1,
            start <= k <= p@.len(),
            rest@ == p@.subrange(start as int, k as int),
        decreases p@.len() - k,
    {
        rest.push(p[k]);
        proof {
            assert(p@.subrange(start as int, k as int).push(p@[k as int]) =~= p@.subrange(
                start as int,
                k + 1,
            ));
        }
        k += 1;
    }
    proof {
        assert(p@.subrange(start as int, p@.len() as int) =~= p@.skip(start as int));
    }
    Some(rest)
}

/// LAW (path round trip): joining a non-empty relative path under a
/// directory and stripping that directory again yields the path unchanged,
/// so planned destinations keep their relative paths exactly.
pub proof fn lemma_join_strip_inverse(base: Seq<u8>, rel: Seq<u8>)
    requires
        base.len() > 0,
        base[base.len() - 1] != SEP,
        rel.len() > 0,
    ensures
        spec_strip_prefix(spec_join(base, rel), base) == Some(rel),
{
    let full = spec_join(base, rel);
    assert(full == base + seq![SEP] + rel);
    assert(full.take(base.len() as int) =~= base);
    assert(full[base.len() as int] == SEP);
    assert(full.skip(base.len() as int + 1) =~= rel);
}

/// A parent-directory component at index `i`.
pub open spec fn dotdot_at(p: Seq<u8>, i: int) -> bool {
    &&& 0 <= i
    &&& i + 2 <= p.len()
    &&& p[i] == DOT
    &&& p[i + 1] == DOT
    &&& (i == 0 || p[i - 1] == SEP)
    &&& (i + 2 == p.len() || p[i + 2] == SEP)
}

/// Some component of the path is `..`.
pub open spec fn has_dotdot(p: Seq<u8>) -> bool {
    exists|i: int| dotdot_at(p, i)
}

/// Some byte of the path is NUL.
pub open spec fn has_nul(p: Seq<u8>) -> bool {
    exists|i: int| 0 <= i < p.len() && p[i] == 0
}

/// A safe relative path: non-empty, not absolute, without NUL bytes and
/// without parent-directory components, so that joining it under a root
/// cannot resolve outside that root.
pub open spec fn safe_rel(p: Seq<u8>) -> bool {
    &&& p.len() > 0
    &&& p[0] != SEP
    &&& !has_nul(p)
    &&& !has_dotdot(p)
}

/// Decides `safe_rel`.
pub fn is_safe_rel(p: &[u8]) -> (r: bool)
    ensures
        r == safe_rel(p@),
{
    if p.len() == 0 {
        return false;
    }
    if p[0] == SEP {
        return false;
    }
    let mut i: usize = 0;
    while i < p.len()
        invariant
            0 <= i <= p@.len(),
            forall|j: int| 0 <= j < i ==> p@[j] != 0,
        decreases p@.len() - i,
    {
        if p[i] == 0 {
            proof {
                assert(0 <= i < p@.len() && p@[i as int] == 0);
                assert(has_nul(p@));
            }
            return false;
        }
        i += 1;
    }
    let mut k: usize = 0;
    while k < p.len()
        invariant
            0 <= k <= p@.len(),
            forall|j: int| 0 <= j < k ==> !dotdot_at(p@, j),
        decreases p@.len() - k,
    {
        if p.len() - k >= 2 && p[k] == DOT && p[k + 1] == DOT && (k == 0 || p[k - 1] == SEP) && (
        k + 2 == p.len() || p[k + 2] == SEP) {
            proof {
                assert(dotdot_at(p@, k as int));
            }
            return false;
        }
        k += 1;
    }
    proof {
        assert forall|j: int| true implies !dotdot_at(p@, j) by {
            if 0 <= j && j + 2 <= p@.len() {
                assert(!dotdot_at(p@, j));
            }
        }
    }
    true
}

} // verus!
