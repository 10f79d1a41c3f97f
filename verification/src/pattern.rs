//! Pattern resolution: turns one templated source/target pair with a
//! placeholder token into concrete per-archive jobs.
//!
//! The source template is generalized to a filesystem glob (placeholder
//! occurrences become runs of single-character wildcards, literal portions
//! are escaped), and each matched path is bound back to the placeholder by a
//! fixed-width capture: the placeholder binds exactly as many bytes as the
//! token itself has.

use vstd::prelude::*;

use crate::errors::PipelineError;
use crate::job::{Conversion, Job};
use crate::text::{
    check_match_at, contains_seq, contains_sub, dup_bytes, find_first, first_occ, lemma_first_occ,
    lemma_matches_at_shift, lex_le, matches_at, replace_all, sort_paths, spec_replace,
};

verus! {

/// `\` — the glob escape byte.
pub const BACKSLASH: u8 = 92;

/// `?` — the single-character glob wildcard.
pub const QUESTION: u8 = 63;

/// `/` — the path separator, which a wildcard never matches.
pub const SEP: u8 = 47;

/// Newline, which the capture pattern never binds.
pub const NEWLINE: u8 = 10;

/// The glob metacharacters that literal template portions must escape:
/// `!`, `#`, `*`, `?`, `[`, `]`, `{` and `}`.
pub open spec fn is_glob_meta(c: u8) -> bool {
    c == 33 || c == 35 || c == 42 || c == 63 || c == 91 || c == 93 || c == 123 || c == 125
}

/// Decides `is_glob_meta`.
pub fn glob_meta(c: u8) -> (r: bool)
    ensures
        r == is_glob_meta(c),
{
    c == 33 || c == 35 || c == 42 || c == 63 || c == 91 || c == 93 || c == 123 || c == 125
}

/// A literal byte as it appears in the derived glob.
pub open spec fn glob_escape_char(c: u8) -> Seq<u8> {
    if is_glob_meta(c) {
        seq![BACKSLASH, c]
    } else {
        seq![c]
    }
}

/// A whole string with every glob metacharacter escaped.
pub open spec fn spec_escape_glob(s: Seq<u8>) -> Seq<u8>
    decreases s.len(),
{
    if s.len() == 0 {
        Seq::empty()
    } else {
        glob_escape_char(s[0]) + spec_escape_glob(s.skip(1))
    }
}

/// The glob derived from the template: each occurrence of `tok` becomes a
/// run of `tok.len()` single-character wildcards, and the literal portions
/// are escaped.
pub open spec fn spec_derive_glob(tpl: Seq<u8>, tok: Seq<u8>) -> Seq<u8>
    decreases tpl.len(),
{
    if tpl.len() == 0 {
        Seq::empty()
    } else if tok.len() > 0 && matches_at(tpl, tok, 0) {
        Seq::new(tok.len(), |i: int| QUESTION) + spec_derive_glob(
            tpl.skip(tok.len() as int),
            tok,
        )
    } else {
        glob_escape_char(tpl[0]) + spec_derive_glob(tpl.skip(1), tok)
    }
}

/// Escapes every glob metacharacter in `s`.
pub fn escape_glob(s: &[u8]) -> (r: Vec<u8>)
    ensures
        r@ == spec_escape_glob(s@),
{
    let mut out: Vec<u8> = Vec::new();
    proof {
        assert(s@.skip(0) =~= s@);
        assert(Seq::<u8>::empty() + spec_escape_glob(s@) =~= spec_escape_glob(s@));
    }
    let mut i: usize = 0;
    while i < s.len()
        invariant
            0 <= i <= s@.len(),
            spec_escape_glob(s@) == out@ + spec_escape_glob(s@.skip(i as int)),
        decreases s@.len() - i,
    {
        let ghost pre = out@;
        let c = s[i];
        if glob_meta(c) {
            out.push(BACKSLASH);
            out.push(c);
            proof {
                assert(out@ =~= pre + seq![BACKSLASH, c]);
            }
        } else {
            out.push(c);
            proof {
                assert(out@ =~= pre + seq![c]);
            }
        }
        proof {
            assert(s@.skip(i as int)[0] == s@[i as int]);
            assert(s@.skip(i as int).skip(1) =~= s@.skip(i + 1));
            assert(pre + (glob_escape_char(c) + spec_escape_glob(s@.skip(i + 1))) =~= (pre
                + glob_escape_char(c)) + spec_escape_glob(s@.skip(i + 1)));
        }
        i += 1;
    }
    proof {
        assert(s@.skip(s@.len() as int) =~= Seq::<u8>::empty());
        assert(out@ + Seq::<u8>::empty() =~= out@);
    }
    out
}

/// Derives the filesystem glob from a source template and its placeholder
/// token; with an empty token the whole template is escaped literally.
pub fn derive_glob(tpl: &[u8], tok: &[u8]) -> (r: Vec<u8>)
    ensures
        r@ == spec_derive_glob(tpl@, tok@),
{
    let mut out: Vec<u8> = Vec::new();
    proof {
        assert(tpl@.skip(0) =~= tpl@);
        assert(Seq::<u8>::empty() + spec_derive_glob(tpl@, tok@) =~= spec_derive_glob(
            tpl@,
            tok@,
        ));
    }
    let mut i: usize = 0;
    while i < tpl.len()
        invariant
            0 <= i <= tpl@.len(),
            spec_derive_glob(tpl@, tok@) == out@ + spec_derive_glob(tpl@.skip(i as int), tok@),
        decreases tpl@.len() - i,
    {
        let ghost pre = out@;
        if tok.len() > 0 && tok.len() <= tpl.len() - i && check_match_at(tpl, tok, i) {
            let n = tok.len();
            let mut k: usize = 0;
            while k < n
                invariant
                    0 <= k <= n,
                    out@ == pre + Seq::new(k as nat, |j: int| QUESTION),
                decreases n - k,
            {
                out.push(QUESTION);
                proof {
                    assert(pre + Seq::new(k as nat, |j: int| QUESTION) + seq![QUESTION] =~= pre
                        + Seq::new((k + 1) as nat, |j: int| QUESTION));
                }
                k += 1;
            }
            proof {
                lemma_matches_at_shift(tpl@, tok@, i as int, 0);
                assert(matches_at(tpl@.skip(i as int), tok@, 0));
                assert(tpl@.skip(i as int).skip(tok@.len() as int) =~= tpl@.skip(
                    i + tok@.len(),
                ));
                assert(pre + (Seq::new(tok@.len(), |j: int| QUESTION) + spec_derive_glob(
                    tpl@.skip(i + tok@.len()),
                    tok@,
                )) =~= (pre + Seq::new(tok@.len(), |j: int| QUESTION)) + spec_derive_glob(
                    tpl@.skip(i + tok@.len()),
                    tok@,
                ));
            }
            i += n;
        } else {
            let c = tpl[i];
            if glob_meta(c) {
                out.push(BACKSLASH);
                out.push(c);
                proof {
                    assert(out@ =~= pre + seq![BACKSLASH, c]);
                }
            } else {
                out.push(c);
                proof {
                    assert(out@ =~= pre + seq![c]);
                }
            }
            proof {
                if tok@.len() > 0 {
                    if i + tok@.len() <= tpl@.len() {
                        lemma_matches_at_shift(tpl@, tok@, i as int, 0);
                    }
                    assert(!matches_at(tpl@.skip(i as int), tok@, 0));
                }
                assert(tpl@.skip(i as int)[0] == tpl@[i as int]);
                assert(tpl@.skip(i as int).skip(1) =~= tpl@.skip(i + 1));
                assert(pre + (glob_escape_char(c) + spec_derive_glob(tpl@.skip(i + 1), tok@))
                    =~= (pre + glob_escape_char(c)) + spec_derive_glob(tpl@.skip(i + 1), tok@));
            }
            i += 1;
        }
    }
    proof {
        assert(tpl@.skip(tpl@.len() as int) =~= Seq::<u8>::empty());
        assert(out@ + Seq::<u8>::empty() =~= out@);
    }
    out
}

/// Matching semantics of the restricted globs this crate derives: a
/// backslash escapes the next byte, `?` matches any single byte other than
/// the path separator, and every other byte matches itself.
pub open spec fn glob_matches(g: Seq<u8>, s: Seq<u8>) -> bool
    decreases g.len(),
{
    if g.len() == 0 {
        s.len() == 0
    } else if g[0] == BACKSLASH {
        g.len() >= 2 && s.len() > 0 && s[0] == g[1] && glob_matches(g.skip(2), s.skip(1))
    } else if g[0] == QUESTION {
        s.len() > 0 && s[0] != SEP && glob_matches(g.skip(1), s.skip(1))
    } else {
        s.len() > 0 && s[0] == g[0] && glob_matches(g.skip(1), s.skip(1))
    }
}

/// The fixed-width condition: `s` agrees with `tpl` outside the placeholder
/// occurrences, and every occurrence binds exactly `tok.len()` bytes, none
/// of them `excl`.
pub open spec fn tpl_matches(tpl: Seq<u8>, tok: Seq<u8>, s: Seq<u8>, excl: u8) -> bool
    decreases tpl.len(),
{
    if tpl.len() == 0 {
        s.len() == 0
    } else if tok.len() > 0 && matches_at(tpl, tok, 0) {
        &&& s.len() >= tok.len()
        &&& (forall|i: int| 0 <= i < tok.len() ==> s[i] != excl)
        &&& tpl_matches(tpl.skip(tok.len() as int), tok, s.skip(tok.len() as int), excl)
    } else {
        s.len() > 0 && s[0] == tpl[0] && tpl_matches(tpl.skip(1), tok, s.skip(1), excl)
    }
}

/// No backslash occurs in `s`.
pub open spec fn no_backslash(s: Seq<u8>) -> bool {
    forall|i: int| 0 <= i < s.len() ==> s[i] != BACKSLASH
}

/// A run of wildcards consumes exactly that many non-separator bytes.
proof fn lemma_glob_qrun(n: int, rest: Seq<u8>, s: Seq<u8>)
    requires
        n >= 0,
    ensures
        glob_matches(Seq::new(n as nat, |i: int| QUESTION) + rest, s) <==> (s.len() >= n && (forall|
            i: int,
        |
            0 <= i < n ==> s[i] != SEP) && glob_matches(rest, s.skip(n))),
    decreases n,
{
    let q = Seq::new(n as nat, |i: int| QUESTION);
    if n == 0 {
        assert(q + rest =~= rest);
        assert(s.skip(0) =~= s);
    } else {
        let g = q + rest;
        assert(g[0] == QUESTION);
        assert(g.skip(1) =~= Seq::new((n - 1) as nat, |i: int| QUESTION) + rest);
        if s.len() > 0 && s[0] != SEP {
            lemma_glob_qrun(n - 1, rest, s.skip(1));
            if s.len() >= n {
                assert(s.skip(1).skip(n - 1) =~= s.skip(n));
            }
            if glob_matches(g, s) {
                assert(glob_matches(g.skip(1), s.skip(1)));
                assert(s.skip(1).len() >= n - 1);
                assert forall|i: int| 0 <= i < n implies s[i] != SEP by {
                    if i > 0 {
                        assert(s.skip(1)[i - 1] != SEP);
                        assert(s.skip(1)[i - 1] == s[i]);
                    }
                }
            }
            if s.len() >= n && (forall|i: int| 0 <= i < n ==> s[i] != SEP) && glob_matches(
                rest,
                s.skip(n),
            ) {
                assert forall|i: int| 0 <= i < n - 1 implies s.skip(1)[i] != SEP by {
                    assert(s.skip(1)[i] == s[i + 1]);
                    assert(s[i + 1] != SEP);
                }
                assert(glob_matches(g.skip(1), s.skip(1)));
                assert(glob_matches(g, s));
            }
        } else {
            assert(!glob_matches(g, s));
            if s.len() >= n && (forall|i: int| 0 <= i < n ==> s[i] != SEP) {
                assert(s[0] != SEP);
                assert(false);
            }
        }
    }
}

/// LAW: the glob derived from a template matches a path exactly when the
/// path satisfies the fixed-width substring condition of that template.
/// Holds for templates without backslashes, which the derivation does not
/// escape.
pub proof fn lemma_derived_glob_exact(tpl: Seq<u8>, tok: Seq<u8>, s: Seq<u8>)
    requires
        tok.len() > 0,
        no_backslash(tpl),
    ensures
        glob_matches(spec_derive_glob(tpl, tok), s) <==> tpl_matches(tpl, tok, s, SEP),
    decreases tpl.len(),
{
    if tpl.len() == 0 {
    } else if matches_at(tpl, tok, 0) {
        let n = tok.len() as int;
        let rest = spec_derive_glob(tpl.skip(n), tok);
        lemma_glob_qrun(n, rest, s);
        assert forall|i: int| 0 <= i < tpl.skip(n).len() implies tpl.skip(n)[i] != BACKSLASH by {
            assert(tpl[n + i] != BACKSLASH);
        }
        lemma_derived_glob_exact(tpl.skip(n), tok, s.skip(n));
    } else {
        let c = tpl[0];
        assert(c != BACKSLASH);
        let rest = spec_derive_glob(tpl.skip(1), tok);
        assert forall|i: int| 0 <= i < tpl.skip(1).len() implies tpl.skip(1)[i] != BACKSLASH by {
            assert(tpl[1 + i] != BACKSLASH);
        }
        lemma_derived_glob_exact(tpl.skip(1), tok, s.skip(1));
        if is_glob_meta(c) {
            let g = seq![BACKSLASH, c] + rest;
            assert(spec_derive_glob(tpl, tok) == g);
            assert(g[0] == BACKSLASH);
            assert(g[1] == c);
            assert(g.skip(2) =~= rest);
        } else {
            let g = seq![c] + rest;
            assert(spec_derive_glob(tpl, tok) == g);
            assert(g[0] == c);
            assert(g.skip(1) =~= rest);
        }
    }
}

/// Leftmost offset at which `path` holds a fixed-width match of the
/// template; the capture pattern is unanchored.
pub open spec fn spec_search(tpl: Seq<u8>, tok: Seq<u8>, path: Seq<u8>) -> Option<int>
    decreases path.len(),
{
    if tpl.len() <= path.len() && tpl_matches(tpl, tok, path.take(tpl.len() as int), NEWLINE) {
        Some(0int)
    } else if path.len() == 0 {
        None
    } else {
        match spec_search(tpl, tok, path.skip(1)) {
            None => None,
            Some(b) => Some(1 + b),
        }
    }
}

/// The value the placeholder binds: the bytes at the first token
/// occurrence's offset within the leftmost match.
pub open spec fn spec_capture(tpl: Seq<u8>, tok: Seq<u8>, path: Seq<u8>) -> Option<Seq<u8>> {
    match spec_search(tpl, tok, path) {
        None => None,
        Some(b) => Some(
            path.subrange(b + first_occ(tpl, tok), b + first_occ(tpl, tok) + tok.len() as int),
        ),
    }
}

/// A path shorter than the template holds no match.
proof fn lemma_search_short(tpl: Seq<u8>, tok: Seq<u8>, path: Seq<u8>)
    requires
        path.len() < tpl.len(),
    ensures
        spec_search(tpl, tok, path) is None,
    decreases path.len(),
{
    if path.len() > 0 {
        lemma_search_short(tpl, tok, path.skip(1));
    }
}

/// Whether the fixed-width template condition holds for the `tpl.len()`
/// bytes of `path` starting at `b`, with newline excluded from captures.
fn tpl_match_here(tpl: &[u8], tok: &[u8], path: &[u8], b: usize) -> (r: bool)
    requires
        b + tpl@.len() <= path@.len(),
    ensures
        r == tpl_matches(tpl@, tok@, path@.subrange(b as int, b + tpl@.len()), NEWLINE),
{
    let ghost seg = path@.subrange(b as int, b + tpl@.len());
    let pn = path.len();
    let tl = tpl.len();
    proof {
        assert(tpl@.skip(0) =~= tpl@);
        assert(seg.skip(0) =~= seg);
    }
    let mut t: usize = 0;
    while t < tl
        invariant
            tl == tpl@.len(),
            pn == path@.len(),
            b + tl <= pn,
            0 <= t <= tl,
            seg == path@.subrange(b as int, b + tpl@.len()),
            seg.len() == tl,
            tpl_matches(tpl@, tok@, seg, NEWLINE) == tpl_matches(
                tpl@.skip(t as int),
                tok@,
                seg.skip(t as int),
                NEWLINE,
            ),
        decreases tl - t,
    {
        proof {
            assert forall|j: int| 0 <= j < seg.len() - t implies seg.skip(t as int)[j] == path@[b
                + t + j] by {
                assert(seg[t + j] == path@[b + t + j]);
            }
        }
        if tok.len() > 0 && tok.len() <= tl - t && check_match_at(tpl, tok, t) {
            proof {
                lemma_matches_at_shift(tpl@, tok@, t as int, 0);
                assert(matches_at(tpl@.skip(t as int), tok@, 0));
            }
            let n = tok.len();
            let mut k: usize = 0;
            while k < n
                invariant
                    tok@.len() > 0,
                    n == tok@.len(),
                    tl == tpl@.len(),
                    pn == path@.len(),
                    b + tl <= pn,
                    0 <= t,
                    t + n <= tl,
                    seg == path@.subrange(b as int, b + tpl@.len()),
                    seg.len() == tl,
                    matches_at(tpl@.skip(t as int), tok@, 0),
                    tpl_matches(tpl@, tok@, seg, NEWLINE) == tpl_matches(
                        tpl@.skip(t as int),
                        tok@,
                        seg.skip(t as int),
                        NEWLINE,
                    ),
                    0 <= k <= n,
                    forall|j: int| 0 <= j < k ==> #[trigger] path@[b + t + j] != NEWLINE,
                decreases n - k,
            {
                if path[b + t + k] == NEWLINE {
                    proof {
                        assert(seg.skip(t as int)[k as int] == seg[t + k]);
                        assert(seg[t + k] == path@[b + t + k]);
                        assert(!tpl_matches(tpl@.skip(t as int), tok@, seg.skip(t as int), NEWLINE));
                    }
                    return false;
                }
                k += 1;
            }
            proof {
                assert forall|i: int| 0 <= i < tok@.len() implies seg.skip(t as int)[i] != NEWLINE by {
                    assert(seg.skip(t as int)[i] == path@[b + t + i]);
                }
                assert(tpl@.skip(t as int).skip(tok@.len() as int) =~= tpl@.skip(t + tok@.len()));
                assert(seg.skip(t as int).skip(tok@.len() as int) =~= seg.skip(t + tok@.len()));
            }
            t += n;
        } else {
            proof {
                if tok@.len() > 0 {
                    if t + tok@.len() <= tpl@.len() {
                        lemma_matches_at_shift(tpl@, tok@, t as int, 0);
                    }
                    assert(!matches_at(tpl@.skip(t as int), tok@, 0));
                }
                assert(tpl@.skip(t as int)[0] == tpl@[t as int]);
                assert(seg.skip(t as int)[0] == path@[b + t]);
            }
            if path[b + t] != tpl[t] {
                proof {
                    assert(!tpl_matches(tpl@.skip(t as int), tok@, seg.skip(t as int), NEWLINE));
                }
                return false;
            }
            proof {
                assert(tpl@.skip(t as int).skip(1) =~= tpl@.skip(t + 1));
                assert(seg.skip(t as int).skip(1) =~= seg.skip(t + 1));
            }
            t += 1;
        }
    }
    proof {
        assert(tpl@.skip(t as int).len() == 0);
        assert(seg.skip(t as int).len() == 0);
    }
    true
}

/// Binds the placeholder for one matched path, or reports that the path
/// does not fit the derived capture pattern.
pub fn extract_capture(tpl: &[u8], tok: &[u8], path: &[u8]) -> (r: Option<Vec<u8>>)
    requires
        contains_seq(tpl@, tok@),
    ensures
        match r {
            Some(v) => spec_capture(tpl@, tok@, path@) == Some(v@),
            None => spec_capture(tpl@, tok@, path@) is None,
        },
{
    proof {
        if tok@.len() > 0 {
            lemma_first_occ(tpl@, tok@);
        }
    }
    if tpl.len() > path.len() {
        proof {
            lemma_search_short(tpl@, tok@, path@);
        }
        return None;
    }
    let bound = path.len() - tpl.len();
    proof {
        assert(path@.skip(0) =~= path@);
    }
    let mut b: usize = 0;
    loop
        invariant
            contains_seq(tpl@, tok@),
            tpl@.len() <= path@.len(),
            bound == path@.len() - tpl@.len(),
            0 <= b <= bound,
            match spec_search(tpl@, tok@, path@.skip(b as int)) {
                None => spec_search(tpl@, tok@, path@) is None,
                Some(x) => spec_search(tpl@, tok@, path@) == Some(b + x),
            },
        decreases bound - b,
    {
        proof {
            assert(path@.skip(b as int).take(tpl@.len() as int) =~= path@.subrange(
                b as int,
                b + tpl@.len(),
            ));
        }
        if tpl_match_here(tpl, tok, path, b) {
            proof {
                assert(spec_search(tpl@, tok@, path@.skip(b as int)) == Some(0int));
                assert(spec_search(tpl@, tok@, path@) == Some(b as int));
            }
            let fo = if tok.len() == 0 {
                proof {
                    crate::text::lemma_first_occ_empty(tpl@, tok@);
                }
                tpl.len()
            } else {
                proof {
                    lemma_first_occ(tpl@, tok@);
                }
                find_first(tpl, tok)
            };
            let pn = path.len();
            let ghost s0 = b + fo as int;
            let mut cap: Vec<u8> = Vec::new();
            proof {
                assert(cap@ =~= path@.subrange(s0, s0));
            }
            let mut k: usize = 0;
            while k < tok.len()
                invariant
                    0 <= k <= tok@.len(),
                    s0 == b + fo,
                    pn == path@.len(),
                    fo + tok@.len() <= tpl@.len(),
                    b + tpl@.len() <= path@.len(),
                    cap@ == path@.subrange(s0, s0 + k),
                decreases tok@.len() - k,
            {
                cap.push(path[b + fo + k]);
                proof {
                    assert(path@.subrange(s0, s0 + k).push(path@[s0 + k]) =~= path@.subrange(
                        s0,
                        s0 + k + 1,
                    ));
                }
                k += 1;
            }
            return Some(cap);
        }
        proof {
            assert(!tpl_matches(
                tpl@,
                tok@,
                path@.skip(b as int).take(tpl@.len() as int),
                NEWLINE,
            ));
            assert(path@.skip(b as int).len() > 0);
            assert(path@.skip(b as int).skip(1) =~= path@.skip(b + 1));
        }
        if b == bound {
            proof {
                lemma_search_short(tpl@, tok@, path@.skip(b + 1));
            }
            return None;
        }
        b += 1;
    }
}

/// Builds one job per matched path, in the given order: the job's target is
/// the target template with the placeholder replaced by the bound value.
/// Fails exactly when some path does not fit the derived capture pattern.
pub fn jobs_from_matches(
    source: &[u8],
    target: &[u8],
    token: &[u8],
    cfg: &Conversion,
    paths: &Vec<Vec<u8>>,
) -> (r: Result<Vec<Job>, PipelineError>)
    requires
        contains_seq(source@, token@),
        contains_seq(target@, token@),
    ensures
        (match r {
            Ok(_) => true,
            Err(_) => false,
        }) <==> (forall|i: int|
            0 <= i < paths@.len() ==> spec_capture(source@, token@, paths@[i]@) is Some),
        match r {
            Ok(jobs) => {
                &&& jobs@.len() == paths@.len()
                &&& forall|i: int|
                    0 <= i < jobs@.len() ==> {
                        &&& jobs@[i].source@ == paths@[i]@
                        &&& spec_capture(source@, token@, paths@[i]@) matches Some(cap)
                            && jobs@[i].target@ == spec_replace(target@, token@, cap)
                        &&& crate::job::conversion_eq(jobs@[i].config, *cfg)
                    }
            },
            Err(e) => e is PatternMatch,
        },
{
    let mut jobs: Vec<Job> = Vec::new();
    let mut i: usize = 0;
    while i < paths.len()
        invariant
            contains_seq(source@, token@),
            contains_seq(target@, token@),
            0 <= i <= paths@.len(),
            jobs@.len() == i,
            forall|j: int|
                0 <= j < i ==> {
                    &&& jobs@[j].source@ == paths@[j]@
                    &&& spec_capture(source@, token@, paths@[j]@) matches Some(cap)
                        && jobs@[j].target@ == spec_replace(target@, token@, cap)
                    &&& crate::job::conversion_eq(jobs@[j].config, *cfg)
                },
        decreases paths@.len() - i,
    {
        match extract_capture(source, token, paths[i].as_slice()) {
            None => {
                return Err(
                    PipelineError::PatternMatch { message: dup_bytes(paths[i].as_slice()) },
                );
            },
            Some(cap) => {
                let tname = replace_all(target, token, cap.as_slice());
                jobs.push(
                    Job {
                        source: dup_bytes(paths[i].as_slice()),
                        target: tname,
                        config: cfg.duplicate(),
                    },
                );
            },
        }
        i += 1;
    }
    Ok(jobs)
}

/// Expands one templated job description into the ordered list of concrete
/// jobs whose sources are the files on disk matching the derived glob,
/// sorted lexicographically by full path.
///
/// Rejects the description before any filesystem access when the
/// placeholder token is absent from either template; that rejection, and
/// only it, is a `Configuration` error. An empty token occurs in every
/// template: resolution then degenerates to a literal lookup of the source
/// template with the target template unchanged.
pub fn resolve_pattern(
    source: &[u8],
    target: &[u8],
    token: &[u8],
    cfg: &Conversion,
) -> (r: Result<Vec<Job>, PipelineError>)
    ensures
        match r {
            Ok(jobs) => {
                &&& contains_seq(source@, token@)
                &&& contains_seq(target@, token@)
                &&& forall|i: int, j: int|
                    0 <= i < j < jobs@.len() ==> lex_le(jobs@[i].source@, jobs@[j].source@)
                &&& forall|i: int|
                    0 <= i < jobs@.len() ==> {
                        &&& spec_capture(source@, token@, jobs@[i].source@) matches Some(cap)
                            && jobs@[i].target@ == spec_replace(target@, token@, cap)
                        &&& crate::job::conversion_eq(jobs@[i].config, *cfg)
                    }
            },
            Err(e) => e is Configuration <==> (!contains_seq(source@, token@)
                || !contains_seq(target@, token@)),
        },
{
    if !contains_sub(source, token) || !contains_sub(target, token) {
        return Err(PipelineError::Configuration { message: dup_bytes(source) });
    }
    let glob = derive_glob(source, token);
    let mut found = match crate::walk::walk_matched_files(glob.as_slice()) {
        Ok(paths) => paths,
        Err(m) => {
            return Err(PipelineError::Filesystem { message: m });
        },
    };
    sort_paths(&mut found);
    match jobs_from_matches(source, target, token, cfg, &found) {
        Ok(jobs) => {
            proof {
                assert forall|i: int, j: int|
                    0 <= i < j < jobs@.len() implies lex_le(jobs@[i].source@, jobs@[j].source@) by {
                    assert(jobs@[i].source@ == found@[i]@);
                    assert(jobs@[j].source@ == found@[j]@);
                    assert(lex_le(found@[i]@, found@[j]@));
                }
                assert forall|i: int| 0 <= i < jobs@.len() implies {
                    &&& spec_capture(source@, token@, jobs@[i].source@) matches Some(cap)
                        && jobs@[i].target@ == spec_replace(target@, token@, cap)
                    &&& crate::job::conversion_eq(jobs@[i].config, *cfg)
                } by {
                    assert(jobs@[i].source@ == found@[i]@);
                    assert(spec_capture(source@, token@, found@[i]@) matches Some(cap)
                        && jobs@[i].target@ == spec_replace(target@, token@, cap));
                }
            }
            Ok(jobs)
        },
        Err(e) => Err(e),
    }
}

} // verus!
