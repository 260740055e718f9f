use vstd::prelude::*;

verus! {

/// A filename matches a wildcard pattern when the pattern, with every `*`
/// expanded to some (possibly empty) run of characters and every other
/// character taken literally, equals the whole filename.
pub open spec fn wc_matches(f: Seq<char>, p: Seq<char>) -> bool
    decreases f.len() + p.len(),
{
    if p.len() == 0 {
        f.len() == 0
    } else if p[0] == '*' {
        wc_matches(f, p.skip(1)) || (f.len() > 0 && wc_matches(f.skip(1), p))
    } else {
        f.len() > 0 && f[0] == p[0] && wc_matches(f.skip(1), p.skip(1))
    }
}

/// The shortest number of characters a leading `*` can absorb from `f` so
/// that the rest of the pattern `q` still matches what remains; meaningful
/// only when such a number exists.
pub open spec fn min_star_len(f: Seq<char>, q: Seq<char>) -> nat
    decreases f.len(),
{
    if wc_matches(f, q) {
        0
    } else if f.len() == 0 {
        0
    } else {
        1 + min_star_len(f.skip(1), q)
    }
}

/// The substrings captured by each `*` of `p`, left to right, when every `*`
/// takes the shortest run it can (non-greedy); meaningful only when
/// `wc_matches(f, p)` holds.
pub open spec fn wc_captures(f: Seq<char>, p: Seq<char>) -> Seq<Seq<char>>
    decreases p.len(),
{
    if p.len() == 0 {
        Seq::<Seq<char>>::empty()
    } else if p[0] == '*' {
        let k = min_star_len(f, p.skip(1));
        seq![f.take(k as int)] + wc_captures(f.skip(k as int), p.skip(1))
    } else if f.len() > 0 {
        wc_captures(f.skip(1), p.skip(1))
    } else {
        Seq::<Seq<char>>::empty()
    }
}

/// How many `*` wildcards the pattern holds.
pub open spec fn star_count(p: Seq<char>) -> nat
    decreases p.len(),
{
    if p.len() == 0 {
        0
    } else {
        (if p[0] == '*' { 1nat } else { 0nat }) + star_count(p.skip(1))
    }
}

/// The pattern with each `*`, left to right, replaced by the corresponding
/// element of `parts`.
pub open spec fn fill_pattern(p: Seq<char>, parts: Seq<Seq<char>>) -> Seq<char>
    decreases p.len(),
{
    if p.len() == 0 {
        Seq::<char>::empty()
    } else if p[0] == '*' {
        (if parts.len() > 0 { parts[0] } else { Seq::<char>::empty() })
            + fill_pattern(p.skip(1), parts.skip(1))
    } else {
        seq![p[0]] + fill_pattern(p.skip(1), parts)
    }
}

/// The maximal run of literal (non-`*`) characters at the front of `q`.
pub open spec fn lit_run(q: Seq<char>) -> Seq<char>
    decreases q.len(),
{
    if q.len() == 0 || q[0] == '*' {
        Seq::<char>::empty()
    } else {
        seq![q[0]] + lit_run(q.skip(1))
    }
}

/// A part placed where a `*` stands does not collide with the literal run
/// `lit` that follows the `*`: `lit` occurs in `part + lit` only at the end.
/// With an empty `lit` (two adjacent wildcards) only an empty part fits.
pub open spec fn capture_fits(part: Seq<char>, lit: Seq<char>) -> bool {
    forall|j: int| 0 <= j < part.len() ==> #[trigger] (part + lit).subrange(j, j + lit.len())
        != lit
}

/// No part collides with the literal text that separates its `*` from the
/// next one; parts standing at a final `*` (no later wildcard) are free.
pub open spec fn no_collisions(p: Seq<char>, parts: Seq<Seq<char>>) -> bool
    decreases p.len(),
{
    if p.len() == 0 {
        true
    } else if p[0] == '*' {
        &&& (star_count(p.skip(1)) > 0 ==> parts.len() > 0 && capture_fits(
            parts[0],
            lit_run(p.skip(1)),
        ))
        &&& no_collisions(p.skip(1), parts.skip(1))
    } else {
        no_collisions(p.skip(1), parts)
    }
}

/// A pattern that starts with `*` matches exactly the strings of which some
/// suffix matches the rest of the pattern.
proof fn lemma_star_matches(f: Seq<char>, p: Seq<char>)
    requires
        p.len() > 0,
        p[0] == '*',
    ensures
        wc_matches(f, p) <==> exists|k: int|
            0 <= k <= f.len() && wc_matches(#[trigger] f.skip(k), p.skip(1)),
    decreases f.len(),
{
    if wc_matches(f, p) {
        if wc_matches(f, p.skip(1)) {
            assert(f.skip(0) =~= f);
            assert(wc_matches(f.skip(0), p.skip(1)));
        } else {
            lemma_star_matches(f.skip(1), p);
            let k = choose|k: int|
                0 <= k <= f.skip(1).len() && wc_matches(#[trigger] f.skip(1).skip(k), p.skip(1));
            assert(f.skip(1).skip(k) =~= f.skip(k + 1));
            assert(wc_matches(f.skip(k + 1), p.skip(1)));
        }
    }
    if exists|k: int| 0 <= k <= f.len() && wc_matches(#[trigger] f.skip(k), p.skip(1)) {
        let k = choose|k: int| 0 <= k <= f.len() && wc_matches(#[trigger] f.skip(k), p.skip(1));
        if k == 0 {
            assert(f.skip(0) =~= f);
        } else {
            assert(f.skip(1).skip(k - 1) =~= f.skip(k));
            lemma_star_matches(f.skip(1), p);
        }
    }
}

/// Where some star length works, `min_star_len` is the least one that works.
proof fn lemma_min_star_len_props(f: Seq<char>, q: Seq<char>)
    requires
        exists|k: int| 0 <= k <= f.len() && wc_matches(#[trigger] f.skip(k), q),
    ensures
        min_star_len(f, q) <= f.len(),
        wc_matches(f.skip(min_star_len(f, q) as int), q),
        forall|j: int| 0 <= j < min_star_len(f, q) ==> !wc_matches(#[trigger] f.skip(j), q),
    decreases f.len(),
{
    if wc_matches(f, q) {
        assert(f.skip(0) =~= f);
    } else {
        let k = choose|k: int| 0 <= k <= f.len() && wc_matches(#[trigger] f.skip(k), q);
        assert(f.skip(0) =~= f);
        assert(k > 0);
        assert(f.skip(1).skip(k - 1) =~= f.skip(k));
        lemma_min_star_len_props(f.skip(1), q);
        let m = min_star_len(f.skip(1), q);
        assert(f.skip(1).skip(m as int) =~= f.skip(m as int + 1));
        assert forall|j: int| 0 <= j < min_star_len(f, q) implies !wc_matches(
            #[trigger] f.skip(j),
            q,
        ) by {
            if j > 0 {
                assert(f.skip(1).skip(j - 1) =~= f.skip(j));
            }
        }
    }
}

/// A length that works, below which none works, is `min_star_len`.
proof fn lemma_min_star_len_is(f: Seq<char>, q: Seq<char>, k: int)
    requires
        0 <= k <= f.len(),
        wc_matches(f.skip(k), q),
        forall|j: int| 0 <= j < k ==> !wc_matches(#[trigger] f.skip(j), q),
    ensures
        min_star_len(f, q) == k,
{
    lemma_min_star_len_props(f, q);
    let m = min_star_len(f, q) as int;
    if m < k {
        assert(!wc_matches(f.skip(m), q));
    }
    if k < m {
        assert(!wc_matches(f.skip(k), q));
    }
}

/// Filling every `*` of a pattern with some string yields a filename that the
/// pattern matches.
pub proof fn lemma_fill_matches(p: Seq<char>, parts: Seq<Seq<char>>)
    requires
        star_count(p) == parts.len(),
    ensures
        wc_matches(fill_pattern(p, parts), p),
    decreases p.len(),
{
    if p.len() == 0 {
    } else if p[0] == '*' {
        let f = fill_pattern(p, parts);
        lemma_fill_matches(p.skip(1), parts.skip(1));
        let rest = fill_pattern(p.skip(1), parts.skip(1));
        assert(f =~= parts[0] + rest);
        assert(f.skip(parts[0].len() as int) =~= rest);
        lemma_star_matches(f, p);
    } else {
        let f = fill_pattern(p, parts);
        lemma_fill_matches(p.skip(1), parts);
        assert(f.skip(1) =~= fill_pattern(p.skip(1), parts));
        assert(f[0] == p[0]);
    }
}

/// Whatever matches a pattern starts with the pattern's leading literal run.
proof fn lemma_matches_lit_prefix(s: Seq<char>, q: Seq<char>)
    requires
        wc_matches(s, q),
    ensures
        lit_run(q).len() <= s.len(),
        s.take(lit_run(q).len() as int) == lit_run(q),
    decreases q.len(),
{
    if q.len() == 0 || q[0] == '*' {
        assert(s.take(0) =~= lit_run(q));
    } else {
        lemma_matches_lit_prefix(s.skip(1), q.skip(1));
        let l = lit_run(q.skip(1)).len() as int;
        assert(s.take(l + 1) =~= seq![s[0]] + s.skip(1).take(l));
        assert(s.take(lit_run(q).len() as int) =~= lit_run(q));
    }
}

/// A pattern without wildcards matches only itself.
proof fn lemma_all_literal_matches(s: Seq<char>, q: Seq<char>)
    requires
        star_count(q) == 0,
        wc_matches(s, q),
    ensures
        s == q,
    decreases q.len(),
{
    if q.len() == 0 {
        assert(s =~= q);
    } else {
        lemma_all_literal_matches(s.skip(1), q.skip(1));
        assert(s =~= seq![s[0]] + s.skip(1));
        assert(s =~= q);
    }
}

/// Filling a pattern without wildcards gives the pattern back.
proof fn lemma_fill_no_star(q: Seq<char>, parts: Seq<Seq<char>>)
    requires
        star_count(q) == 0,
    ensures
        fill_pattern(q, parts) == q,
    decreases q.len(),
{
    if q.len() == 0 {
        assert(fill_pattern(q, parts) =~= q);
    } else {
        lemma_fill_no_star(q.skip(1), parts);
        assert(fill_pattern(q, parts) =~= q);
    }
}

/// The leading literal run is no longer than the pattern itself.
proof fn lemma_lit_run_len(q: Seq<char>)
    ensures
        lit_run(q).len() <= q.len(),
    decreases q.len(),
{
    if q.len() == 0 || q[0] == '*' {
    } else {
        lemma_lit_run_len(q.skip(1));
    }
}

/// A leading literal run passes through `fill_pattern` unchanged.
proof fn lemma_fill_lit_prefix(q: Seq<char>, parts: Seq<Seq<char>>)
    ensures
        fill_pattern(q, parts) == lit_run(q) + fill_pattern(
            q.skip(lit_run(q).len() as int),
            parts,
        ),
    decreases q.len(),
{
    if q.len() == 0 || q[0] == '*' {
        assert(q.skip(0) =~= q);
        assert(fill_pattern(q, parts) =~= lit_run(q) + fill_pattern(
            q.skip(lit_run(q).len() as int),
            parts,
        ));
    } else {
        lemma_fill_lit_prefix(q.skip(1), parts);
        lemma_lit_run_len(q.skip(1));
        let l = lit_run(q.skip(1)).len() as int;
        assert(q.skip(1).skip(l) =~= q.skip(1 + l));
        assert(fill_pattern(q, parts) =~= lit_run(q) + fill_pattern(
            q.skip(lit_run(q).len() as int),
            parts,
        ));
    }
}

/// Round trip: replacing every `*` of a pattern with a chosen part and then
/// extracting the captures non-greedily gives the chosen parts back, as long
/// as no part collides with the literal text that separates its `*` from the
/// next wildcard.
pub proof fn lemma_extract_round_trip(p: Seq<char>, parts: Seq<Seq<char>>)
    requires
        star_count(p) == parts.len(),
        no_collisions(p, parts),
    ensures
        wc_matches(fill_pattern(p, parts), p),
        wc_captures(fill_pattern(p, parts), p) == parts,
    decreases p.len(),
{
    lemma_fill_matches(p, parts);
    let f = fill_pattern(p, parts);
    if p.len() == 0 {
        assert(wc_captures(f, p) =~= parts);
    } else if p[0] == '*' {
        let q = p.skip(1);
        let rest = fill_pattern(q, parts.skip(1));
        let k = parts[0].len() as int;
        assert(f =~= parts[0] + rest);
        assert(f.skip(k) =~= rest);
        lemma_fill_matches(q, parts.skip(1));
        assert(wc_matches(f.skip(k), q));
        assert forall|j: int| 0 <= j < k implies !wc_matches(#[trigger] f.skip(j), q) by {
            if wc_matches(f.skip(j), q) {
                if star_count(q) == 0 {
                    lemma_all_literal_matches(f.skip(j), q);
                    assert(f.skip(j).len() == q.len());
                    lemma_fill_no_star(q, parts.skip(1));
                } else {
                    let lit = lit_run(q);
                    lemma_matches_lit_prefix(f.skip(j), q);
                    lemma_fill_lit_prefix(q, parts.skip(1));
                    assert(rest =~= lit + fill_pattern(q.skip(lit.len() as int), parts.skip(1)));
                    assert((parts[0] + lit).subrange(j, j + lit.len()) =~= f.skip(j).take(
                        lit.len() as int,
                    ));
                    assert(capture_fits(parts[0], lit));
                }
            }
        }
        lemma_min_star_len_is(f, q, k);
        assert(f.take(k) =~= parts[0]);
        lemma_extract_round_trip(q, parts.skip(1));
        assert(wc_captures(f, p) =~= seq![parts[0]] + parts.skip(1));
        assert(seq![parts[0]] + parts.skip(1) =~= parts);
    } else {
        lemma_extract_round_trip(p.skip(1), parts);
        assert(f =~= seq![p[0]] + fill_pattern(p.skip(1), parts));
        assert(f.skip(1) =~= fill_pattern(p.skip(1), parts));
        assert(f.len() > 0 && f[0] == p[0]);
        assert(wc_captures(f, p) == parts);
    }
}

fn match_at(f: &str, fi: usize, flen: usize, p: &str, pi: usize, plen: usize) -> (b: bool)
    requires
        flen == f@.len(),
        plen == p@.len(),
        fi <= flen,
        pi <= plen,
    ensures
        b == wc_matches(f@.skip(fi as int), p@.skip(pi as int)),
    decreases flen - fi + plen - pi,
{
    proof {
        assert(f@.skip(fi as int).len() == flen - fi);
        assert(p@.skip(pi as int).len() == plen - pi);
    }
    if pi == plen {
        fi == flen
    } else {
        let pc = p.get_char(pi);
        proof {
            assert(p@.skip(pi as int)[0] == pc);
            assert(p@.skip(pi as int).skip(1) =~= p@.skip(pi as int + 1));
        }
        if pc == '*' {
            if match_at(f, fi, flen, p, pi + 1, plen) {
                true
            } else if fi < flen {
                proof {
                    assert(f@.skip(fi as int).skip(1) =~= f@.skip(fi as int + 1));
                }
                match_at(f, fi + 1, flen, p, pi, plen)
            } else {
                false
            }
        } else {
            if fi < flen {
                let fc = f.get_char(fi);
                proof {
                    assert(f@.skip(fi as int)[0] == fc);
                    assert(f@.skip(fi as int).skip(1) =~= f@.skip(fi as int + 1));
                }
                if fc == pc {
                    match_at(f, fi + 1, flen, p, pi + 1, plen)
                } else {
                    false
                }
            } else {
                false
            }
        }
    }
}

/// Does the whole filename match the wildcard pattern, with every `*`
/// standing for any (possibly empty) run of characters and every other
/// character matched literally?
pub fn wildcard_match(filename: &str, pattern: &str) -> (b: bool)
    ensures
        b == wc_matches(filename@, pattern@),
{
    let flen = filename.unicode_len();
    let plen = pattern.unicode_len();
    proof {
        assert(filename@.skip(0) =~= filename@);
        assert(pattern@.skip(0) =~= pattern@);
    }
    match_at(filename, 0, flen, pattern, 0, plen)
}

fn extract_at(f: &str, fi: usize, flen: usize, p: &str, pi: usize, plen: usize) -> (r: Vec<String>)
    requires
        flen == f@.len(),
        plen == p@.len(),
        fi <= flen,
        pi <= plen,
        wc_matches(f@.skip(fi as int), p@.skip(pi as int)),
    ensures
        r.deep_view() == wc_captures(f@.skip(fi as int), p@.skip(pi as int)),
    decreases plen - pi,
{
    let ghost fs = f@.skip(fi as int);
    let ghost ps = p@.skip(pi as int);
    proof {
        assert(fs.len() == flen - fi);
        assert(ps.len() == plen - pi);
    }
    if pi == plen {
        let r: Vec<String> = Vec::new();
        proof {
            assert(r.deep_view() =~= wc_captures(fs, ps));
        }
        r
    } else {
        let pc = p.get_char(pi);
        proof {
            assert(ps[0] == pc);
            assert(ps.skip(1) =~= p@.skip(pi as int + 1));
        }
        if pc == '*' {
            proof {
                lemma_star_matches(fs, ps);
            }
            let mut k: usize = 0;
            while !match_at(f, fi + k, flen, p, pi + 1, plen)
                invariant
                    flen == f@.len(),
                    plen == p@.len(),
                    fi + k <= flen,
                    pi < plen,
                    fs == f@.skip(fi as int),
                    exists|j: int|
                        k <= j <= flen - fi && wc_matches(
                            #[trigger] fs.skip(j),
                            p@.skip(pi as int + 1),
                        ),
                    forall|j: int|
                        0 <= j < k ==> !wc_matches(#[trigger] fs.skip(j), p@.skip(pi as int + 1)),
                decreases flen - fi - k,
            {
                proof {
                    assert(fs.skip(k as int) =~= f@.skip(fi as int + k as int));
                    let j = choose|j: int|
                        k <= j <= flen - fi && wc_matches(
                            #[trigger] fs.skip(j),
                            p@.skip(pi as int + 1),
                        );
                    assert(j > k);
                }
                k = k + 1;
            }
            proof {
                assert(fs.skip(k as int) =~= f@.skip(fi as int + k as int));
                lemma_min_star_len_is(fs, ps.skip(1), k as int);
            }
            let cap = f.substring_char(fi, fi + k);
            let mut r: Vec<String> = Vec::new();
            r.push(String::from_str(cap));
            let mut rest = extract_at(f, fi + k, flen, p, pi + 1, plen);
            proof {
                assert(cap@ =~= fs.take(k as int));
            }
            r.append(&mut rest);
            proof {
                assert(r.deep_view() =~~= wc_captures(fs, ps));
            }
            r
        } else {
            proof {
                assert(fs.skip(1) =~= f@.skip(fi as int + 1));
            }
            let r = extract_at(f, fi + 1, flen, p, pi + 1, plen);
            proof {
                assert(r.deep_view() =~~= wc_captures(fs, ps));
            }
            r
        }
    }
}

/// The substring each `*` of the pattern captured from the filename, left to
/// right and non-greedy (each `*` takes the shortest run it can); an empty
/// list when the filename does not match the pattern.
pub fn wildcard_extract(filename: &str, pattern: &str) -> (r: Vec<String>)
    ensures
        wc_matches(filename@, pattern@) ==> r.deep_view() == wc_captures(filename@, pattern@)
            && r@.len() == star_count(pattern@),
        !wc_matches(filename@, pattern@) ==> r@.len() == 0,
{
    if wildcard_match(filename, pattern) {
        proof {
            lemma_captures_count(filename@, pattern@);
        }
        let flen = filename.unicode_len();
        let plen = pattern.unicode_len();
        proof {
            assert(filename@.skip(0) =~= filename@);
            assert(pattern@.skip(0) =~= pattern@);
        }
        extract_at(filename, 0, flen, pattern, 0, plen)
    } else {
        Vec::new()
    }
}

/// A matched filename yields exactly one capture per `*` of the pattern.
pub proof fn lemma_captures_count(f: Seq<char>, p: Seq<char>)
    requires
        wc_matches(f, p),
    ensures
        wc_captures(f, p).len() == star_count(p),
    decreases p.len(),
{
    if p.len() == 0 {
    } else if p[0] == '*' {
        lemma_star_matches(f, p);
        lemma_min_star_len_props(f, p.skip(1));
        let k = min_star_len(f, p.skip(1)) as int;
        lemma_captures_count(f.skip(k), p.skip(1));
    } else {
        lemma_captures_count(f.skip(1), p.skip(1));
    }
}

} // verus!
