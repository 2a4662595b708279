use vstd::prelude::*;

use crate::text::push_char;

verus! {

/// An ordered table of (placeholder token, replacement) pairs, consumed once
/// per target page.
pub type Inserts = Vec<(String, String)>;

pub open spec fn pairs_views(ps: Seq<(String, String)>) -> Seq<(Seq<char>, Seq<char>)> {
    Seq::new(ps.len(), |i: int| (ps[i].0@, ps[i].1@))
}

/// A non-empty pattern stands at position `i` of `s`.
pub open spec fn match_at(s: Seq<char>, i: int, pat: Seq<char>) -> bool {
    pat.len() > 0 && 0 <= i && i + pat.len() <= s.len() && s.subrange(i, i + pat.len()) == pat
}

/// The first table entry whose pattern stands at position `i`, if any.
pub open spec fn find_pair(
    pairs: Seq<(Seq<char>, Seq<char>)>,
    s: Seq<char>,
    i: int,
) -> Option<(Seq<char>, Seq<char>)>
    decreases pairs.len(),
{
    if pairs.len() == 0 {
        None
    } else if match_at(s, i, pairs[0].0) {
        Some(pairs[0])
    } else {
        find_pair(pairs.drop_first(), s, i)
    }
}

/// One left-to-right scan from position `i`: wherever the first matching
/// token stands, its replacement is emitted verbatim and the scan resumes
/// after the token; other characters pass through unchanged. Replacements
/// are never re-scanned.
pub open spec fn spec_substitute(
    pairs: Seq<(Seq<char>, Seq<char>)>,
    s: Seq<char>,
    i: int,
) -> Seq<char>
    decreases s.len() - i,
    when 0 <= i <= s.len()
    via spec_substitute_decreases
{
    if i >= s.len() {
        Seq::empty()
    } else {
        match find_pair(pairs, s, i) {
            Some(p) => p.1 + spec_substitute(pairs, s, i + p.0.len()),
            None => seq![s[i]] + spec_substitute(pairs, s, i + 1),
        }
    }
}

#[via_fn]
proof fn spec_substitute_decreases(pairs: Seq<(Seq<char>, Seq<char>)>, s: Seq<char>, i: int) {
    lemma_find_pair_match(pairs, s, i);
}

/// The entry that matched, when one did.
pub open spec fn found(pairs: Seq<(Seq<char>, Seq<char>)>, s: Seq<char>, i: int) -> (
    Seq<char>,
    Seq<char>,
) {
    match find_pair(pairs, s, i) {
        Some(p) => p,
        None => (Seq::empty(), Seq::empty()),
    }
}

proof fn lemma_find_pair_match(pairs: Seq<(Seq<char>, Seq<char>)>, s: Seq<char>, i: int)
    ensures
        find_pair(pairs, s, i) is Some ==> match_at(s, i, found(pairs, s, i).0),
    decreases pairs.len(),
{
    if pairs.len() > 0 && !match_at(s, i, pairs[0].0) {
        lemma_find_pair_match(pairs.drop_first(), s, i);
    }
}

/// Finds the first table entry whose pattern stands at position `i`.
fn find_match(pairs: &Vec<(String, String)>, input: &str, i: usize) -> (r: Option<usize>)
    requires
        i <= input@.len(),
    ensures
        match r {
            Some(k) => k < pairs@.len() && match_at(input@, i as int, pairs@[k as int].0@)
                && find_pair(pairs_views(pairs@), input@, i as int) == Some(
                (pairs@[k as int].0@, pairs@[k as int].1@),
            ),
            None => find_pair(pairs_views(pairs@), input@, i as int) is None,
        },
{
    let ghost pv = pairs_views(pairs@);
    let n = input.unicode_len();
    proof {
        assert(pv.skip(0) =~= pv);
    }
    let mut k: usize = 0;
    while k < pairs.len()
        invariant
            k <= pairs@.len(),
            i <= input@.len(),
            n == input@.len(),
            pv == pairs_views(pairs@),
            find_pair(pv, input@, i as int) == find_pair(
                pv.skip(k as int),
                input@,
                i as int,
            ),
        decreases pairs@.len() - k,
    {
        let pat = &pairs[k].0;
        let plen = pat.unicode_len();
        proof {
            assert(pv.skip(k as int)[0] == pv[k as int]);
            assert(pv.skip(k as int).drop_first() =~= pv.skip(k + 1 as int));
        }
        if plen > 0 && plen <= n - i {
            let mut j: usize = 0;
            let mut ok = true;
            while j < plen
                invariant
                    j <= plen,
                    plen == pat@.len(),
                    i + plen <= input@.len(),
                    n == input@.len(),
                    ok == (forall|h: int| 0 <= h < j ==> input@[i + h] == pat@[h]),
                decreases plen - j,
            {
                if input.get_char(i + j) != pat.get_char(j) {
                    ok = false;
                    proof {
                        assert(input@[i + j as int] != pat@[j as int]);
                    }
                }
                j += 1;
            }
            if ok {
                proof {
                    assert(input@.subrange(i as int, i + pat@.len()) =~= pat@);
                    assert(match_at(input@, i as int, pv[k as int].0));
                    assert(find_pair(pv.skip(k as int), input@, i as int) == Some(pv[k as int]));
                }
                return Some(k);
            }
            proof {
                let h = choose|h: int| 0 <= h < plen && input@[i + h] != pat@[h];
                assert(input@.subrange(i as int, i + pat@.len())[h] != pat@[h]);
                assert(!match_at(input@, i as int, pv[k as int].0));
            }
        } else {
            proof {
                assert(!match_at(input@, i as int, pv[k as int].0));
            }
        }
        k += 1;
    }
    proof {
        assert(pv.skip(pv.len() as int) =~= Seq::<(Seq<char>, Seq<char>)>::empty());
    }
    None
}

/// Replaces every occurrence of every token in one left-to-right scan.
/// Earlier table entries win where two tokens stand at one position, and a
/// replacement is never re-scanned.
pub fn substitute(pairs: &Vec<(String, String)>, input: &str) -> (r: String)
    ensures
        r@ == spec_substitute(pairs_views(pairs@), input@, 0),
{
    let ghost pv = pairs_views(pairs@);
    let n = input.unicode_len();
    let mut out = String::new();
    let mut i: usize = 0;
    while i < n
        invariant
            i <= n,
            n == input@.len(),
            pv == pairs_views(pairs@),
            spec_substitute(pv, input@, 0) == out@ + spec_substitute(pv, input@, i as int),
        decreases n - i,
    {
        match find_match(pairs, input, i) {
            Some(k) => {
                out.append(pairs[k].1.as_str());
                let plen = pairs[k].0.unicode_len();
                proof {
                    assert(spec_substitute(pv, input@, i as int) == pv[k as int].1
                        + spec_substitute(pv, input@, i + plen as int));
                }
                i += plen;
            },
            None => {
                let c = input.get_char(i);
                let ghost out0 = out@;
                push_char(&mut out, c);
                proof {
                    assert(out@ =~= out0 + seq![input@[i as int]]);
                    assert(spec_substitute(pv, input@, i as int) == seq![input@[i as int]]
                        + spec_substitute(pv, input@, i + 1 as int));
                }
                i += 1;
            },
        }
    }
    proof {
        assert(spec_substitute(pv, input@, n as int) =~= Seq::<char>::empty());
        assert(spec_substitute(pv, input@, 0) =~= out@);
    }
    out
}

/// A replacement is spliced in verbatim: once a token matches, the output
/// holds the replacement text unchanged, and the scan resumes strictly after
/// the token, so a replacement is never itself substituted.
pub proof fn lemma_replacement_not_rescanned(
    pairs: Seq<(Seq<char>, Seq<char>)>,
    s: Seq<char>,
    i: int,
)
    requires
        0 <= i < s.len(),
        find_pair(pairs, s, i) is Some,
    ensures
        spec_substitute(pairs, s, i) == found(pairs, s, i).1 + spec_substitute(
            pairs,
            s,
            i + found(pairs, s, i).0.len(),
        ),
{
    lemma_find_pair_match(pairs, s, i);
    let p = found(pairs, s, i);
    assert(find_pair(pairs, s, i) == Some(p));
    assert(match_at(s, i, p.0));
    assert(spec_substitute(pairs, s, i) == p.1 + spec_substitute(pairs, s, i + p.0.len()));
}

/// Text in which no token occurs passes through substitution unchanged; in
/// particular a page that merely equals some replacement value is left
/// exactly as it is.
pub proof fn lemma_substitute_identity(pairs: Seq<(Seq<char>, Seq<char>)>, s: Seq<char>, i: int)
    requires
        0 <= i <= s.len(),
        forall|j: int| i <= j < s.len() ==> find_pair(pairs, s, j) is None,
    ensures
        spec_substitute(pairs, s, i) == s.skip(i),
    decreases s.len() - i,
{
    if i >= s.len() {
        assert(s.skip(i) =~= Seq::<char>::empty());
    } else {
        lemma_substitute_identity(pairs, s, i + 1);
        assert(spec_substitute(pairs, s, i) =~= s.skip(i));
    }
}

/// The placeholder token that a named fragment is spliced in for.
pub open spec fn spec_insert_key(name: Seq<char>) -> Seq<char> {
    "<!--{{"@ + name + "}}-->"@
}

/// Builds the placeholder token of a named fragment.
pub fn insert_key(name: &str) -> (r: String)
    ensures
        r@ == spec_insert_key(name@),
{
    crate::text::cat3("<!--{{", name, "}}-->")
}

} // verus!
