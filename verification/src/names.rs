//! The name-collision-avoidance policy.
//!
//! An empty candidate name is first replaced by the default label;
//! then, while the candidate collides with a name in the list, `(i)`
//! is appended with the smallest positive integer `i` that resolves
//! the collision.

use vstd::prelude::*;

use crate::strutil::lemma_dec_digits;
use crate::strutil::lemma_dec_injective;
use crate::strutil::spec_dec;
use crate::strutil::str_eq;
use crate::strutil::usize_to_string;

verus! {

/// The views of a list of names.
pub open spec fn view_of_names(names: Seq<String>) -> Seq<Seq<char>> {
    names.map_values(|n: String| n@)
}

/// Candidate `i` for base name `base`: the base itself for `i == 0`,
/// then `base(1)`, `base(2)`, and so on.
pub open spec fn cand(base: Seq<char>, i: nat) -> Seq<char> {
    if i == 0 {
        base
    } else {
        base + "("@ + spec_dec(i) + ")"@
    }
}

proof fn lemma_paren_lits()
    ensures
        "("@ =~= seq!['('],
        ")"@ =~= seq![')'],
{
    reveal_strlit("(");
    reveal_strlit(")");
}

/// Distinct candidate indices give distinct candidate names.
pub proof fn lemma_cand_injective(base: Seq<char>, i: nat, j: nat)
    requires
        cand(base, i) == cand(base, j),
    ensures
        i == j,
{
    lemma_paren_lits();
    if i == 0 && j == 0 {
    } else if i == 0 {
        lemma_dec_digits(j);
        assert(cand(base, j).len() > base.len());
    } else if j == 0 {
        lemma_dec_digits(i);
        assert(cand(base, i).len() > base.len());
    } else {
        lemma_dec_digits(i);
        lemma_dec_digits(j);
        let di = spec_dec(i);
        let dj = spec_dec(j);
        assert(cand(base, i).len() == base.len() + 1 + di.len() + 1);
        assert(cand(base, j).len() == base.len() + 1 + dj.len() + 1);
        assert(di =~= dj) by {
            assert forall|k: int| 0 <= k < di.len() implies di[k] == dj[k] by {
                assert(cand(base, i)[base.len() + 1 + k] == di[k]);
                assert(cand(base, j)[base.len() + 1 + k] == dj[k]);
            }
        };
        lemma_dec_injective(i, j);
    }
}

/// Among the candidates `1..=m` at least one is absent from any list
/// of fewer than `m` names.
pub proof fn lemma_exists_free(names: Seq<Seq<char>>, base: Seq<char>, m: nat)
    requires
        names.len() < m,
    ensures
        exists|i: nat| 1 <= i <= m && !names.contains(cand(base, i)),
    decreases names.len(),
{
    if !names.contains(cand(base, m)) {
        assert(names.len() < m);
        assert(1 <= m <= m && !names.contains(cand(base, m)));
    } else {
        let k = choose|k: int| 0 <= k < names.len() && names[k] == cand(base, m);
        let names2 = names.remove(k);
        names.remove_ensures(k);
        lemma_exists_free(names2, base, (m - 1) as nat);
        let i = choose|i: nat| 1 <= i <= m - 1 && !names2.contains(cand(base, i));
        assert(!names.contains(cand(base, i))) by {
            if names.contains(cand(base, i)) {
                let t = choose|t: int| 0 <= t < names.len() && names[t] == cand(base, i);
                if t == k {
                    lemma_cand_injective(base, i, m);
                } else if t < k {
                    assert(names2[t] == names[t]);
                    assert(names2.contains(cand(base, i)));
                } else {
                    assert(names2[t - 1] == names[t]);
                    assert(names2.contains(cand(base, i)));
                }
            }
        };
        assert(1 <= i <= m && !names.contains(cand(base, i)));
    }
}

/// The first free candidate at or after index `i`, searched for as long
/// as `fuel` lasts.
pub open spec fn spec_dedup_from(
    names: Seq<Seq<char>>,
    base: Seq<char>,
    i: nat,
    fuel: nat,
) -> Seq<char>
    decreases fuel,
{
    if fuel == 0 {
        cand(base, i)
    } else if !names.contains(cand(base, i)) {
        cand(base, i)
    } else {
        spec_dedup_from(names, base, i + 1, (fuel - 1) as nat)
    }
}

/// The deduplicated name for `base` against `names`: the first
/// candidate that does not collide. The fuel suffices because some
/// candidate among the first `names.len() + 2` is free.
pub open spec fn spec_dedup(names: Seq<Seq<char>>, base: Seq<char>) -> Seq<char> {
    spec_dedup_from(names, base, 0, names.len() + 2)
}

/// When all candidates in `[start, i)` collide and candidate `i` is
/// free, the search from `start` returns candidate `i`.
pub proof fn lemma_dedup_from_eq(
    names: Seq<Seq<char>>,
    base: Seq<char>,
    start: nat,
    i: nat,
    fuel: nat,
)
    requires
        start <= i,
        i < start + fuel,
        forall|j: nat| start <= j < i ==> names.contains(#[trigger] cand(base, j)),
        !names.contains(cand(base, i)),
    ensures
        spec_dedup_from(names, base, start, fuel) == cand(base, i),
    decreases i - start,
{
    if start < i {
        assert(names.contains(cand(base, start)));
        lemma_dedup_from_eq(names, base, start + 1, i, (fuel - 1) as nat);
    }
}

/// Below any free candidate index lies a smallest one.
proof fn lemma_smallest_free(names: Seq<Seq<char>>, base: Seq<char>, i0: nat)
    requires
        !names.contains(cand(base, i0)),
    ensures
        exists|i: nat|
            i <= i0 && !names.contains(#[trigger] cand(base, i)) && (forall|j: nat|
                j < i ==> names.contains(#[trigger] cand(base, j))),
    decreases i0,
{
    if forall|j: nat| j < i0 ==> names.contains(#[trigger] cand(base, j)) {
        assert(i0 <= i0 && !names.contains(cand(base, i0)) && (forall|j: nat|
            j < i0 ==> names.contains(#[trigger] cand(base, j))));
    } else {
        let j0 = choose|j: nat| j < i0 && !names.contains(#[trigger] cand(base, j));
        lemma_smallest_free(names, base, j0);
    }
}

/// The deduplicated name does not collide, and it is the smallest
/// candidate with that property.
pub proof fn lemma_dedup_props(names: Seq<Seq<char>>, base: Seq<char>)
    ensures
        !names.contains(spec_dedup(names, base)),
        exists|i: nat|
            spec_dedup(names, base) == cand(base, i) && i <= names.len() + 1 && (forall|j: nat|
                j < i ==> names.contains(#[trigger] cand(base, j))),
{
    lemma_exists_free(names, base, names.len() + 1);
    let i0 = choose|t: nat| 1 <= t <= names.len() + 1 && !names.contains(cand(base, t));
    lemma_smallest_free(names, base, i0);
    let i = choose|i: nat|
        i <= i0 && !names.contains(#[trigger] cand(base, i)) && (forall|j: nat|
            j < i ==> names.contains(#[trigger] cand(base, j)));
    lemma_dedup_from_eq(names, base, 0, i, names.len() + 2);
}

/// Deduplication is idempotent: a name the search has already produced
/// passes through the search unchanged.
pub proof fn lemma_dedup_idempotent(names: Seq<Seq<char>>, base: Seq<char>)
    ensures
        spec_dedup(names, spec_dedup(names, base)) == spec_dedup(names, base),
{
    lemma_dedup_props(names, base);
    let r = spec_dedup(names, base);
    assert(cand(r, 0) == r);
    lemma_dedup_from_eq(names, r, 0, 0, names.len() + 2);
}

/// The candidate the collision search works on: an empty proposal is
/// replaced by the default label first.
pub open spec fn spec_candidate(name: Seq<char>) -> Seq<char> {
    if name.len() == 0 {
        "New Entry"@
    } else {
        name
    }
}

/// The whole policy: substitute the default label for an empty
/// proposal, then find the first candidate that does not collide.
pub open spec fn spec_checked_name(names: Seq<Seq<char>>, name: Seq<char>) -> Seq<char> {
    spec_dedup(names, spec_candidate(name))
}

/// The search never yields an empty name for a non-empty candidate.
pub proof fn lemma_dedup_nonempty(names: Seq<Seq<char>>, base: Seq<char>)
    requires
        base.len() > 0,
    ensures
        spec_dedup(names, base).len() > 0,
{
    lemma_paren_lits();
    lemma_dedup_props(names, base);
    let i = choose|i: nat|
        spec_dedup(names, base) == cand(base, i) && i <= names.len() + 1 && (forall|j: nat|
            j < i ==> names.contains(#[trigger] cand(base, j)));
    if i > 0 {
        lemma_dec_digits(i);
    }
}

/// The policy never yields an empty name, and a name it has already
/// produced passes through it unchanged.
pub proof fn lemma_checked_name_idempotent(names: Seq<Seq<char>>, name: Seq<char>)
    ensures
        spec_checked_name(names, name).len() > 0,
        spec_checked_name(names, spec_checked_name(names, name)) == spec_checked_name(
            names,
            name,
        ),
{
    reveal_strlit("New Entry");
    lemma_dedup_nonempty(names, spec_candidate(name));
    lemma_dedup_idempotent(names, spec_candidate(name));
}

/// Whether one of `names` reads `s`.
pub fn names_contain(names: &Vec<String>, s: &str) -> (r: bool)
    ensures
        r == view_of_names(names@).contains(s@),
{
    let mut k: usize = 0;
    while k < names.len()
        invariant
            k <= names@.len(),
            forall|j: int| 0 <= j < k ==> view_of_names(names@)[j] != s@,
        decreases names@.len() - k,
    {
        if str_eq(names[k].as_str(), s) {
            proof {
                assert(view_of_names(names@)[k as int] == s@);
            }
            return true;
        }
        k = k + 1;
    }
    false
}

fn make_candidate(base: &str, i: usize) -> (r: String)
    ensures
        r@ == cand(base@, i as nat),
{
    if i == 0 {
        base.to_owned()
    } else {
        let digits = usize_to_string(i);
        let r = base.to_owned().concat("(").concat(digits.as_str()).concat(")");
        proof {
            assert(r@ =~= cand(base@, i as nat));
        }
        r
    }
}

/// The first of `base`, `base(1)`, `base(2)`, ... that does not occur
/// in `names`.
pub fn dedup_name(names: &Vec<String>, base: &str) -> (r: String)
    requires
        names@.len() < usize::MAX,
    ensures
        r@ == spec_dedup(view_of_names(names@), base@),
        !view_of_names(names@).contains(r@),
{
    let ghost nseq = view_of_names(names@);
    let mut i: usize = 0;
    loop
        invariant
            names@.len() < usize::MAX,
            nseq == view_of_names(names@),
            nseq.len() == names@.len(),
            i as nat <= nseq.len() + 1,
            forall|j: nat| j < i as nat ==> nseq.contains(#[trigger] cand(base@, j)),
        decreases nseq.len() + 1 - i,
    {
        let candidate = make_candidate(base, i);
        if !names_contain(names, candidate.as_str()) {
            proof {
                lemma_dedup_from_eq(nseq, base@, 0, i as nat, nseq.len() + 2);
            }
            return candidate;
        }
        proof {
            lemma_exists_free(nseq, base@, nseq.len() + 1);
            let i0 = choose|t: nat| 1 <= t <= nseq.len() + 1 && !nseq.contains(cand(base@, t));
            if i0 <= i as nat {
                assert(nseq.contains(cand(base@, i0)));
            }
            assert((i + 1) as nat <= nseq.len() + 1);
        }
        i = i + 1;
    }
}

} // verus!
