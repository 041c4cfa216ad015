//! Edit distance between names, for near-miss suggestions.

use vstd::prelude::*;
use vstd::string::StrSliceExecFns;

verus! {

broadcast use vstd::std_specs::vec::group_vec_axioms;

/// The smaller of two numbers.
pub open spec fn min2(a: nat, b: nat) -> nat {
    if a <= b {
        a
    } else {
        b
    }
}

/// The Levenshtein distance: how many single-character insertions, deletions
/// and substitutions turn one string into the other.
pub open spec fn spec_lev_distance(a: Seq<char>, b: Seq<char>) -> nat
    decreases a.len(), b.len(),
{
    if a.len() == 0 {
        b.len()
    } else if b.len() == 0 {
        a.len()
    } else if a.last() == b.last() {
        spec_lev_distance(a.drop_last(), b.drop_last())
    } else {
        1 + min2(
            min2(
                spec_lev_distance(a.drop_last(), b),
                spec_lev_distance(a, b.drop_last()),
            ),
            spec_lev_distance(a.drop_last(), b.drop_last()),
        )
    }
}

/// The distance never exceeds the longer length.
pub proof fn lemma_lev_distance_bound(a: Seq<char>, b: Seq<char>)
    ensures
        spec_lev_distance(a, b) <= min2(a.len(), b.len()) + (if a.len() >= b.len() {
            a.len() - b.len()
        } else {
            b.len() - a.len()
        }),
    decreases a.len(), b.len(),
{
    if a.len() == 0 || b.len() == 0 {
    } else {
        lemma_lev_distance_bound(a.drop_last(), b.drop_last());
        lemma_lev_distance_bound(a.drop_last(), b);
        lemma_lev_distance_bound(a, b.drop_last());
    }
}

/// The prefix of the first `k` characters.
pub open spec fn pre(s: Seq<char>, k: int) -> Seq<char> {
    s.subrange(0, k)
}

/// The Levenshtein distance between two strings, by one column of the
/// textbook dynamic programme at a time.
pub fn lev_distance(a: &str, b: &str) -> (r: usize)
    requires
        a@.len() < usize::MAX,
        b@.len() < usize::MAX,
    ensures
        r as nat == spec_lev_distance(a@, b@),
{
    let an: usize = a.unicode_len();
    let bn: usize = b.unicode_len();
    // cases which require no further computation
    if an == 0 {
        return bn;
    } else if bn == 0 {
        return an;
    }

    let mut dcol: Vec<usize> = Vec::new();
    let mut j: usize = 0;
    while j <= bn
        invariant
            bn < usize::MAX,
            j <= bn + 1,
            dcol@.len() == j,
            forall|k: int| 0 <= k < j ==> dcol@[k] == k,
        decreases bn + 1 - j,
    {
        dcol.push(j);
        j += 1;
    }
    proof {
        assert forall|k: int| 0 <= k <= bn implies dcol@[k] as nat == spec_lev_distance(
            pre(a@, 0),
            pre(b@, k),
        ) by {
            assert(pre(a@, 0).len() == 0);
            assert(pre(b@, k).len() == k);
        }
    }

    let mut i: usize = 0;
    while i < an
        invariant
            an == a@.len() && bn == b@.len(),
            an < usize::MAX && bn < usize::MAX,
            0 < an && 0 < bn,
            i <= an,
            dcol@.len() == bn + 1,
            forall|k: int|
                0 <= k <= bn ==> dcol@[k] as nat == spec_lev_distance(
                    pre(a@, i as int),
                    pre(b@, k),
                ),
        decreases an - i,
    {
        let sc = a.get_char(i);
        let mut current: usize = dcol[0];
        proof {
            assert(pre(b@, 0).len() == 0);
            assert(pre(a@, i as int).len() == i);
            assert(pre(a@, i + 1).len() == i + 1);
        }
        dcol.set(0, i + 1);

        let mut j: usize = 0;
        while j < bn
            invariant
                an == a@.len() && bn == b@.len(),
                an < usize::MAX && bn < usize::MAX,
                0 < an && 0 < bn,
                i < an,
                j <= bn,
                sc == a@[i as int],
                dcol@.len() == bn + 1,
                current as nat == spec_lev_distance(pre(a@, i as int), pre(b@, j as int)),
                forall|k: int|
                    0 <= k <= j ==> dcol@[k] as nat == spec_lev_distance(
                        pre(a@, i + 1),
                        pre(b@, k),
                    ),
                forall|k: int|
                    j < k <= bn ==> dcol@[k] as nat == spec_lev_distance(
                        pre(a@, i as int),
                        pre(b@, k),
                    ),
            decreases bn - j,
        {
            let tc = b.get_char(j);
            let next: usize = dcol[j + 1];
            proof {
                assert(pre(a@, i + 1).last() == a@[i as int]);
                assert(pre(b@, j + 1).last() == b@[j as int]);
                assert(pre(a@, i + 1).drop_last() =~= pre(a@, i as int));
                assert(pre(b@, j + 1).drop_last() =~= pre(b@, j as int));
                lemma_lev_distance_bound(pre(a@, i as int), pre(b@, j as int));
                lemma_lev_distance_bound(pre(a@, i + 1), pre(b@, j as int));
                lemma_lev_distance_bound(pre(a@, i as int), pre(b@, j + 1));
            }
            if sc == tc {
                dcol.set(j + 1, current);
            } else {
                let low = if current < next {
                    current
                } else {
                    next
                };
                let lower = if low < dcol[j] {
                    low
                } else {
                    dcol[j]
                };
                dcol.set(j + 1, lower + 1);
            }
            current = next;
            j += 1;
        }
        i += 1;
    }
    proof {
        assert(pre(a@, an as int) =~= a@);
        assert(pre(b@, bn as int) =~= b@);
    }
    dcol[bn]
}

/// The bound below which a suggestion is close enough: a given limit, or a
/// third of the length of the word being looked up, with a floor of one.
pub open spec fn spec_max_dist(lookup_len: nat, dist: Option<usize>) -> nat {
    match dist {
        Option::Some(d) => d as nat,
        Option::None => (if lookup_len >= 3 {
            lookup_len
        } else {
            3
        }) / 3,
    }
}

/// The best match for a given string among the names: the earliest name at
/// the least edit distance from `lookup`, among those within the allowed
/// distance; `None` when no name is close enough.
pub fn find_best_match_for_name(iter_names: &Vec<String>, lookup: &str, dist: Option<usize>) -> (r:
    Option<String>)
    requires
        lookup@.len() < usize::MAX,
        forall|i: int| 0 <= i < iter_names@.len() ==> #[trigger] iter_names@[i]@.len() < usize::MAX,
    ensures
        match r {
            Option::None => forall|i: int|
                0 <= i < iter_names@.len() ==> spec_lev_distance(lookup@, #[trigger] iter_names@[i]@)
                    > spec_max_dist(lookup.len() as nat, dist),
            Option::Some(s) => exists|i: int|
                {
                    &&& 0 <= i < iter_names@.len()
                    &&& s@ == iter_names@[i]@
                    &&& spec_lev_distance(lookup@, iter_names@[i]@) <= spec_max_dist(lookup.len() as nat, dist)
                    &&& (forall|k: int|
                        0 <= k < iter_names@.len() ==> spec_lev_distance(
                            lookup@,
                            #[trigger] iter_names@[k]@,
                        ) >= spec_lev_distance(lookup@, iter_names@[i]@))
                    &&& (forall|k: int|
                        0 <= k < i ==> spec_lev_distance(lookup@, #[trigger] iter_names@[k]@)
                            > spec_lev_distance(lookup@, iter_names@[i]@))
                },
        },
{
    let max_dist: usize = match dist {
        Option::Some(d) => d,
        Option::None => {
            let ln: usize = lookup.len();
            let base: usize = if ln >= 3 {
                ln
            } else {
                3
            };
            base / 3
        },
    };
    let n: usize = iter_names.len();
    let mut best: Option<(String, usize)> = Option::None;
    let ghost mut best_at: int = 0;
    let mut i: usize = 0;
    while i < n
        invariant
            n == iter_names@.len(),
            i <= n,
            lookup@.len() < usize::MAX,
            forall|k: int|
                0 <= k < iter_names@.len() ==> #[trigger] iter_names@[k]@.len() < usize::MAX,
            max_dist as nat == spec_max_dist(lookup.len() as nat, dist),
            match best {
                Option::None => forall|k: int|
                    0 <= k < i ==> spec_lev_distance(lookup@, #[trigger] iter_names@[k]@)
                        > max_dist as nat,
                Option::Some(p) => {
                    &&& 0 <= best_at < i
                    &&& p.0@ == iter_names@[best_at]@
                    &&& p.1 as nat == spec_lev_distance(lookup@, iter_names@[best_at]@)
                    &&& p.1 <= max_dist
                    &&& (forall|k: int|
                        0 <= k < i ==> spec_lev_distance(lookup@, #[trigger] iter_names@[k]@)
                            >= p.1 as nat)
                    &&& (forall|k: int|
                        0 <= k < best_at ==> spec_lev_distance(
                            lookup@,
                            #[trigger] iter_names@[k]@,
                        ) > p.1 as nat)
                },
            },
        decreases n - i,
    {
        let name: &String = &iter_names[i];
        let d = lev_distance(lookup, name.as_str());
        if d <= max_dist {
            let switch = match &best {
                Option::None => true,
                Option::Some(p) => d < p.1,
            };
            if switch {
                best = Option::Some((name.clone(), d));
                proof {
                    best_at = i as int;
                }
            }
        }
        i += 1;
    }
    match best {
        Option::Some(p) => Option::Some(p.0),
        Option::None => Option::None,
    }
}

/// The earliest pair with the least key among the given pairs, the key being
/// the second component; `None` when there are none. Only a strictly smaller
/// key displaces the selection, which keeps it stable.
pub fn min_by_key(it: Vec<(String, usize)>) -> (r: Option<(String, usize)>)
    ensures
        match r {
            Option::None => it@.len() == 0,
            Option::Some(p) => exists|i: int|
                {
                    &&& 0 <= i < it@.len()
                    &&& p == it@[i]
                    &&& (forall|k: int| 0 <= k < it@.len() ==> (#[trigger] it@[k]).1 >= p.1)
                    &&& (forall|k: int| 0 <= k < i ==> (#[trigger] it@[k]).1 > p.1)
                },
        },
{
    match select_fold1(it) {
        Option::Some((_, sel)) => Option::Some(sel),
        Option::None => Option::None,
    }
}

/// Selects an element by folding from the first one, switching only when the
/// projection becomes strictly smaller; returns the final projection with
/// the selection.
pub fn select_fold1(it: Vec<(String, usize)>) -> (r: Option<(usize, (String, usize))>)
    ensures
        match r {
            Option::None => it@.len() == 0,
            Option::Some(p) => exists|i: int|
                {
                    &&& 0 <= i < it@.len()
                    &&& p.1 == it@[i]
                    &&& p.0 == p.1.1
                    &&& (forall|k: int| 0 <= k < it@.len() ==> (#[trigger] it@[k]).1 >= p.0)
                    &&& (forall|k: int| 0 <= k < i ==> (#[trigger] it@[k]).1 > p.0)
                },
        },
{
    let mut it = it;
    let ghost it0 = it@;
    if it.len() == 0 {
        return Option::None;
    }
    // start with the first element as the selection, avoiding options inside
    // the loop
    let sel = it.remove(0);
    let mut sel_p: usize = sel.1;
    let mut sel = sel;
    let ghost mut sel_at: int = 0;
    let n: usize = it.len();
    let mut i: usize = 0;
    while i < n
        invariant
            it0.len() == n + 1,
            i <= n,
            it@ =~= it0.subrange(1, it0.len() as int),
            0 <= sel_at <= i,
            sel == it0[sel_at],
            sel_p == sel.1,
            forall|k: int| 0 <= k <= i ==> (#[trigger] it0[k]).1 >= sel_p,
            forall|k: int| 0 <= k < sel_at ==> (#[trigger] it0[k]).1 > sel_p,
        decreases n - i,
    {
        let x_p: usize = it[i].1;
        if sel_p > x_p {
            proof {
                assert(it@[i as int] == it0[i + 1]);
            }
            sel = (it[i].0.clone(), it[i].1);
            sel_p = x_p;
            proof {
                sel_at = i + 1;
            }
        }
        i += 1;
    }
    Option::Some((sel_p, sel))
}

} // verus!
