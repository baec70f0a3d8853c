//! Choosing the best experts and expert groups by their scores.
//!
//! Scores are ordered by integer keys: a larger key stands for a larger score.
use vstd::prelude::*;

verus! {

/// Whether routing is restricted to the best groups of experts.
pub open spec fn grouped_routing(n_experts: usize, n_group: usize, topk_group: usize) -> bool {
    n_group > 1 && topk_group < n_group && n_experts % n_group == 0
}

/// Whether routing is restricted to the best groups of experts.
pub fn uses_groups(n_experts: usize, n_group: usize, topk_group: usize) -> (r: bool)
    ensures
        r == grouped_routing(n_experts, n_group, topk_group),
{
    n_group > 1 && topk_group < n_group && n_experts % n_group == 0
}

/// The number of experts in a group.
pub fn group_size(n_experts: usize, n_group: usize, topk_group: usize) -> (size: usize)
    ensures
        size == if grouped_routing(n_experts, n_group, topk_group) {
            n_experts / n_group
        } else {
            n_experts
        },
{
    if uses_groups(n_experts, n_group, topk_group) {
        n_experts / n_group
    } else {
        n_experts
    }
}

/// The number of experts predicted for a token: twice as many as it uses.
pub fn prediction_count(n_experts_per_tok: usize, n_experts: usize) -> (count: usize)
    requires
        2 * n_experts_per_tok <= usize::MAX,
    ensures
        count == if 2 * n_experts_per_tok < n_experts {
            2 * n_experts_per_tok
        } else {
            n_experts as int
        },
{
    let twice: usize = n_experts_per_tok * 2;
    if twice < n_experts {
        twice
    } else {
        n_experts
    }
}

/// Whether `chosen` are the best `limit` of the candidates: all different, in descending order of
/// their keys, none worse than a candidate left out, and fewer than `limit` only where no
/// candidate is left out.
pub open spec fn best_of(
    chosen: Seq<usize>,
    keys: Seq<i64>,
    candidate: Seq<bool>,
    limit: int,
) -> bool {
    &&& chosen.len() <= limit
    &&& forall|a: int|
        0 <= a < chosen.len() ==> (#[trigger] chosen[a]) < keys.len()
            && candidate[chosen[a] as int]
    &&& forall|a: int, b: int|
        0 <= a < b < chosen.len() ==> #[trigger] chosen[a] != #[trigger] chosen[b]
            && keys[chosen[a] as int] >= keys[chosen[b] as int]
    &&& forall|i: int, a: int|
        0 <= i < keys.len() && candidate[i] && !chosen.contains(i as usize) && 0 <= a
            < chosen.len() ==> #[trigger] keys[i] <= keys[#[trigger] chosen[a] as int]
    &&& chosen.len() == limit || forall|i: int|
        #![trigger candidate[i]]
        0 <= i < keys.len() && candidate[i] ==> chosen.contains(i as usize)
}

fn best_available(keys: &Vec<i64>, available: &Vec<bool>) -> (best: Option<usize>)
    requires
        keys@.len() == available@.len(),
    ensures
        match best {
            Some(b) => b < keys@.len() && available@[b as int] && forall|i: int|
                0 <= i < keys@.len() && available@[i] ==> #[trigger] keys@[i] <= keys@[b as int],
            None => forall|i: int| 0 <= i < keys@.len() ==> !#[trigger] available@[i],
        },
{
    let mut best: Option<usize> = None;
    let mut i: usize = 0;
    while i < keys.len()
        invariant
            i <= keys@.len() == available@.len(),
            match best {
                Some(b) => b < i && available@[b as int] && forall|k: int|
                    0 <= k < i && available@[k] ==> #[trigger] keys@[k] <= keys@[b as int],
                None => forall|k: int| 0 <= k < i ==> !#[trigger] available@[k],
            },
        decreases keys.len() - i,
    {
        if available[i] {
            match best {
                Some(b) => {
                    if keys[i] > keys[b] {
                        best = Some(i);
                    }
                },
                None => {
                    best = Some(i);
                },
            }
        }
        i = i + 1;
    }
    best
}

/// The best `limit` of the candidates, in descending order of their keys. Of equal keys the one
/// with the lower index comes first.
pub fn choose_best(keys: &Vec<i64>, candidate: &Vec<bool>, limit: usize) -> (chosen: Vec<usize>)
    requires
        keys@.len() == candidate@.len(),
    ensures
        best_of(chosen@, keys@, candidate@, limit as int),
{
    let mut available: Vec<bool> = Vec::new();
    let mut i: usize = 0;
    while i < candidate.len()
        invariant
            i <= candidate@.len(),
            available@ == candidate@.take(i as int),
        decreases candidate.len() - i,
    {
        available.push(candidate[i]);
        i = i + 1;
        assert(available@ =~= candidate@.take(i as int));
    }
    assert(available@ =~= candidate@);
    let mut chosen: Vec<usize> = Vec::new();
    let mut exhausted = false;
    assert(keys@.len() == keys.len());
    while chosen.len() < limit && !exhausted
        invariant
            keys@.len() <= usize::MAX,
            keys@.len() == candidate@.len() == available@.len(),
            chosen@.len() <= limit,
            forall|a: int|
                0 <= a < chosen@.len() ==> (#[trigger] chosen@[a]) < keys@.len()
                    && candidate@[chosen@[a] as int] && !available@[chosen@[a] as int],
            forall|a: int, b: int|
                0 <= a < b < chosen@.len() ==> #[trigger] chosen@[a] != #[trigger] chosen@[b]
                    && keys@[chosen@[a] as int] >= keys@[chosen@[b] as int],
            forall|k: int|
                #![trigger available@[k]]
                0 <= k < keys@.len() ==> (available@[k] <==> candidate@[k] && !chosen@.contains(
                    k as usize,
                )),
            forall|k: int, a: int|
                0 <= k < keys@.len() && available@[k] && 0 <= a < chosen@.len()
                    ==> #[trigger] keys@[k] <= keys@[#[trigger] chosen@[a] as int],
            exhausted ==> forall|k: int| 0 <= k < keys@.len() ==> !#[trigger] available@[k],
        decreases limit - chosen.len(), if exhausted { 0int } else { 1int },
    {
        match best_available(keys, &available) {
            None => {
                exhausted = true;
            },
            Some(b) => {
                let ghost before = chosen@;
                let ghost was = available@;
                available.set(b, false);
                chosen.push(b);
                proof {
                    assert(chosen@[before.len() as int] == b);
                    assert forall|k: int|
                        #![trigger available@[k]]
                        0 <= k < keys@.len() implies (available@[k] <==> candidate@[k]
                        && !chosen@.contains(k as usize)) by {
                        assert(was[k] <==> candidate@[k] && !before.contains(k as usize));
                        if before.contains(k as usize) {
                            let x = choose|x: int|
                                0 <= x < before.len() && before[x] == k as usize;
                            assert(chosen@[x] == k as usize);
                        }
                        if chosen@.contains(k as usize) && k != b {
                            let x = choose|x: int|
                                0 <= x < chosen@.len() && chosen@[x] == k as usize;
                            assert(before[x] == k as usize);
                        }
                    }
                    assert forall|x: int, y: int| 0 <= x < y < chosen@.len() implies (
                    #[trigger] chosen@[x]) != (#[trigger] chosen@[y]) && keys@[chosen@[x] as int]
                        >= keys@[chosen@[y] as int] by {
                        assert(chosen@[x] == before[x]);
                        if y < before.len() {
                            assert(chosen@[y] == before[y]);
                        } else {
                            assert(!was[before[x] as int]);
                            assert(keys@[b as int] <= keys@[before[x] as int]);
                        }
                    }
                    assert forall|a: int| 0 <= a < chosen@.len() implies (#[trigger] chosen@[a])
                        < keys@.len() && candidate@[chosen@[a] as int] && !available@[chosen@[a] as int] by {
                        if a < before.len() {
                            assert(chosen@[a] == before[a]);
                        }
                    }
                    assert forall|k: int, a: int|
                        0 <= k < keys@.len() && available@[k] && 0 <= a
                            < chosen@.len() implies #[trigger] keys@[k]
                        <= keys@[#[trigger] chosen@[a] as int] by {
                        assert(was[k]);
                        if a < before.len() {
                            assert(chosen@[a] == before[a]);
                        }
                    }
                }
            },
        }
    }
    proof {
        assert forall|k: int, a: int|
            0 <= k < keys@.len() && candidate@[k] && !chosen@.contains(k as usize) && 0 <= a
                < chosen@.len() implies #[trigger] keys@[k] <= keys@[#[trigger] chosen@[a] as int] by {
            assert(available@[k]);
        }
        if exhausted {
            assert forall|k: int| #![trigger candidate@[k]] 0 <= k < keys@.len()
                && candidate@[k] implies chosen@.contains(k as usize) by {
                assert(!available@[k]);
            }
        }
    }
    chosen
}

/// `n` candidates.
pub open spec fn every(n: nat) -> Seq<bool> {
    Seq::new(n, |i: int| true)
}

/// Marks the best `topk_group` groups.
pub fn select_groups(group_keys: &Vec<i64>, topk_group: usize) -> (selected: Vec<bool>)
    requires
        topk_group <= group_keys@.len(),
    ensures
        selected@.len() == group_keys@.len(),
        exists|chosen: Seq<usize>|
            {
                &&& chosen.len() == topk_group
                &&& #[trigger] best_of(
                    chosen,
                    group_keys@,
                    every(group_keys@.len()),
                    topk_group as int,
                )
                &&& forall|g: int|
                    0 <= g < group_keys@.len() ==> #[trigger] selected@[g] == chosen.contains(
                        g as usize,
                    )
            },
{
    let mut all: Vec<bool> = Vec::new();
    let mut selected: Vec<bool> = Vec::new();
    while all.len() < group_keys.len()
        invariant
            all@.len() <= group_keys@.len(),
            all@ == Seq::new(all@.len(), |i: int| true),
            selected@ == Seq::new(all@.len(), |i: int| false),
        decreases group_keys.len() - all.len(),
    {
        all.push(true);
        selected.push(false);
        assert(all@ =~= Seq::new(all@.len(), |i: int| true));
        assert(selected@ =~= Seq::new(all@.len(), |i: int| false));
    }
    let chosen = choose_best(group_keys, &all, topk_group);
    assert(all@ =~= every(group_keys@.len()));
    proof {
        if chosen@.len() < topk_group {
            assert forall|v: usize| v < group_keys@.len() implies #[trigger] chosen@.contains(
                v,
            ) by {
                assert(all@[v as int]);
            }
            lemma_all_chosen(chosen@, group_keys@.len());
        }
    }
    let mut i: usize = 0;
    assert(group_keys@.len() == group_keys.len());
    while i < chosen.len()
        invariant
            group_keys@.len() <= usize::MAX,
            i <= chosen@.len(),
            selected@.len() == group_keys@.len(),
            forall|a: int|
                0 <= a < chosen@.len() ==> (#[trigger] chosen@[a]) < group_keys@.len(),
            forall|g: int|
                0 <= g < group_keys@.len() ==> #[trigger] selected@[g] == chosen@.take(
                    i as int,
                ).contains(g as usize),
        decreases chosen.len() - i,
    {
        let ghost was = selected@;
        let g0: usize = chosen[i];
        selected.set(g0, true);
        proof {
            assert forall|g: int| 0 <= g < group_keys@.len() implies #[trigger] selected@[g]
                == chosen@.take(i + 1).contains(g as usize) by {
                assert(was[g] == chosen@.take(i as int).contains(g as usize));
                let small = chosen@.take(i as int);
                let large = chosen@.take(i + 1);
                if small.contains(g as usize) {
                    let y = choose|y: int| 0 <= y < small.len() && small[y] == g as usize;
                    assert(large[y] == g as usize);
                }
                if large.contains(g as usize) && g != g0 {
                    let y = choose|y: int| 0 <= y < large.len() && large[y] == g as usize;
                    assert(small[y] == g as usize);
                }
                if g == g0 {
                    assert(chosen@.take(i + 1)[i as int] == g as usize);
                }
            }
        }
        i = i + 1;
    }
    assert(chosen@.take(i as int) =~= chosen@);
    assert(best_of(
        chosen@,
        group_keys@,
        every(group_keys@.len()),
        topk_group as int,
    ));
    selected
}

/// Different sizes below `n` that include every one of them are `n` in number.
proof fn lemma_all_chosen(chosen: Seq<usize>, n: nat)
    requires
        n <= usize::MAX,
        forall|v: usize| v < n ==> #[trigger] chosen.contains(v),
    ensures
        chosen.len() >= n,
{
    let ints = chosen.map(|i: int, v: usize| v as int);
    let target = vstd::set_lib::set_int_range(0, n as int);
    vstd::set_lib::lemma_int_range(0, n as int);
    ints.lemma_cardinality_of_set();
    vstd::seq_lib::seq_to_set_is_finite(ints);
    assert(target.subset_of(ints.to_set())) by {
        assert forall|x: int| target.contains(x) implies ints.to_set().contains(x) by {
            assert(chosen.contains(x as usize));
            let k = choose|k: int| 0 <= k < chosen.len() && chosen[k] == x as usize;
            assert(ints[k] == x);
        }
    }
    vstd::set_lib::lemma_len_subset(target, ints.to_set());
}

/// The predicted experts of a layer: the best `limit` of those in selected groups.
pub fn select_experts(
    keys: &Vec<i64>,
    selected_group: &Vec<bool>,
    group_size: usize,
    limit: usize,
) -> (chosen: Vec<usize>)
    requires
        group_size > 0 || keys@.len() == 0,
        keys@.len() <= selected_group@.len() * group_size,
    ensures
        best_of(
            chosen@,
            keys@,
            Seq::new(keys@.len(), |i: int| selected_group@[i / group_size as int]),
            limit as int,
        ),
{
    let mut candidate: Vec<bool> = Vec::new();
    let mut i: usize = 0;
    while i < keys.len()
        invariant
            i <= keys@.len(),
            group_size > 0 || keys@.len() == 0,
            keys@.len() <= selected_group@.len() * group_size,
            candidate@ == Seq::new(i as nat, |k: int| selected_group@[k / group_size as int]),
        decreases keys.len() - i,
    {
        proof {
            let g = (i as int) / (group_size as int);
            assert(0 <= g && g < selected_group@.len()) by (nonlinear_arith)
                requires
                    0 <= i < selected_group@.len() * group_size,
                    group_size > 0,
                    g == (i as int) / (group_size as int),
            ;
        }
        candidate.push(selected_group[i / group_size]);
        i = i + 1;
        assert(candidate@ =~= Seq::new(i as nat, |k: int| selected_group@[k / group_size as int]));
    }
    choose_best(keys, &candidate, limit)
}

} // verus!
