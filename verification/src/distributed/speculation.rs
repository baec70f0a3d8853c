//! Results that a worker computes ahead of the requests for them.
use crate::distributed::worker_shard::{ExpertSlots, WorkerExpertTensors};
use crate::values::copy_values;
use vstd::prelude::*;

verus! {

/// How many routed layers ahead are computed.
pub const SPEC_DEPTH: usize = 2;

/// The results of one layer that were computed ahead.
#[derive(Debug)]
pub struct SpeculationCache<T> {
    pub layer: usize,
    pub outputs: Vec<(usize, Vec<T>)>,
    pub push_expert_ids: Vec<usize>,
}

/// The index of the last output of an expert among the first `k`.
pub open spec fn last_output<T>(outputs: Seq<(usize, Vec<T>)>, id: usize, k: nat) -> Option<int>
    decreases k,
{
    if k == 0 {
        None
    } else if outputs[k - 1].0 == id {
        Some(k - 1)
    } else {
        last_output(outputs, id, (k - 1) as nat)
    }
}

impl<T: Copy> SpeculationCache<T> {
    /// The output of an expert, where it was computed.
    pub open spec fn output(&self, id: usize) -> Option<Seq<T>> {
        match last_output(self.outputs@, id, self.outputs@.len()) {
            Some(i) => Some(self.outputs@[i].1@),
            None => None,
        }
    }

    /// Whether the outputs of all the given experts were computed.
    pub open spec fn covers(&self, ids: Seq<usize>) -> bool {
        forall|i: int| 0 <= i < ids.len() ==> self.output(#[trigger] ids[i]) is Some
    }

    /// The outputs of the given experts, in their order.
    pub open spec fn outputs_of(&self, ids: Seq<usize>) -> Seq<Seq<T>> {
        Seq::new(ids.len(), |i: int| self.output(ids[i])->0)
    }

    fn find(&self, id: usize) -> (found: Option<usize>)
        ensures
            match found {
                Some(i) => i < self.outputs@.len() && last_output(
                    self.outputs@,
                    id,
                    self.outputs@.len(),
                ) == Some(i as int),
                None => last_output(self.outputs@, id, self.outputs@.len()) is None,
            },
    {
        let mut k: usize = self.outputs.len();
        while k > 0
            invariant
                k <= self.outputs@.len(),
                last_output(self.outputs@, id, self.outputs@.len()) == last_output(
                    self.outputs@,
                    id,
                    k as nat,
                ),
            decreases k,
        {
            if self.outputs[k - 1].0 == id {
                return Some(k - 1);
            }
            k = k - 1;
        }
        None
    }

    /// The outputs of the given experts in their order, where all of them were computed.
    pub fn select(&self, ids: &Vec<usize>) -> (result: Option<Vec<Vec<T>>>)
        ensures
            match result {
                Some(outputs) => self.covers(ids@) && deep(outputs@) == self.outputs_of(ids@),
                None => !self.covers(ids@),
            },
    {
        let mut outputs: Vec<Vec<T>> = Vec::new();
        let mut i: usize = 0;
        while i < ids.len()
            invariant
                i <= ids@.len(),
                outputs@.len() == i,
                forall|k: int| 0 <= k < i ==> self.output(#[trigger] ids@[k]) is Some,
                forall|k: int|
                    0 <= k < i ==> (#[trigger] outputs@[k])@ == self.output(ids@[k])->0,
            decreases ids.len() - i,
        {
            match self.find(ids[i]) {
                Some(at) => {
                    let copy = copy_values(&self.outputs[at].1);
                    outputs.push(copy);
                },
                None => {
                    assert(self.output(ids@[i as int]) is None);
                    return None;
                },
            }
            i = i + 1;
        }
        assert(deep(outputs@) =~= self.outputs_of(ids@));
        Some(outputs)
    }
}

/// The contents of vectors.
pub open spec fn deep<T>(outputs: Seq<Vec<T>>) -> Seq<Seq<T>> {
    outputs.map(|i: int, v: Vec<T>| v@)
}

/// Results computed ahead, one cache per layer.
pub struct CacheStore<T> {
    caches: Vec<SpeculationCache<T>>,
}

impl<T: Copy> CacheStore<T> {
    /// The caches in the order in which they were stored.
    pub closed spec fn stored(&self) -> Seq<SpeculationCache<T>> {
        self.caches@
    }

    /// No layer is stored twice.
    pub open spec fn wf(&self) -> bool {
        forall|i: int, j: int|
            0 <= i < j < self.stored().len() ==> (#[trigger] self.stored()[i]).layer != (
            #[trigger] self.stored()[j]).layer
    }

    /// Whether a layer is stored.
    pub open spec fn has(&self, layer: usize) -> bool {
        exists|i: int| 0 <= i < self.stored().len() && (#[trigger] self.stored()[i]).layer == layer
    }

    /// Whether the given cache is stored.
    pub open spec fn holds(&self, cache: SpeculationCache<T>) -> bool {
        self.stored().contains(cache)
    }

    /// An empty store.
    pub fn new() -> (store: CacheStore<T>)
        ensures
            store.wf(),
            store.stored().len() == 0,
    {
        CacheStore { caches: Vec::new() }
    }

    fn position(&self, layer: usize) -> (found: Option<usize>)
        ensures
            match found {
                Some(i) => i < self.stored().len() && self.stored()[i as int].layer == layer,
                None => !self.has(layer),
            },
    {
        let mut i: usize = 0;
        while i < self.caches.len()
            invariant
                i <= self.stored().len(),
                self.stored() == self.caches@,
                forall|k: int| 0 <= k < i ==> (#[trigger] self.stored()[k]).layer != layer,
            decreases self.caches.len() - i,
        {
            if self.caches[i].layer == layer {
                return Some(i);
            }
            i = i + 1;
        }
        None
    }

    /// Whether a layer is stored.
    pub fn contains(&self, layer: usize) -> (r: bool)
        ensures
            r == self.has(layer),
    {
        match self.position(layer) {
            Some(_) => true,
            None => false,
        }
    }

    /// Takes the cache of a layer out.
    pub fn take(&mut self, layer: usize) -> (found: Option<SpeculationCache<T>>)
        requires
            old(self).wf(),
        ensures
            final(self).wf(),
            match found {
                Some(cache) => cache.layer == layer && old(self).holds(cache),
                None => !old(self).has(layer),
            },
            !final(self).has(layer),
            forall|c: SpeculationCache<T>|
                c.layer != layer ==> (#[trigger] final(self).holds(c) <==> old(self).holds(c)),
            forall|l: usize|
                l != layer ==> (#[trigger] final(self).has(l) <==> old(self).has(l)),
    {
        let ghost before = self.caches@;
        match self.position(layer) {
            None => None,
            Some(at) => {
                let cache = self.caches.remove(at);
                proof {
                    let after = self.stored();
                    assert(after =~= before.remove(at as int));
                    assert forall|i: int, j: int| 0 <= i < j < after.len() implies (
                    #[trigger] after[i]).layer != (#[trigger] after[j]).layer by {
                        let a = if i < at {
                            i
                        } else {
                            i + 1
                        };
                        let b = if j < at {
                            j
                        } else {
                            j + 1
                        };
                        assert(before[a].layer != before[b].layer);
                    }
                    assert forall|i: int| 0 <= i < after.len() implies (#[trigger] after[i]).layer
                        != layer by {
                        let a = if i < at {
                            i
                        } else {
                            i + 1
                        };
                        if a < at {
                            assert(before[a].layer != before[at as int].layer);
                        } else {
                            assert(before[at as int].layer != before[a].layer);
                        }
                    }
                    assert forall|c: SpeculationCache<T>| c.layer != layer implies (
                    #[trigger] self.holds(c) <==> old(self).holds(c)) by {
                        if old(self).holds(c) {
                            let k = choose|k: int| 0 <= k < before.len() && before[k] == c;
                            let n = if k < at {
                                k
                            } else {
                                k - 1
                            };
                            assert(after[n] == c);
                        }
                        if self.holds(c) {
                            let k = choose|k: int| 0 <= k < after.len() && after[k] == c;
                            let n = if k < at {
                                k
                            } else {
                                k + 1
                            };
                            assert(before[n] == c);
                        }
                    }
                    assert forall|l: usize| l != layer implies (#[trigger] self.has(l) <==> old(
                        self
                    ).has(l)) by {
                        if old(self).has(l) {
                            let k = choose|k: int|
                                0 <= k < before.len() && (#[trigger] before[k]).layer == l;
                            let n = if k < at {
                                k
                            } else {
                                k - 1
                            };
                            assert(after[n].layer == l);
                        }
                        if self.has(l) {
                            let k = choose|k: int|
                                0 <= k < after.len() && (#[trigger] after[k]).layer == l;
                            let n = if k < at {
                                k
                            } else {
                                k + 1
                            };
                            assert(before[n].layer == l);
                        }
                    }
                    assert(before[at as int] == cache);
                }
                Some(cache)
            },
        }
    }

    /// Stores a cache in place of any other of its layer.
    pub fn put(&mut self, cache: SpeculationCache<T>)
        requires
            old(self).wf(),
        ensures
            final(self).wf(),
            final(self).holds(cache),
            final(self).has(cache.layer),
            forall|c: SpeculationCache<T>|
                c.layer != cache.layer ==> (#[trigger] final(self).holds(c) <==> old(self).holds(
                    c,
                )),
            forall|l: usize|
                l != cache.layer ==> (#[trigger] final(self).has(l) <==> old(self).has(l)),
    {
        let _ = self.take(cache.layer);
        let ghost mid = self.stored();
        let ghost middle = *self;
        self.caches.push(cache);
        proof {
            let after = self.stored();
            assert(after == mid.push(cache));
            assert forall|i: int, j: int| 0 <= i < j < after.len() implies (
            #[trigger] after[i]).layer != (#[trigger] after[j]).layer by {
                assert(after[i] == mid[i]);
                if j < mid.len() {
                    assert(after[j] == mid[j]);
                    assert(middle.stored()[i].layer != middle.stored()[j].layer);
                } else {
                    assert(middle.stored()[i].layer != cache.layer);
                }
            }
            assert(after[mid.len() as int] == cache);
            assert forall|c: SpeculationCache<T>| c.layer != cache.layer implies (
            #[trigger] self.holds(c) <==> old(self).holds(c)) by {
                assert(middle.holds(c) <==> old(self).holds(c));
                if middle.holds(c) {
                    let k = choose|k: int| 0 <= k < mid.len() && mid[k] == c;
                    assert(after[k] == c);
                }
                if self.holds(c) {
                    let k = choose|k: int| 0 <= k < after.len() && after[k] == c;
                    assert(mid[k] == c);
                }
            }
            assert forall|l: usize| l != cache.layer implies (#[trigger] self.has(l) <==> old(
                self
            ).has(l)) by {
                assert(middle.has(l) <==> old(self).has(l));
                if middle.has(l) {
                    let k = choose|k: int| 0 <= k < mid.len() && (#[trigger] mid[k]).layer == l;
                    assert(after[k].layer == l);
                }
                if self.has(l) {
                    let k = choose|k: int| 0 <= k < after.len() && (#[trigger] after[k]).layer == l;
                    assert(mid[k].layer == l);
                }
            }
        }
    }

    /// Keeps only the caches of the given layers.
    pub fn retain(&mut self, layers: &Vec<usize>)
        requires
            old(self).wf(),
        ensures
            final(self).wf(),
            forall|c: SpeculationCache<T>|
                #[trigger] final(self).holds(c) <==> old(self).holds(c) && layers@.contains(
                    c.layer,
                ),
            forall|l: usize|
                #[trigger] final(self).has(l) <==> old(self).has(l) && layers@.contains(l),
    {
        let mut i: usize = 0;
        while i < self.caches.len()
            invariant
                i <= self.caches@.len(),
                self.wf(),
                forall|k: int|
                    0 <= k < i ==> layers@.contains((#[trigger] self.stored()[k]).layer),
                forall|c: SpeculationCache<T>|
                    layers@.contains(c.layer) ==> (#[trigger] self.holds(c) <==> old(self).holds(
                        c,
                    )),
                forall|c: SpeculationCache<T>| #[trigger] self.holds(c) ==> old(self).holds(c),
            decreases self.caches.len() - i,
        {
            let layer: usize = self.caches[i].layer;
            if contains_size(layers, layer) {
                i = i + 1;
            } else {
                let ghost before = self.stored();
                let ghost earlier = *self;
                let _ = self.caches.remove(i);
                proof {
                    let after = self.stored();
                    assert(after =~= before.remove(i as int));
                    assert forall|a: int, b: int| 0 <= a < b < after.len() implies (
                    #[trigger] after[a]).layer != (#[trigger] after[b]).layer by {
                        let x = if a < i {
                            a
                        } else {
                            a + 1
                        };
                        let y = if b < i {
                            b
                        } else {
                            b + 1
                        };
                        assert(earlier.stored()[x].layer != earlier.stored()[y].layer);
                    }
                    assert forall|k: int| 0 <= k < i implies layers@.contains(
                        (#[trigger] self.stored()[k]).layer,
                    ) by {
                        assert(earlier.stored()[k] == self.stored()[k]);
                    }
                    assert forall|c: SpeculationCache<T>| layers@.contains(c.layer) implies (
                    #[trigger] self.holds(c) <==> old(self).holds(c)) by {
                        if earlier.holds(c) {
                            let k = choose|k: int| 0 <= k < before.len() && before[k] == c;
                            let n = if k < i {
                                k
                            } else {
                                k - 1
                            };
                            assert(after[n] == c);
                        }
                        if self.holds(c) {
                            let k = choose|k: int| 0 <= k < after.len() && after[k] == c;
                            let n = if k < i {
                                k
                            } else {
                                k + 1
                            };
                            assert(before[n] == c);
                        }
                        assert(earlier.holds(c) <==> old(self).holds(c));
                    }
                    assert forall|c: SpeculationCache<T>| #[trigger] self.holds(c) implies old(
                        self
                    ).holds(c) by {
                        let k = choose|k: int| 0 <= k < after.len() && after[k] == c;
                        let n = if k < i {
                            k
                        } else {
                            k + 1
                        };
                        assert(before[n] == c);
                        assert(earlier.holds(c));
                    }
                }
            }
        }
        proof {
            assert forall|c: SpeculationCache<T>| #[trigger] self.holds(c) implies old(
                self
            ).holds(c) && layers@.contains(c.layer) by {
                let k = choose|k: int| 0 <= k < self.stored().len() && self.stored()[k] == c;
                assert(layers@.contains(self.stored()[k].layer));
            }
            assert forall|l: usize| #[trigger] self.has(l) <==> old(self).has(l)
                && layers@.contains(l) by {
                if self.has(l) {
                    let k = choose|k: int|
                        0 <= k < self.stored().len() && (#[trigger] self.stored()[k]).layer == l;
                    let c = self.stored()[k];
                    assert(self.holds(c));
                    assert(old(self).holds(c));
                    let n = choose|n: int|
                        0 <= n < old(self).stored().len() && old(self).stored()[n] == c;
                    assert(old(self).stored()[n].layer == l);
                }
                if old(self).has(l) && layers@.contains(l) {
                    let k = choose|k: int|
                        0 <= k < old(self).stored().len() && (#[trigger] old(
                            self
                        ).stored()[k]).layer == l;
                    let c = old(self).stored()[k];
                    assert(old(self).holds(c));
                    assert(self.holds(c));
                    let n = choose|n: int| 0 <= n < self.stored().len() && self.stored()[n] == c;
                    assert(self.stored()[n].layer == l);
                }
            }
        }
    }
}

/// Whether a list holds a size.
pub fn contains_size(list: &Vec<usize>, value: usize) -> (r: bool)
    ensures
        r == list@.contains(value),
{
    let mut i: usize = 0;
    while i < list.len()
        invariant
            i <= list@.len(),
            forall|k: int| 0 <= k < i ==> #[trigger] list@[k] != value,
        decreases list.len() - i,
    {
        if list[i] == value {
            assert(list@[i as int] == value);
            return true;
        }
        i = i + 1;
    }
    false
}

/// The first routed layers after `completed`, as many as are computed ahead.
pub open spec fn window(moe_layers: Seq<usize>, completed: usize, k: nat) -> Seq<usize>
    decreases k,
{
    if k == 0 {
        Seq::empty()
    } else {
        let front = window(moe_layers, completed, (k - 1) as nat);
        if front.len() < SPEC_DEPTH && moe_layers[k - 1] > completed {
            front.push(moe_layers[k - 1])
        } else {
            front
        }
    }
}

/// The first routed layers after `completed`, as many as are computed ahead.
pub fn future_layers(moe_layers: &Vec<usize>, completed: usize) -> (layers: Vec<usize>)
    ensures
        layers@ == window(moe_layers@, completed, moe_layers@.len()),
        layers@.len() <= SPEC_DEPTH,
{
    let mut layers: Vec<usize> = Vec::new();
    let mut i: usize = 0;
    while i < moe_layers.len()
        invariant
            i <= moe_layers@.len(),
            layers@ == window(moe_layers@, completed, i as nat),
            layers@.len() <= SPEC_DEPTH,
        decreases moe_layers.len() - i,
    {
        if layers.len() < SPEC_DEPTH && moe_layers[i] > completed {
            layers.push(moe_layers[i]);
        }
        i = i + 1;
    }
    layers
}

/// The first routed layer after `completed`.
pub fn next_layer(moe_layers: &Vec<usize>, completed: usize) -> (layer: Option<usize>)
    ensures
        match layer {
            Some(l) => exists|i: int|
                0 <= i < moe_layers@.len() && #[trigger] moe_layers@[i] == l && l > completed
                    && forall|j: int| 0 <= j < i ==> #[trigger] moe_layers@[j] <= completed,
            None => forall|j: int|
                0 <= j < moe_layers@.len() ==> #[trigger] moe_layers@[j] <= completed,
        },
{
    let mut i: usize = 0;
    while i < moe_layers.len()
        invariant
            i <= moe_layers@.len(),
            forall|j: int| 0 <= j < i ==> #[trigger] moe_layers@[j] <= completed,
        decreases moe_layers.len() - i,
    {
        if moe_layers[i] > completed {
            assert(moe_layers@[i as int] > completed);
            return Some(moe_layers[i]);
        }
        i = i + 1;
    }
    None
}

/// The layers computed ahead come after the completed one.
pub proof fn window_is_ahead(moe_layers: Seq<usize>, completed: usize, k: nat)
    requires
        k <= moe_layers.len(),
    ensures
        window(moe_layers, completed, k).len() <= SPEC_DEPTH,
        forall|i: int|
            0 <= i < window(moe_layers, completed, k).len() ==> #[trigger] window(
                moe_layers,
                completed,
                k,
            )[i] > completed,
    decreases k,
{
    if k > 0 {
        window_is_ahead(moe_layers, completed, (k - 1) as nat);
        let front = window(moe_layers, completed, (k - 1) as nat);
        let all = window(moe_layers, completed, k);
        assert forall|i: int| 0 <= i < all.len() implies #[trigger] all[i] > completed by {
            if i < front.len() {
                assert(front[i] > completed);
            }
        }
    }
}

/// The experts to compute ahead for a layer and those to announce.
#[derive(Debug)]
pub struct SpeculationWork {
    pub layer: usize,
    pub experts: Vec<(usize, WorkerExpertTensors)>,
    pub push_expert_ids: Vec<usize>,
}

/// The experts of a list that a worker holds for a layer, among the first `k`.
pub open spec fn held(slots: ExpertSlots, layer: usize, ids: Seq<usize>, k: nat) -> Seq<usize>
    decreases k,
{
    if k == 0 {
        Seq::empty()
    } else {
        let front = held(slots, layer, ids, (k - 1) as nat);
        if slots.at(layer as int, ids[k - 1] as int) is Some {
            front.push(ids[k - 1])
        } else {
            front
        }
    }
}

/// The experts of a list that a worker holds for a layer, in their order.
pub fn held_experts(slots: &ExpertSlots, layer: usize, ids: &Vec<usize>, limit: usize) -> (out: Vec<
    usize,
>)
    requires
        slots.wf(),
    ensures
        out@ == held(
            *slots,
            layer,
            ids@,
            if limit < ids@.len() {
                limit as nat
            } else {
                ids@.len()
            },
        ),
{
    let end: usize = if limit < ids.len() { limit } else { ids.len() };
    let mut out: Vec<usize> = Vec::new();
    let mut i: usize = 0;
    while i < end
        invariant
            i <= end <= ids@.len(),
            slots.wf(),
            out@ == held(*slots, layer, ids@, i as nat),
        decreases end - i,
    {
        if slots.get(layer, ids[i]).is_some() {
            out.push(ids[i]);
        }
        i = i + 1;
    }
    out
}

/// Whether `experts` are the given ids with their matrices.
pub open spec fn with_tensors(
    experts: Seq<(usize, WorkerExpertTensors)>,
    slots: ExpertSlots,
    layer: usize,
    ids: Seq<usize>,
) -> bool {
    &&& experts.len() == ids.len()
    &&& forall|i: int|
        0 <= i < ids.len() ==> (#[trigger] experts[i]).0 == ids[i] && slots.at(
            layer as int,
            ids[i] as int,
        ) == Some(experts[i].1)
}

/// What is computed ahead for a layer given the predicted experts: those that the worker holds,
/// announcing the ones among the first `n_experts_per_tok` predictions; nothing where it holds
/// none.
pub fn plan_work(
    slots: &ExpertSlots,
    layer: usize,
    predicted: &Vec<usize>,
    n_experts_per_tok: usize,
) -> (work: Option<SpeculationWork>)
    requires
        slots.wf(),
    ensures
        ({
            let ids = held(*slots, layer, predicted@, predicted@.len());
            match work {
                Some(w) => {
                    &&& ids.len() > 0
                    &&& w.layer == layer
                    &&& with_tensors(w.experts@, *slots, layer, ids)
                    &&& w.push_expert_ids@ == held(
                        *slots,
                        layer,
                        predicted@,
                        if n_experts_per_tok < predicted@.len() {
                            n_experts_per_tok as nat
                        } else {
                            predicted@.len()
                        },
                    )
                },
                None => ids.len() == 0,
            }
        }),
{
    let mut experts: Vec<(usize, WorkerExpertTensors)> = Vec::new();
    let mut i: usize = 0;
    while i < predicted.len()
        invariant
            i <= predicted@.len(),
            slots.wf(),
            with_tensors(
                experts@,
                *slots,
                layer,
                held(*slots, layer, predicted@, i as nat),
            ),
        decreases predicted.len() - i,
    {
        let ghost before = held(*slots, layer, predicted@, i as nat);
        match slots.get(layer, predicted[i]) {
            Some(tensors) => {
                let ghost earlier = experts@;
                experts.push((predicted[i], tensors));
                proof {
                    let now = held(*slots, layer, predicted@, (i + 1) as nat);
                    assert forall|k: int| 0 <= k < now.len() implies (#[trigger] experts@[k]).0
                        == now[k] && slots.at(layer as int, now[k] as int) == Some(
                        experts@[k].1,
                    ) by {
                        if k < before.len() {
                            assert(earlier[k].0 == before[k]);
                        }
                    }
                }
            },
            None => {},
        }
        i = i + 1;
    }
    if experts.is_empty() {
        return None;
    }
    let push_expert_ids = held_experts(slots, layer, predicted, n_experts_per_tok);
    Some(SpeculationWork { layer, experts, push_expert_ids })
}

/// The output of an expert is the one that was computed last for it; an expert has none exactly
/// where nothing was computed for it.
pub proof fn the_latest_output_counts<T: Copy>(cache: SpeculationCache<T>, id: usize)
    ensures
        forall|i: int|
            0 <= i < cache.outputs@.len() && (#[trigger] cache.outputs@[i]).0 == id && (forall|j: int|
                i < j < cache.outputs@.len() ==> (#[trigger] cache.outputs@[j]).0 != id)
                ==> cache.output(id) == Some(cache.outputs@[i].1@),
        cache.output(id) is None <==> forall|j: int|
            0 <= j < cache.outputs@.len() ==> (#[trigger] cache.outputs@[j]).0 != id,
        cache.output(id) is Some ==> exists|i: int|
            0 <= i < cache.outputs@.len() && (#[trigger] cache.outputs@[i]).0 == id
                && cache.output(id) == Some(cache.outputs@[i].1@) && forall|j: int|
                i < j < cache.outputs@.len() ==> (#[trigger] cache.outputs@[j]).0 != id,
{
    lemma_last_output(cache.outputs@, id, cache.outputs@.len());
}

proof fn lemma_last_output<T>(outputs: Seq<(usize, Vec<T>)>, id: usize, k: nat)
    requires
        k <= outputs.len(),
    ensures
        match last_output(outputs, id, k) {
            Some(i) => 0 <= i < k && outputs[i].0 == id && forall|j: int|
                i < j < k ==> (#[trigger] outputs[j]).0 != id,
            None => forall|j: int| 0 <= j < k ==> (#[trigger] outputs[j]).0 != id,
        },
    decreases k,
{
    if k > 0 && outputs[k - 1].0 != id {
        lemma_last_output(outputs, id, (k - 1) as nat);
    }
}

/// Results that are handed out for experts are, one for one, those that were computed last for
/// them.
pub proof fn selected_outputs_are_the_latest<T: Copy>(
    cache: SpeculationCache<T>,
    ids: Seq<usize>,
    outputs: Seq<Vec<T>>,
    i: int,
)
    requires
        cache.covers(ids),
        deep(outputs) == cache.outputs_of(ids),
        0 <= i < ids.len(),
    ensures
        outputs.len() == ids.len(),
        exists|k: int|
            0 <= k < cache.outputs@.len() && (#[trigger] cache.outputs@[k]).0 == ids[i]
                && cache.outputs@[k].1@ == outputs[i]@ && forall|j: int|
                k < j < cache.outputs@.len() ==> (#[trigger] cache.outputs@[j]).0 != ids[i],
{
    assert(deep(outputs).len() == ids.len());
    assert(deep(outputs)[i] == outputs[i]@);
    assert(cache.output(ids[i]) is Some);
    the_latest_output_counts(cache, ids[i]);
}

/// Whether a layer comes after the completed one.
pub open spec fn later_than(completed: usize) -> spec_fn(usize) -> bool {
    |layer: usize| layer > completed
}

/// The layers computed ahead are the routed layers after the completed one in their order, cut off
/// after the second.
pub proof fn layers_ahead_are_the_next_ones(moe_layers: Seq<usize>, completed: usize)
    ensures
        ({
            let later = moe_layers.filter(later_than(completed));
            window(moe_layers, completed, moe_layers.len()) == if later.len() < 2 {
                later
            } else {
                later.take(2)
            }
        }),
{
    lemma_window(moe_layers, completed, moe_layers.len());
    assert(moe_layers.take(moe_layers.len() as int) =~= moe_layers);
}

proof fn lemma_window(moe_layers: Seq<usize>, completed: usize, k: nat)
    requires
        k <= moe_layers.len(),
    ensures
        ({
            let later = moe_layers.take(k as int).filter(later_than(completed));
            window(moe_layers, completed, k) == if later.len() < 2 {
                later
            } else {
                later.take(2)
            }
        }),
    decreases k,
{
    reveal(Seq::filter);
    if k > 0 {
        lemma_window(moe_layers, completed, (k - 1) as nat);
        let now = moe_layers.take(k as int);
        assert(now.drop_last() =~= moe_layers.take(k - 1));
        assert(now.last() == moe_layers[k - 1]);
        let front = now.drop_last().filter(later_than(completed));
        let later = now.filter(later_than(completed));
        if moe_layers[k - 1] > completed {
            assert(later == front.push(moe_layers[k - 1]));
            if front.len() >= 2 {
                assert(later.take(2) =~= front.take(2));
            } else if front.len() == 1 {
                assert(later.take(2) =~= later);
            }
        }
    }
}

/// Whether a worker holds an expert of a layer.
pub open spec fn held_by(slots: ExpertSlots, layer: usize) -> spec_fn(usize) -> bool {
    |id: usize| slots.at(layer as int, id as int) is Some
}

/// Of a list, exactly the experts that the worker holds are kept, in their order.
pub proof fn held_experts_keep_their_order(
    slots: ExpertSlots,
    layer: usize,
    ids: Seq<usize>,
    k: nat,
)
    requires
        k <= ids.len(),
    ensures
        held(slots, layer, ids, k) == ids.take(k as int).filter(held_by(slots, layer)),
    decreases k,
{
    reveal(Seq::filter);
    if k > 0 {
        held_experts_keep_their_order(slots, layer, ids, (k - 1) as nat);
        let now = ids.take(k as int);
        assert(now.drop_last() =~= ids.take(k - 1));
        assert(now.last() == ids[k - 1]);
    }
}

} // verus!
