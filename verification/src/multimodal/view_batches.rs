//! Views of one shape that go through the tower together.
use super::minicpmv::{grid_outcome, MiniCpmError, MiniCpmVVisionEncoder, MAX_BATCH_TOKENS};
use vstd::prelude::*;

verus! {

/// An image as far as the cutting into batches reads it.
#[derive(Debug)]
pub struct ViewShape {
    pub path: String,
    pub width: usize,
    pub height: usize,
}

/// Views that share a patch grid, by their places among all views.
#[derive(Debug)]
pub struct ViewBatch {
    pub across: usize,
    pub down: usize,
    pub members: Vec<usize>,
}

/// What a batch holds.
#[verifier::ext_equal]
pub struct BatchView {
    pub across: usize,
    pub down: usize,
    pub members: Seq<usize>,
}

impl View for ViewBatch {
    type V = BatchView;

    open spec fn view(&self) -> BatchView {
        BatchView { across: self.across, down: self.down, members: self.members@ }
    }
}

/// What batches hold.
pub open spec fn batch_views(batches: Seq<ViewBatch>) -> Seq<BatchView> {
    batches.map(|i: int, b: ViewBatch| b@)
}

/// The extents of a view.
pub open spec fn extents(view: ViewShape) -> (usize, usize) {
    (view.width, view.height)
}

/// Whether an earlier view has the same extents.
pub open spec fn seen_before(views: Seq<ViewShape>, k: int) -> bool {
    exists|j: int| 0 <= j < k && extents(#[trigger] views[j]) == extents(views[k])
}

/// The first view of each group among the first `k` views, in order.
pub open spec fn leaders(views: Seq<ViewShape>, k: nat) -> Seq<usize>
    decreases k,
{
    if k == 0 {
        Seq::empty()
    } else if seen_before(views, k - 1) {
        leaders(views, (k - 1) as nat)
    } else {
        leaders(views, (k - 1) as nat).push((k - 1) as usize)
    }
}

/// The views among the first `k` that have the given extents, in order.
pub open spec fn sharing(views: Seq<ViewShape>, wanted: (usize, usize), k: nat) -> Seq<usize>
    decreases k,
{
    if k == 0 {
        Seq::empty()
    } else if extents(views[k - 1]) == wanted {
        sharing(views, wanted, (k - 1) as nat).push((k - 1) as usize)
    } else {
        sharing(views, wanted, (k - 1) as nat)
    }
}

/// Members cut into batches of a size, the last one of the rest.
pub open spec fn cut(members: Seq<usize>, size: int, across: usize, down: usize) -> Seq<BatchView>
    decreases members.len(),
{
    if members.len() == 0 || size <= 0 {
        Seq::empty()
    } else if members.len() <= size {
        seq![BatchView { across, down, members }]
    } else {
        seq![BatchView { across, down, members: members.take(size) }] + cut(
            members.skip(size),
            size,
            across,
            down,
        )
    }
}

/// The number of views of a batch.
pub open spec fn batch_size(per_view: int) -> int {
    if MAX_BATCH_TOKENS as int / per_view > 1 {
        MAX_BATCH_TOKENS as int / per_view
    } else {
        1
    }
}

/// The text of an image with too many patches.
pub open spec fn no_patches_text(path: Seq<char>) -> Seq<char> {
    "image '"@ + path + "' produced an empty patch grid"@
}

/// The batches of one group, or the text of what is wrong with its first view.
pub open spec fn group_batches(patch_size: usize, views: Seq<ViewShape>, leader: int) -> Result<
    Seq<BatchView>,
    Seq<char>,
> {
    let view = views[leader];
    match grid_outcome(patch_size, view.width, view.height, view.path@) {
        Err(text) => Err(text),
        Ok((across, down)) => if across * down > usize::MAX {
            Err(no_patches_text(view.path@))
        } else {
            Ok(
                cut(
                    sharing(views, extents(view), views.len()),
                    batch_size(across * down),
                    across,
                    down,
                ),
            )
        },
    }
}

/// The batches of the groups of the first `k` leaders.
pub open spec fn batches_outcome(
    patch_size: usize,
    views: Seq<ViewShape>,
    heads: Seq<usize>,
    k: nat,
) -> Result<Seq<BatchView>, Seq<char>>
    decreases k,
{
    if k == 0 {
        Ok(Seq::empty())
    } else {
        match batches_outcome(patch_size, views, heads, (k - 1) as nat) {
            Err(text) => Err(text),
            Ok(before) => match group_batches(patch_size, views, heads[k - 1] as int) {
                Err(text) => Err(text),
                Ok(more) => Ok(before + more),
            },
        }
    }
}

proof fn lemma_first_bad_group(
    patch_size: usize,
    views: Seq<ViewShape>,
    heads: Seq<usize>,
    k: nat,
    n: nat,
)
    requires
        k <= n,
        batches_outcome(patch_size, views, heads, k) is Err,
    ensures
        batches_outcome(patch_size, views, heads, n) == batches_outcome(
            patch_size,
            views,
            heads,
            k,
        ),
    decreases n,
{
    if k < n {
        lemma_first_bad_group(patch_size, views, heads, k, (n - 1) as nat);
    }
}

fn same_extents(a: &ViewShape, b: &ViewShape) -> (same: bool)
    ensures
        same == (extents(*a) == extents(*b)),
{
    a.width == b.width && a.height == b.height
}

fn find_leaders(views: &[ViewShape]) -> (heads: Vec<usize>)
    ensures
        heads@ == leaders(views@, views@.len()),
        forall|i: int| 0 <= i < heads@.len() ==> #[trigger] heads@[i] < views@.len(),
{
    let mut heads: Vec<usize> = Vec::new();
    let mut k: usize = 0;
    while k < views.len()
        invariant
            k <= views@.len(),
            heads@ == leaders(views@, k as nat),
            forall|i: int| 0 <= i < heads@.len() ==> #[trigger] heads@[i] < k,
        decreases views.len() - k,
    {
        let mut seen = false;
        let mut j: usize = 0;
        while j < k
            invariant
                j <= k < views@.len(),
                seen <==> exists|i: int|
                    0 <= i < j && extents(#[trigger] views@[i]) == extents(views@[k as int]),
            decreases k - j,
        {
            if same_extents(&views[j], &views[k]) {
                assert(extents(views@[j as int]) == extents(views@[k as int]));
                seen = true;
            }
            j = j + 1;
        }
        if !seen {
            heads.push(k);
        }
        k = k + 1;
    }
    heads
}

fn find_sharing(views: &[ViewShape], leader: usize) -> (members: Vec<usize>)
    requires
        leader < views@.len(),
    ensures
        members@ == sharing(views@, extents(views@[leader as int]), views@.len()),
{
    let mut members: Vec<usize> = Vec::new();
    let mut k: usize = 0;
    while k < views.len()
        invariant
            leader < views@.len(),
            k <= views@.len(),
            members@ == sharing(views@, extents(views@[leader as int]), k as nat),
        decreases views.len() - k,
    {
        if same_extents(&views[k], &views[leader]) {
            members.push(k);
        }
        k = k + 1;
    }
    members
}

fn cut_members(
    members: &Vec<usize>,
    size: usize,
    across: usize,
    down: usize,
    out: &mut Vec<ViewBatch>,
)
    requires
        size > 0,
    ensures
        batch_views(final(out)@) == batch_views(old(out)@) + cut(
            members@,
            size as int,
            across,
            down,
        ),
{
    let mut start: usize = 0;
    assert(members@.skip(0) =~= members@);
    while start < members.len()
        invariant
            size > 0,
            start <= members@.len(),
            batch_views(old(out)@) + cut(members@, size as int, across, down) == batch_views(out@)
                + cut(members@.skip(start as int), size as int, across, down),
        decreases members.len() - start,
    {
        let ghost rest = members@.skip(start as int);
        let ghost before = batch_views(out@);
        let end: usize = if members.len() - start <= size {
            members.len()
        } else {
            start + size
        };
        let mut part: Vec<usize> = Vec::new();
        crate::values::append_range(&mut part, members.as_slice(), start, end);
        let batch = ViewBatch { across, down, members: part };
        let ghost held = batch@;
        out.push(batch);
        proof {
            assert(batch_views(out@) =~= before.push(held));
            assert(members@.skip(end as int) =~= rest.skip(end - start));
            if rest.len() <= size {
                assert(held.members =~= rest);
                assert(cut(rest, size as int, across, down) =~= seq![held]);
                assert(rest.skip(end - start) =~= Seq::empty());
                assert(before + seq![held] =~= before.push(held) + Seq::<BatchView>::empty());
            } else {
                assert(held.members =~= rest.take(size as int));
                let tail = cut(rest.skip(size as int), size as int, across, down);
                assert(before + (seq![held] + tail) =~= before.push(held) + tail);
            }
        }
        start = end;
    }
    assert(members@.skip(members@.len() as int) =~= Seq::empty());
    assert(cut(Seq::empty(), size as int, across, down) =~= Seq::empty());
    assert(batch_views(out@) + Seq::<BatchView>::empty() =~= batch_views(out@));
}

impl MiniCpmVVisionEncoder {
    /// The batches of views: views of one shape go together, groups in the order of their first
    /// view, and a batch holds no more tokens than the limit unless it is a single view.
    pub fn plan_view_batches(&self, views: &[ViewShape]) -> (result: Result<
        Vec<ViewBatch>,
        MiniCpmError,
    >)
        requires
            self.wf(),
        ensures
            ({
                let heads = leaders(views@, views@.len());
                let wanted = batches_outcome(self.config.patch_size, views@, heads, heads.len());
                match result {
                    Ok(batches) => wanted == Ok::<Seq<BatchView>, Seq<char>>(
                        batch_views(batches@),
                    ),
                    Err(error) => wanted == Err::<Seq<BatchView>, Seq<char>>(error.text()),
                }
            }),
    {
        let heads = find_leaders(views);
        let mut out: Vec<ViewBatch> = Vec::new();
        let mut k: usize = 0;
        assert(batch_views(out@) =~= Seq::empty());
        while k < heads.len()
            invariant
                self.wf(),
                k <= heads@.len(),
                forall|i: int| 0 <= i < heads@.len() ==> #[trigger] heads@[i] < views@.len(),
                batches_outcome(self.config.patch_size, views@, heads@, k as nat) == Ok::<
                    Seq<BatchView>,
                    Seq<char>,
                >(batch_views(out@)),
                heads@ == leaders(views@, views@.len()),
            decreases heads.len() - k,
        {
            let leader: usize = heads[k];
            let view = &views[leader];
            proof {
                if batches_outcome(self.config.patch_size, views@, heads@, (k + 1) as nat) is Err {
                    lemma_first_bad_group(
                        self.config.patch_size,
                        views@,
                        heads@,
                        (k + 1) as nat,
                        heads@.len(),
                    );
                }
            }
            let (across, down) = match self.patch_grid(
                view.width,
                view.height,
                view.path.as_str(),
            ) {
                Ok(grid) => grid,
                Err(error) => return Err(error),
            };
            let per_view: usize = match across.checked_mul(down) {
                Some(n) => n,
                None => return Err(MiniCpmError::NoPatches(view.path.clone())),
            };
            assert(per_view > 0) by (nonlinear_arith)
                requires
                    per_view == across * down,
                    across > 0,
                    down > 0,
            ;
            let fit: usize = MAX_BATCH_TOKENS / per_view;
            let size: usize = if fit > 1 {
                fit
            } else {
                1
            };
            let members = find_sharing(views, leader);
            cut_members(&members, size, across, down, &mut out);
            k = k + 1;
        }
        Ok(out)
    }
}

proof fn lemma_sharing(views: Seq<ViewShape>, wanted: (usize, usize), k: nat, i: int)
    requires
        k <= views.len(),
        views.len() <= usize::MAX,
    ensures
        sharing(views, wanted, k).contains(i as usize) <==> 0 <= (i as usize) < k && extents(
            views[i as usize as int],
        ) == wanted,
    decreases k,
{
    let v = i as usize;
    if k > 0 {
        lemma_sharing(views, wanted, (k - 1) as nat, i);
        let before = sharing(views, wanted, (k - 1) as nat);
        let now = sharing(views, wanted, k);
        if extents(views[k - 1]) == wanted {
            assert(now == before.push((k - 1) as usize));
            if before.contains(v) {
                let p = choose|p: int| 0 <= p < before.len() && before[p] == v;
                assert(now[p] == v);
            }
            if v == k - 1 {
                assert(now[before.len() as int] == v);
            }
            if now.contains(v) {
                let p = choose|p: int| 0 <= p < now.len() && now[p] == v;
                if p < before.len() {
                    assert(before[p] == v);
                }
            }
        }
    }
}

/// Whether a view is in one of the batches.
pub open spec fn batched(batches: Seq<BatchView>, view: usize) -> bool {
    exists|b: int| 0 <= b < batches.len() && (#[trigger] batches[b]).members.contains(view)
}

proof fn lemma_cut_covers(members: Seq<usize>, size: int, across: usize, down: usize, view: usize)
    requires
        size > 0,
        members.contains(view),
    ensures
        batched(cut(members, size, across, down), view),
    decreases members.len(),
{
    let batches = cut(members, size, across, down);
    if members.len() <= size {
        assert(batches[0].members.contains(view));
    } else {
        let p = choose|p: int| 0 <= p < members.len() && members[p] == view;
        if p < size {
            assert(members.take(size)[p] == view);
            assert(batches[0].members.contains(view));
        } else {
            assert(members.skip(size)[p - size] == view);
            assert(members.skip(size).contains(view));
            lemma_cut_covers(members.skip(size), size, across, down, view);
            let tail = cut(members.skip(size), size, across, down);
            let b = choose|b: int|
                0 <= b < tail.len() && (#[trigger] tail[b]).members.contains(view);
            assert(batches[b + 1] == tail[b]);
        }
    }
}

proof fn lemma_leader_of(views: Seq<ViewShape>, k: nat, i: int) -> (p: int)
    requires
        0 <= i < k <= views.len(),
        views.len() <= usize::MAX,
    ensures
        0 <= p < leaders(views, k).len(),
        leaders(views, k)[p] < k,
        extents(views[leaders(views, k)[p] as int]) == extents(views[i]),
    decreases k,
{
    if i < k - 1 {
        lemma_leader_of(views, (k - 1) as nat, i)
    } else if seen_before(views, k - 1) {
        let j = choose|j: int| 0 <= j < k - 1 && extents(#[trigger] views[j]) == extents(views[k - 1]);
        lemma_leader_of(views, (k - 1) as nat, j)
    } else {
        leaders(views, k).len() - 1
    }
}

proof fn lemma_group_is_in(
    patch_size: usize,
    views: Seq<ViewShape>,
    heads: Seq<usize>,
    k: nat,
    p: int,
    view: usize,
)
    requires
        0 <= p < k <= heads.len(),
        batches_outcome(patch_size, views, heads, k) is Ok,
        group_batches(patch_size, views, heads[p] as int) is Ok ==> batched(
            group_batches(patch_size, views, heads[p] as int)->Ok_0,
            view,
        ),
    ensures
        batched(batches_outcome(patch_size, views, heads, k)->Ok_0, view),
    decreases k,
{
    let before = batches_outcome(patch_size, views, heads, (k - 1) as nat)->Ok_0;
    let more = group_batches(patch_size, views, heads[k - 1] as int)->Ok_0;
    let all = batches_outcome(patch_size, views, heads, k)->Ok_0;
    assert(all == before + more);
    if p == k - 1 {
        let b = choose|b: int| 0 <= b < more.len() && (#[trigger] more[b]).members.contains(view);
        assert(all[before.len() + b] == more[b]);
    } else {
        lemma_group_is_in(patch_size, views, heads, (k - 1) as nat, p, view);
        let b = choose|b: int|
            0 <= b < before.len() && (#[trigger] before[b]).members.contains(view);
        assert(all[b] == before[b]);
    }
}

/// Every view is in a batch: none is left without its embeddings.
pub proof fn every_view_is_batched(patch_size: usize, views: Seq<ViewShape>, view: int)
    requires
        0 <= view < views.len() <= usize::MAX,
    ensures
        ({
            let heads = leaders(views, views.len());
            batches_outcome(patch_size, views, heads, heads.len()) matches Ok(batches) ==> batched(
                batches,
                view as usize,
            )
        }),
{
    let n = views.len();
    let heads = leaders(views, n);
    if batches_outcome(patch_size, views, heads, heads.len()) is Ok {
        let p = lemma_leader_of(views, n, view);
        let leader = views[heads[p] as int];
        lemma_sharing(views, extents(leader), n, view);
        let members = sharing(views, extents(leader), n);
        match grid_outcome(patch_size, leader.width, leader.height, leader.path@) {
            Ok((across, down)) => {
                lemma_cut_covers(
                    members,
                    batch_size(across * down),
                    across,
                    down,
                    view as usize,
                );
            },
            Err(_) => {},
        }
        lemma_group_is_in(patch_size, views, heads, heads.len(), p, view as usize);
    }
}

/// A batch of a group holds no more tokens than the limit, unless it is a single view.
pub proof fn batches_stay_within_the_limit(
    members: Seq<usize>,
    across: usize,
    down: usize,
    b: int,
)
    requires
        across > 0,
        down > 0,
        0 <= b < cut(members, batch_size(across * down), across, down).len(),
    ensures
        ({
            let held = cut(members, batch_size(across * down), across, down)[b].members.len();
            held >= 1 && (held == 1 || held * (across * down) <= MAX_BATCH_TOKENS)
        }),
    decreases members.len(),
{
    let per_view = across * down;
    assert(per_view > 0) by (nonlinear_arith)
        requires
            per_view == across * down,
            across > 0,
            down > 0,
    ;
    let size = batch_size(per_view);
    let all = cut(members, size, across, down);
    if members.len() > size && b > 0 {
        let tail = cut(members.skip(size), size, across, down);
        assert(all[b] == tail[b - 1]);
        batches_stay_within_the_limit(members.skip(size), across, down, b - 1);
    } else {
        let held = all[b].members.len();
        assert(1 <= held <= size);
        if size > 1 {
            let q = MAX_BATCH_TOKENS as int / per_view;
            vstd::arithmetic::div_mod::lemma_fundamental_div_mod(
                MAX_BATCH_TOKENS as int,
                per_view,
            );
            assert(held * per_view <= MAX_BATCH_TOKENS) by (nonlinear_arith)
                requires
                    held <= q,
                    per_view > 0,
                    MAX_BATCH_TOKENS as int == per_view * q + MAX_BATCH_TOKENS as int % per_view,
                    MAX_BATCH_TOKENS as int % per_view >= 0,
            ;
        }
    }
}

/// The members of batches, one batch behind the other.
pub open spec fn flat_members(batches: Seq<BatchView>) -> Seq<usize>
    decreases batches.len(),
{
    if batches.len() == 0 {
        Seq::empty()
    } else {
        batches[0].members + flat_members(batches.skip(1))
    }
}

/// Cutting a group into batches keeps its members and their order; every batch but the last is full,
/// and each has the grid of the group.
pub proof fn groups_are_cut_without_loss(members: Seq<usize>, size: int, across: usize, down: usize)
    requires
        size > 0,
    ensures
        flat_members(cut(members, size, across, down)) == members,
        forall|b: int|
            0 <= b < cut(members, size, across, down).len() ==> {
                let batch = #[trigger] cut(members, size, across, down)[b];
                &&& batch.across == across
                &&& batch.down == down
                &&& 1 <= batch.members.len() <= size
                &&& b + 1 < cut(members, size, across, down).len() ==> batch.members.len() == size
            },
    decreases members.len(),
{
    let batches = cut(members, size, across, down);
    if members.len() == 0 {
        assert(flat_members(batches) =~= members);
    } else if members.len() <= size {
        assert(batches.skip(1) =~= Seq::empty());
        assert(flat_members(batches.skip(1)) =~= Seq::empty());
        assert(flat_members(batches) =~= members);
    } else {
        let rest = members.skip(size);
        groups_are_cut_without_loss(rest, size, across, down);
        let tail = cut(rest, size, across, down);
        assert(batches.skip(1) =~= tail);
        assert(flat_members(batches) =~= members);
        assert forall|b: int| 0 <= b < batches.len() implies ({
            let batch = #[trigger] batches[b];
            &&& batch.across == across
            &&& batch.down == down
            &&& 1 <= batch.members.len() <= size
            &&& b + 1 < batches.len() ==> batch.members.len() == size
        }) by {
            if b > 0 {
                assert(batches[b] == tail[b - 1]);
            }
        }
    }
}

/// A group holds exactly the views with the extents of its first view, in ascending order.
pub proof fn groups_hold_the_views_of_one_shape(
    views: Seq<ViewShape>,
    wanted: (usize, usize),
    k: nat,
)
    requires
        k <= views.len() <= usize::MAX,
    ensures
        forall|i: int|
            0 <= i < k ==> (((#[trigger] views[i]).width, views[i].height) == wanted <==> sharing(
                views,
                wanted,
                k,
            ).contains(i as usize)),
        forall|i: int|
            0 <= i < sharing(views, wanted, k).len() ==> #[trigger] sharing(views, wanted, k)[i] < k,
        forall|i: int, j: int|
            0 <= i < j < sharing(views, wanted, k).len() ==> #[trigger] sharing(views, wanted, k)[i]
                < #[trigger] sharing(views, wanted, k)[j],
    decreases k,
{
    assert forall|i: int| 0 <= i < k implies (((#[trigger] views[i]).width, views[i].height)
        == wanted <==> sharing(views, wanted, k).contains(i as usize)) by {
        lemma_sharing(views, wanted, k, i);
    }
    if k > 0 {
        let m = (k - 1) as nat;
        groups_hold_the_views_of_one_shape(views, wanted, m);
        let front = sharing(views, wanted, m);
        let all = sharing(views, wanted, k);
        assert forall|i: int| 0 <= i < all.len() implies #[trigger] all[i] < k by {
            if i < front.len() {
                assert(front[i] < m);
            }
        }
        assert forall|i: int, j: int| 0 <= i < j < all.len() implies #[trigger] all[i]
            < #[trigger] all[j] by {
            assert(front[i] < m);
            if j < front.len() {
                assert(front[i] < front[j]);
            }
        }
    }
}

/// Every group has other extents than the groups before it, and groups follow each other in the
/// order of their first views: a view is in one group only.
pub proof fn groups_have_different_shapes(views: Seq<ViewShape>, k: nat)
    requires
        k <= views.len() <= usize::MAX,
    ensures
        forall|i: int|
            0 <= i < leaders(views, k).len() ==> #[trigger] leaders(views, k)[i] < k,
        forall|i: int, j: int|
            0 <= i < j < leaders(views, k).len() ==> #[trigger] leaders(views, k)[i]
                < #[trigger] leaders(views, k)[j] && !(views[leaders(views, k)[i] as int].width
                == views[leaders(views, k)[j] as int].width && views[leaders(
                views,
                k,
            )[i] as int].height == views[leaders(views, k)[j] as int].height),
    decreases k,
{
    if k > 0 {
        let m = (k - 1) as nat;
        groups_have_different_shapes(views, m);
        let front = leaders(views, m);
        let all = leaders(views, k);
        assert forall|i: int| 0 <= i < all.len() implies #[trigger] all[i] < k by {
            if i < front.len() {
                assert(front[i] < m);
            }
        }
        assert forall|i: int, j: int| 0 <= i < j < all.len() implies #[trigger] all[i]
            < #[trigger] all[j] && !(views[all[i] as int].width == views[all[j] as int].width
            && views[all[i] as int].height == views[all[j] as int].height) by {
            assert(front[i] < m);
            if j < front.len() {
                assert(front[i] < front[j]);
            } else {
                assert(!seen_before(views, k - 1));
                assert(extents(views[front[i] as int]) != extents(views[k - 1]));
            }
        }
    }
}

} // verus!
