use vstd::prelude::*;
use crate::error::DerivationError;
use crate::feature::LexItem;
use crate::operations::{can_merge, can_merge_tree, merge, merge_tree, move_operation, move_tree};
use crate::syntax::{
    count_upto, lemma_children_trees, leaf_tree, node_count, total_nodes, trees, SyntacticObject,
    Tree,
};

verus! {

broadcast use vstd::std_specs::vec::group_vec_axioms;

/// Workspace holding the state of one derivation.
#[derive(Debug)]
pub struct Workspace {
    /// Active syntactic objects
    pub items: Vec<SyntacticObject>,
    /// Largest number of nodes allowed over all items
    pub memory_limit: usize,
    /// Number of derivation steps taken
    pub step_count: usize,
}

/// A workspace of exactly one complete object.
pub open spec fn successful(items: Seq<Tree>) -> bool {
    items.len() == 1 && items[0].features.len() == 0
}

/// Ordered pairs `(i, j)`, `i != j`, with `items[i]` able to merge with `items[j]`,
/// listed from position `(i, j)` on, by ascending `i`, then ascending `j`.
pub open spec fn pairs_from(items: Seq<Tree>, i: int, j: int) -> Seq<(usize, usize)>
    decreases items.len() - i, items.len() - j,
{
    if i < 0 || j < 0 || i >= items.len() {
        Seq::empty()
    } else if j >= items.len() {
        pairs_from(items, i + 1, 0)
    } else if i != j && can_merge_tree(items[i], items[j]) {
        seq![(i as usize, j as usize)] + pairs_from(items, i, j + 1)
    } else {
        pairs_from(items, i, j + 1)
    }
}

/// All mergeable pairs of a workspace, in scan order.
pub open spec fn mergeable_pairs(items: Seq<Tree>) -> Seq<(usize, usize)> {
    pairs_from(items, 0, 0)
}

/// First position, from `i` on, of an item that can move, or the length if none.
pub open spec fn movable_from(items: Seq<Tree>, i: int) -> int
    decreases items.len() - i,
{
    if 0 <= i < items.len() {
        if move_tree(items[i]) is Some {
            i
        } else {
            movable_from(items, i + 1)
        }
    } else {
        items.len() as int
    }
}

/// One derivation step on a workspace's trees: its outcome and the trees after it.
pub open spec fn step_items(items: Seq<Tree>, limit: int) -> (Result<(), DerivationError>, Seq<Tree>) {
    if items.len() == 0 {
        (Err(DerivationError::EmptyWorkspace), items)
    } else if total_nodes(items) > limit {
        (Err(DerivationError::MemoryLimitExceeded), items)
    } else if mergeable_pairs(items).len() > 0 {
        let i = mergeable_pairs(items)[0].0 as int;
        let j = mergeable_pairs(items)[0].1 as int;
        let hi = if i > j { i } else { j };
        let lo = if i > j { j } else { i };
        let rest = items.remove(hi).remove(lo);
        match merge_tree(items[hi], items[lo]) {
            Some(m) => (Ok(()), rest.push(m)),
            None => (Err(DerivationError::FeatureMismatch), rest),
        }
    } else {
        let p = movable_from(items, 0);
        if p < items.len() {
            (Ok(()), items.update(p, move_tree(items[p])->Some_0))
        } else {
            (Err(DerivationError::NoValidOperations), items)
        }
    }
}

/// Number of nodes in `o`, if it is at most `budget`.
fn count_within(o: &SyntacticObject, budget: usize) -> (r: Option<usize>)
    ensures
        r == (if node_count(o@) <= budget {
            Some(node_count(o@) as usize)
        } else {
            None::<usize>
        }),
    decreases o,
{
    if budget == 0 {
        return None;
    }
    proof {
        lemma_children_trees(*o);
    }
    let mut left: usize = budget - 1;
    let mut i: usize = 0;
    while i < o.children.len()
        invariant
            i <= o.children@.len(),
            o@.children == trees(o.children@),
            left <= budget - 1,
            count_upto(o@, i as int) == budget - 1 - left,
        decreases o.children@.len() - i,
    {
        proof {
            assert(decreases_to!(o.children => o.children[i as int]));
        }
        match count_within(&o.children[i], left) {
            None => {
                proof {
                    lemma_count_upto_mono(o@, i as int + 1, o@.children.len() as int);
                }
                return None;
            },
            Some(c) => {
                left = left - c;
            },
        }
        i += 1;
    }
    Some(budget - left)
}

/// Counting the first `n` subtrees gives no more than counting the first `m`.
pub proof fn lemma_count_upto_mono(t: Tree, n: int, m: int)
    requires
        0 <= n <= m <= t.children.len(),
    ensures
        count_upto(t, n) <= count_upto(t, m),
    decreases m,
{
    if n < m {
        lemma_count_upto_mono(t, n, m - 1);
    }
}

/// A prefix of a sequence of trees has no more nodes than the whole.
pub proof fn lemma_total_prefix(s: Seq<Tree>, i: int)
    requires
        0 <= i <= s.len(),
    ensures
        total_nodes(s.take(i)) <= total_nodes(s),
    decreases s.len(),
{
    if i < s.len() {
        lemma_total_prefix(s.drop_last(), i);
        assert(s.drop_last().take(i) =~= s.take(i));
    } else {
        assert(s.take(i) =~= s);
    }
}

/// The node total of the first `i + 1` trees adds the `i`-th to the first `i`.
pub proof fn lemma_total_step(s: Seq<Tree>, i: int)
    requires
        0 <= i < s.len(),
    ensures
        total_nodes(s.take(i + 1)) == total_nodes(s.take(i)) + node_count(s[i]),
{
    assert(s.take(i + 1).drop_last() =~= s.take(i));
}

/// Whether the objects together have more nodes than `limit`.
fn exceeds_limit(items: &Vec<SyntacticObject>, limit: usize) -> (r: bool)
    ensures
        r == (total_nodes(trees(items@)) > limit),
{
    let ghost ts = trees(items@);
    let mut left: usize = limit;
    let mut i: usize = 0;
    while i < items.len()
        invariant
            i <= items@.len(),
            ts == trees(items@),
            left <= limit,
            total_nodes(ts.take(i as int)) == limit - left,
        decreases items@.len() - i,
    {
        proof {
            lemma_total_step(ts, i as int);
        }
        match count_within(&items[i], left) {
            None => {
                proof {
                    lemma_total_prefix(ts, i as int + 1);
                }
                return true;
            },
            Some(c) => {
                left = left - c;
            },
        }
        i += 1;
    }
    proof {
        assert(ts.take(i as int) =~= ts);
    }
    false
}

/// All ordered pairs `(i, j)`, `i != j`, of items where the `i`-th can merge with the
/// `j`-th, by ascending `i`, then ascending `j`.
pub fn find_mergeable_pairs(workspace: &Workspace) -> (r: Vec<(usize, usize)>)
    ensures
        r@ == mergeable_pairs(trees(workspace.items@)),
{
    let ghost ts = trees(workspace.items@);
    let n = workspace.items.len();
    let mut pairs: Vec<(usize, usize)> = Vec::new();
    let mut i: usize = 0;
    while i < n
        invariant
            n == workspace.items@.len(),
            ts == trees(workspace.items@),
            i <= n,
            pairs@ + pairs_from(ts, i as int, 0) == pairs_from(ts, 0, 0),
        decreases n - i,
    {
        let mut j: usize = 0;
        while j < n
            invariant
                n == workspace.items@.len(),
                ts == trees(workspace.items@),
                i < n,
                j <= n,
                pairs@ + pairs_from(ts, i as int, j as int) == pairs_from(ts, 0, 0),
            decreases n - j,
        {
            let ghost before = pairs@;
            if i != j && can_merge(&workspace.items[i], &workspace.items[j]) {
                pairs.push((i, j));
                proof {
                    assert(before + pairs_from(ts, i as int, j as int) =~= pairs@ + pairs_from(
                        ts,
                        i as int,
                        j as int + 1,
                    ));
                }
            }
            j += 1;
        }
        i += 1;
    }
    proof {
        assert(pairs@ + pairs_from(ts, i as int, 0) =~= pairs@);
    }
    pairs
}

/// First position of an item on which movement succeeds, and its result.
fn first_move(items: &Vec<SyntacticObject>) -> (r: Option<(usize, SyntacticObject)>)
    ensures
        match r {
            Some((p, m)) => p == movable_from(trees(items@), 0) && p < items@.len()
                && move_tree(trees(items@)[p as int]) == Some(m@),
            None => movable_from(trees(items@), 0) == items@.len(),
        },
{
    let ghost ts = trees(items@);
    let mut i: usize = 0;
    while i < items.len()
        invariant
            i <= items@.len(),
            ts == trees(items@),
            movable_from(ts, 0) == movable_from(ts, i as int),
        decreases items@.len() - i,
    {
        match move_operation(items[i].copy()) {
            Ok(m) => {
                return Some((i, m));
            },
            Err(_) => {},
        }
        i += 1;
    }
    None
}

/// One derivation step: a merge of the first mergeable pair if there is one, else a
/// move on the first item that allows one.
pub fn step(workspace: &mut Workspace) -> (r: Result<(), DerivationError>)
    requires
        old(workspace).step_count < usize::MAX,
    ensures
        (r, trees(final(workspace).items@)) == step_items(
            trees(old(workspace).items@),
            old(workspace).memory_limit as int,
        ),
        final(workspace).memory_limit == old(workspace).memory_limit,
        final(workspace).step_count == if old(workspace).items@.len() == 0 {
            old(workspace).step_count as int
        } else {
            old(workspace).step_count + 1
        },
{
    if workspace.items.len() == 0 {
        return Err(DerivationError::EmptyWorkspace);
    }
    workspace.step_count = workspace.step_count + 1;
    if exceeds_limit(&workspace.items, workspace.memory_limit) {
        return Err(DerivationError::MemoryLimitExceeded);
    }
    let ghost ts = trees(workspace.items@);
    let pairs = find_mergeable_pairs(workspace);
    if pairs.len() > 0 {
        let (i, j) = pairs[0];
        proof {
            lemma_pairs_listed(ts, 0, 0);
            assert(pairs@.contains(pairs@[0]));
        }
        let hi = if i > j { i } else { j };
        let lo = if i > j { j } else { i };
        let a = workspace.items.remove(hi);
        let b = workspace.items.remove(lo);
        proof {
            assert(trees(workspace.items@) =~= ts.remove(hi as int).remove(lo as int));
        }
        match merge(a, b) {
            Ok(m) => {
                workspace.items.push(m);
                proof {
                    assert(trees(workspace.items@) =~= ts.remove(hi as int).remove(lo as int).push(
                        m@,
                    ));
                }
                return Ok(());
            },
            Err(e) => {
                return Err(e);
            },
        }
    }
    match first_move(&workspace.items) {
        Some((p, m)) => {
            workspace.items.set(p, m);
            proof {
                assert(trees(workspace.items@) =~= ts.update(p as int, m@));
            }
            Ok(())
        },
        None => Err(DerivationError::NoValidOperations),
    }
}

/// Every pair listed from `(i, j)` on holds two distinct positions of `items`, the
/// first of which can merge with the second.
pub proof fn lemma_pairs_listed(items: Seq<Tree>, i: int, j: int)
    requires
        items.len() <= usize::MAX,
    ensures
        forall|k: int|
            0 <= k < pairs_from(items, i, j).len() ==> {
                let p = #[trigger] pairs_from(items, i, j)[k];
                p.0 < items.len() && p.1 < items.len() && p.0 != p.1 && can_merge_tree(
                    items[p.0 as int],
                    items[p.1 as int],
                )
            },
    decreases items.len() - i, items.len() - j,
{
    if i < 0 || j < 0 || i >= items.len() {
    } else if j >= items.len() {
        lemma_pairs_listed(items, i + 1, 0);
        assert(pairs_from(items, i, j) == pairs_from(items, i + 1, 0));
    } else {
        lemma_pairs_listed(items, i, j + 1);
        let rest = pairs_from(items, i, j + 1);
        if !(i != j && can_merge_tree(items[i], items[j])) {
            assert(pairs_from(items, i, j) == rest);
        }
        if i != j && can_merge_tree(items[i], items[j]) {
            assert forall|k: int| 0 <= k < pairs_from(items, i, j).len() implies {
                let p = #[trigger] pairs_from(items, i, j)[k];
                p.0 < items.len() && p.1 < items.len() && p.0 != p.1 && can_merge_tree(
                    items[p.0 as int],
                    items[p.1 as int],
                )
            } by {
                if k > 0 {
                    assert(pairs_from(items, i, j)[k] == rest[k - 1]);
                }
            }
        }
    }
}

/// Every pair `(p, q)` of distinct positions at or after `(i, j)` in scan order, where
/// the `p`-th tree can merge with the `q`-th, is listed.
pub proof fn lemma_pairs_complete(items: Seq<Tree>, i: int, j: int, p: int, q: int)
    requires
        items.len() <= usize::MAX,
        0 <= i,
        0 <= j,
        0 <= p < items.len(),
        0 <= q < items.len(),
        p != q,
        i < p || (i == p && j <= q),
        can_merge_tree(items[p], items[q]),
    ensures
        pairs_from(items, i, j).contains((p as usize, q as usize)),
    decreases items.len() - i, items.len() - j,
{
    if j >= items.len() {
        lemma_pairs_complete(items, i + 1, 0, p, q);
    } else if i == p && j == q {
        assert(pairs_from(items, i, j)[0] == (p as usize, q as usize));
    } else {
        lemma_pairs_complete(items, i, j + 1, p, q);
        let rest = pairs_from(items, i, j + 1);
        let k = choose|k: int| 0 <= k < rest.len() && rest[k] == (p as usize, q as usize);
        if i != j && can_merge_tree(items[i], items[j]) {
            assert(pairs_from(items, i, j)[k + 1] == rest[k]);
        } else {
            assert(pairs_from(items, i, j) == rest);
        }
    }
}

/// What a derivation reports once it stops: the single object if it is complete.
pub open spec fn finish(items: Seq<Tree>) -> Result<Tree, DerivationError> {
    if successful(items) {
        Ok(items[0])
    } else {
        Err(DerivationError::NoValidOperations)
    }
}

/// A derivation of at most `fuel` steps: its result, the trees it leaves, and the
/// number of steps that counted.
pub open spec fn run(items: Seq<Tree>, limit: int, fuel: nat) -> (
    Result<Tree, DerivationError>,
    Seq<Tree>,
    nat,
)
    decreases fuel,
{
    if fuel == 0 {
        (finish(items), items, 0)
    } else if successful(items) {
        (Ok(items[0]), items, 0)
    } else {
        let (r, next) = step_items(items, limit);
        match r {
            Ok(_) => {
                let (res, last, n) = run(next, limit, (fuel - 1) as nat);
                (res, last, n + 1)
            },
            Err(DerivationError::NoValidOperations) => (finish(next), next, 1),
            Err(e) => (Err(e), next, if items.len() == 0 {
                0
            } else {
                1
            }),
        }
    }
}

/// The tree of a derivation's result.
pub open spec fn result_tree(r: Result<SyntacticObject, DerivationError>) -> Result<
    Tree,
    DerivationError,
> {
    match r {
        Ok(o) => Ok(o@),
        Err(e) => Err(e),
    }
}

/// Runs a derivation of at most `max_steps` steps.
pub fn derive(workspace: &mut Workspace, max_steps: usize) -> (r: Result<
    SyntacticObject,
    DerivationError,
>)
    requires
        old(workspace).step_count + max_steps <= usize::MAX,
    ensures
        ({
            let (res, last, n) = run(
                trees(old(workspace).items@),
                old(workspace).memory_limit as int,
                max_steps as nat,
            );
            &&& result_tree(r) == res
            &&& trees(final(workspace).items@) == last
            &&& final(workspace).step_count == old(workspace).step_count + n
        }),
        final(workspace).memory_limit == old(workspace).memory_limit,
{
    let ghost limit = workspace.memory_limit as int;
    let ghost start = workspace.step_count;
    let ghost (res, last, n) = run(trees(workspace.items@), limit, max_steps as nat);
    let mut k: usize = 0;
    while k < max_steps
        invariant_except_break
            workspace.step_count <= start + k,
            ({
                let (r2, l2, n2) = run(trees(workspace.items@), limit, (max_steps - k) as nat);
                &&& r2 == res
                &&& l2 == last
                &&& workspace.step_count + n2 == start + n
            }),
        invariant
            k <= max_steps,
            limit == old(workspace).memory_limit,
            start == old(workspace).step_count,
            (res, last, n) == run(trees(old(workspace).items@), limit, max_steps as nat),
            workspace.memory_limit == limit,
            start + max_steps <= usize::MAX,
        ensures
            finish(trees(workspace.items@)) == res,
            trees(workspace.items@) == last,
            workspace.step_count == start + n,
            workspace.memory_limit == limit,
        decreases max_steps - k,
    {
        if workspace.is_successful() {
            let o = workspace.items[0].copy();
            proof {
                assert(trees(workspace.items@)[0] == workspace.items@[0]@);
                assert(run(trees(workspace.items@), limit, (max_steps - k) as nat) == (
                    Ok::<Tree, DerivationError>(trees(workspace.items@)[0]),
                    trees(workspace.items@),
                    0nat,
                ));
            }
            return Ok(o);
        }
        let ghost cur = trees(workspace.items@);
        match step(workspace) {
            Ok(()) => {},
            Err(DerivationError::NoValidOperations) => {
                break;
            },
            Err(e) => {
                proof {
                    assert(step_items(cur, limit).0 == Err::<(), DerivationError>(e));
                    assert(run(cur, limit, (max_steps - k) as nat) == (
                        Err::<Tree, DerivationError>(e),
                        trees(workspace.items@),
                        if cur.len() == 0 {
                            0nat
                        } else {
                            1nat
                        },
                    ));
                }
                return Err(e);
            },
        }
        k += 1;
    }
    if workspace.is_successful() {
        let o = workspace.items[0].copy();
        proof {
            assert(trees(workspace.items@)[0] == workspace.items@[0]@);
        }
        Ok(o)
    } else {
        Err(DerivationError::NoValidOperations)
    }
}

/// A sequence of trees has at least as many nodes as trees.
pub proof fn lemma_total_at_least_len(s: Seq<Tree>)
    ensures
        total_nodes(s) >= s.len(),
    decreases s.len(),
{
    if s.len() > 0 {
        lemma_total_at_least_len(s.drop_last());
    }
}

/// The memory guard: when the node budget is below the number of items, a step fails
/// with `MemoryLimitExceeded` before any merge or move, and leaves the items as they are.
pub proof fn lemma_memory_guard(items: Seq<Tree>, limit: int)
    requires
        0 < items.len(),
        limit < items.len(),
    ensures
        step_items(items, limit) == (
            Err::<(), DerivationError>(DerivationError::MemoryLimitExceeded),
            items,
        ),
{
    lemma_total_at_least_len(items);
}

impl Workspace {
    /// Creates an empty workspace with the given memory limit.
    pub fn new(memory_limit: usize) -> (r: Workspace)
        ensures
            r.items@.len() == 0,
            r.memory_limit == memory_limit,
            r.step_count == 0,
    {
        Workspace { items: Vec::new(), memory_limit, step_count: 0 }
    }

    /// Adds a leaf for a lexical item at the end of the workspace.
    pub fn add_lex(&mut self, item: &LexItem)
        ensures
            trees(final(self).items@) == trees(old(self).items@).push(
                leaf_tree(item.phon@, item.feats@),
            ),
            final(self).memory_limit == old(self).memory_limit,
            final(self).step_count == old(self).step_count,
    {
        let obj = SyntacticObject::from_lex(item);
        self.items.push(obj);
        proof {
            assert(trees(self.items@) =~= trees(old(self).items@).push(
                leaf_tree(item.phon@, item.feats@),
            ));
        }
    }

    /// Whether the derivation succeeded: exactly one object, and it is complete.
    pub fn is_successful(&self) -> (r: bool)
        ensures
            r == successful(trees(self.items@)),
    {
        self.items.len() == 1 && self.items[0].is_complete()
    }

    /// Memory usage estimate: the number of nodes over all items.
    pub fn memory_usage(&self) -> (r: usize)
        requires
            total_nodes(trees(self.items@)) <= usize::MAX,
        ensures
            r == total_nodes(trees(self.items@)),
    {
        let ghost ts = trees(self.items@);
        let mut sum: usize = 0;
        let mut i: usize = 0;
        while i < self.items.len()
            invariant
                i <= self.items@.len(),
                ts == trees(self.items@),
                total_nodes(ts) <= usize::MAX,
                sum == total_nodes(ts.take(i as int)),
            decreases self.items@.len() - i,
        {
            proof {
                lemma_total_step(ts, i as int);
                lemma_total_prefix(ts, i as int + 1);
            }
            sum = sum + self.object_size(&self.items[i]);
            i += 1;
        }
        proof {
            assert(ts.take(i as int) =~= ts);
        }
        sum
    }

    /// Number of nodes in one object.
    fn object_size(&self, obj: &SyntacticObject) -> (r: usize)
        requires
            node_count(obj@) <= usize::MAX,
        ensures
            r == node_count(obj@),
    {
        match count_within(obj, usize::MAX) {
            Some(n) => n,
            None => 0,
        }
    }
}

} // verus!
