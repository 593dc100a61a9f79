use vstd::prelude::*;
use crate::error::DerivationError;
use crate::feature::{copy_features, Category, Feature};
use crate::syntax::{inner_tree, lemma_children_trees, trees, SyntacticObject, Tree};

verus! {

broadcast use vstd::std_specs::vec::group_vec_axioms;

/// Position of the first selector at or after `i`, or the length if there is none.
pub open spec fn sel_from(fs: Seq<Feature>, i: int) -> int
    decreases fs.len() - i,
{
    if 0 <= i < fs.len() {
        if fs[i] is Sel {
            i
        } else {
            sel_from(fs, i + 1)
        }
    } else {
        fs.len() as int
    }
}

/// Position of the first `Cat(c)` at or after `i`, or the length if there is none.
pub open spec fn cat_from(fs: Seq<Feature>, c: Category, i: int) -> int
    decreases fs.len() - i,
{
    if 0 <= i < fs.len() {
        if fs[i] == Feature::Cat(c) {
            i
        } else {
            cat_from(fs, c, i + 1)
        }
    } else {
        fs.len() as int
    }
}

/// Position of the first positive feature at or after `i`, or the length if there is none.
pub open spec fn pos_from(fs: Seq<Feature>, i: int) -> int
    decreases fs.len() - i,
{
    if 0 <= i < fs.len() {
        if fs[i] is Pos {
            i
        } else {
            pos_from(fs, i + 1)
        }
    } else {
        fs.len() as int
    }
}

/// Position of the first `Neg(k)` at or after `i`, or the length if there is none.
pub open spec fn neg_from(fs: Seq<Feature>, k: u8, i: int) -> int
    decreases fs.len() - i,
{
    if 0 <= i < fs.len() {
        if fs[i] == Feature::Neg(k) {
            i
        } else {
            neg_from(fs, k, i + 1)
        }
    } else {
        fs.len() as int
    }
}

/// The sequence without the element at `j`; unchanged if `j` is out of range.
pub open spec fn without(fs: Seq<Feature>, j: int) -> Seq<Feature> {
    if 0 <= j < fs.len() {
        fs.remove(j)
    } else {
        fs
    }
}

/// Merge of two trees: the first selector of `a` must find its category in `b`.
pub open spec fn merge_tree(a: Tree, b: Tree) -> Option<Tree> {
    let i = sel_from(a.features, 0);
    if i < a.features.len() {
        let c = a.features[i]->Sel_0;
        let j = cat_from(b.features, c, 0);
        if j < b.features.len() {
            Some(
                inner_tree(
                    a.label,
                    without(a.features, i) + without(b.features, j),
                    seq![a, b],
                ),
            )
        } else {
            None
        }
    } else {
        None
    }
}

/// Some selector of `a` has a matching category feature in `b`.
pub open spec fn can_merge_tree(a: Tree, b: Tree) -> bool {
    exists|i: int, j: int|
        0 <= i < a.features.len() && 0 <= j < b.features.len() && #[trigger] a.features[i] is Sel
            && #[trigger] b.features[j] == Feature::Cat(a.features[i]->Sel_0)
}

/// The first node, in pre-order, that carries `Neg(k)`.
pub open spec fn target(t: Tree, k: u8) -> Option<Tree>
    decreases t, t.children.len() + 1,
{
    if neg_from(t.features, k, 0) < t.features.len() {
        Some(t)
    } else {
        target_from(t, k, 0)
    }
}

/// The first node carrying `Neg(k)` within the subtrees of `t` from the `i`-th on.
pub open spec fn target_from(t: Tree, k: u8, i: int) -> Option<Tree>
    decreases t, t.children.len() - i,
{
    if 0 <= i < t.children.len() {
        match target(t.children[i], k) {
            Some(x) => Some(x),
            None => target_from(t, k, i + 1),
        }
    } else {
        None
    }
}

/// The tree without its first `Neg(k)` feature.
pub open spec fn stripped(x: Tree, k: u8) -> Tree {
    Tree {
        label: x.label,
        features: without(x.features, neg_from(x.features, k, 0)),
        children: x.children,
        phon: x.phon,
    }
}

/// Move on a tree: the first positive feature's target, stripped of its `Neg(k)`,
/// is adjoined as a new left sibling of the unchanged tree.
pub open spec fn move_tree(t: Tree) -> Option<Tree> {
    let p = pos_from(t.features, 0);
    if p < t.features.len() {
        let k = t.features[p]->Pos_0;
        match target(t, k) {
            Some(x) => Some(
                inner_tree(
                    t.label,
                    without(t.features, p),
                    seq![stripped(x, k), t],
                ),
            ),
            None => None,
        }
    } else {
        None
    }
}

/// Position of the first selector.
fn find_sel(fs: &Vec<Feature>) -> (r: usize)
    ensures
        r == sel_from(fs@, 0),
{
    let mut i: usize = 0;
    while i < fs.len()
        invariant
            i <= fs@.len(),
            sel_from(fs@, 0) == sel_from(fs@, i as int),
        decreases fs@.len() - i,
    {
        if let Feature::Sel(_) = &fs[i] {
            return i;
        }
        i += 1;
    }
    i
}

/// Position of the first `Cat(c)`.
fn find_cat(fs: &Vec<Feature>, c: Category) -> (r: usize)
    ensures
        r == cat_from(fs@, c, 0),
{
    let mut i: usize = 0;
    while i < fs.len()
        invariant
            i <= fs@.len(),
            cat_from(fs@, c, 0) == cat_from(fs@, c, i as int),
        decreases fs@.len() - i,
    {
        if let Feature::Cat(d) = &fs[i] {
            if *d == c {
                return i;
            }
        }
        i += 1;
    }
    i
}

/// Position of the first positive feature.
fn find_pos(fs: &Vec<Feature>) -> (r: usize)
    ensures
        r == pos_from(fs@, 0),
{
    let mut i: usize = 0;
    while i < fs.len()
        invariant
            i <= fs@.len(),
            pos_from(fs@, 0) == pos_from(fs@, i as int),
        decreases fs@.len() - i,
    {
        if fs[i].is_positive() {
            return i;
        }
        i += 1;
    }
    i
}

/// Position of the first `Neg(k)`.
fn find_neg(fs: &Vec<Feature>, k: u8) -> (r: usize)
    ensures
        r == neg_from(fs@, k, 0),
{
    let mut i: usize = 0;
    while i < fs.len()
        invariant
            i <= fs@.len(),
            neg_from(fs@, k, 0) == neg_from(fs@, k, i as int),
        decreases fs@.len() - i,
    {
        if let Feature::Neg(j) = &fs[i] {
            if *j == k {
                return i;
            }
        }
        i += 1;
    }
    i
}

/// A copy of the features without the one at `j` (unchanged if `j` is out of range).
fn copy_without(fs: &Vec<Feature>, j: usize) -> (r: Vec<Feature>)
    ensures
        r@ == without(fs@, j as int),
{
    let mut v = copy_features(fs);
    if j < v.len() {
        v.remove(j);
    }
    v
}

/// Merges two objects: the first selector of `a` must match a category of `b`.
pub fn merge(a: SyntacticObject, b: SyntacticObject) -> (r: Result<SyntacticObject, DerivationError>)
    ensures
        match r {
            Ok(m) => merge_tree(a@, b@) == Some(m@),
            Err(e) => merge_tree(a@, b@) is None && e is FeatureMismatch,
        },
{
    let i = find_sel(&a.features);
    proof {
        lemma_sel_from(a.features@, 0);
    }
    if i < a.features.len() {
        if let Feature::Sel(c) = &a.features[i] {
            let j = find_cat(&b.features, *c);
            if j < b.features.len() {
                let mut feats = copy_without(&a.features, i);
                let mut rest = copy_without(&b.features, j);
                feats.append(&mut rest);
                let label = a.label;
                proof {
                    lemma_children_trees(a);
                }
                let ghost (ta, tb) = (a@, b@);
                let m = SyntacticObject::internal(label, feats, vec![a, b]);
                proof {
                    assert(trees(seq![a, b]) =~= seq![ta, tb]);
                }
                return Ok(m);
            }
        }
    }
    Err(DerivationError::FeatureMismatch)
}

/// Whether some selector of `a` has a matching category feature in `b`.
pub fn can_merge(a: &SyntacticObject, b: &SyntacticObject) -> (r: bool)
    ensures
        r == can_merge_tree(a@, b@),
{
    let mut i: usize = 0;
    while i < a.features.len()
        invariant
            i <= a.features@.len(),
            forall|p: int, q: int|
                0 <= p < i && 0 <= q < b.features@.len() && #[trigger] a.features@[p] is Sel
                    ==> #[trigger] b.features@[q] != Feature::Cat(a.features@[p]->Sel_0),
        decreases a.features@.len() - i,
    {
        if let Feature::Sel(c) = &a.features[i] {
            let j = find_cat(&b.features, *c);
            proof {
                lemma_cat_from(b.features@, *c, 0);
            }
            if j < b.features.len() {
                proof {
                    assert(a@.features[i as int] is Sel);
                    assert(b@.features[j as int] == Feature::Cat(a@.features[i as int]->Sel_0));
                }
                return true;
            }
        }
        i += 1;
    }
    false
}

/// Finds, in pre-order, the first node of `obj` that carries `Neg(k)`, and copies it.
fn find_movement_target(obj: &SyntacticObject, k: u8) -> (r: Option<SyntacticObject>)
    ensures
        match r {
            Some(x) => target(obj@, k) == Some(x@),
            None => target(obj@, k) is None,
        },
    decreases obj,
{
    let n = find_neg(&obj.features, k);
    if n < obj.features.len() {
        return Some(obj.copy());
    }
    proof {
        lemma_children_trees(*obj);
    }
    let mut i: usize = 0;
    while i < obj.children.len()
        invariant
            i <= obj.children@.len(),
            obj@.children == trees(obj.children@),
            target(obj@, k) == target_from(obj@, k, i as int),
        decreases obj.children@.len() - i,
    {
        proof {
            assert(decreases_to!(obj.children => obj.children[i as int]));
        }
        let found = find_movement_target(&obj.children[i], k);
        if found.is_some() {
            return found;
        }
        i += 1;
    }
    None
}

/// Adjoins `target`, stripped of its first `Neg(k)`, to the left of `obj`, whose
/// feature at `pos` is dropped from the new root.
fn extract_and_move(obj: SyntacticObject, target: SyntacticObject, pos: usize, k: u8) -> (r:
    SyntacticObject)
    ensures
        r@ == inner_tree(
            obj@.label,
            without(obj@.features, pos as int),
            seq![stripped(target@, k), obj@],
        ),
{
    let ghost (t0, o0) = (target@, obj@);
    let feats = copy_without(&obj.features, pos);
    let n = find_neg(&target.features, k);
    let target_feats = copy_without(&target.features, n);
    proof {
        lemma_children_trees(target);
    }
    let SyntacticObject { label: target_label, features: _, children, phon } = target;
    let moved = SyntacticObject { label: target_label, features: target_feats, children, phon };
    proof {
        lemma_children_trees(moved);
        assert(moved@ == stripped(t0, k));
    }
    let label = obj.label;
    let r = SyntacticObject::internal(label, feats, vec![moved, obj]);
    proof {
        assert(trees(seq![moved, obj]) =~= seq![moved@, o0]);
    }
    r
}

/// Applies movement: the first positive feature `Pos(k)` of `obj` draws the first
/// node carrying `Neg(k)` (in pre-order) to a new left edge.
pub fn move_operation(obj: SyntacticObject) -> (r: Result<SyntacticObject, DerivationError>)
    ensures
        match r {
            Ok(m) => move_tree(obj@) == Some(m@),
            Err(e) => move_tree(obj@) is None && e is NoValidOperations,
        },
{
    let p = find_pos(&obj.features);
    proof {
        lemma_pos_from(obj.features@, 0);
    }
    if p < obj.features.len() {
        if let Feature::Pos(k) = &obj.features[p] {
            let k = *k;
            if let Some(t) = find_movement_target(&obj, k) {
                return Ok(extract_and_move(obj, t, p, k));
            }
        }
    }
    Err(DerivationError::NoValidOperations)
}

/// Merge needs a selector: when `a` carries none, merging fails whatever `b` is.
pub proof fn lemma_merge_needs_selector(a: Tree, b: Tree)
    requires
        forall|i: int| 0 <= i < a.features.len() ==> !(#[trigger] a.features[i] is Sel),
    ensures
        merge_tree(a, b) is None,
{
    lemma_sel_from(a.features, 0);
}

/// When the first selector of `a` is `Sel(c)` and `b` carries `Cat(c)`, merging
/// succeeds: the result keeps `a`'s label, and its features are `a`'s without that
/// selector followed by `b`'s without its first `Cat(c)`.
pub proof fn lemma_merge_succeeds(a: Tree, b: Tree, i: int, c: Category)
    requires
        0 <= i < a.features.len(),
        a.features[i] == Feature::Sel(c),
        forall|k: int| 0 <= k < i ==> !(#[trigger] a.features[k] is Sel),
        exists|j: int| 0 <= j < b.features.len() && #[trigger] b.features[j] == Feature::Cat(c),
    ensures
        merge_tree(a, b) is Some,
        merge_tree(a, b)->Some_0.label == a.label,
        merge_tree(a, b)->Some_0.features == a.features.remove(i) + b.features.remove(
            cat_from(b.features, c, 0),
        ),
        0 <= cat_from(b.features, c, 0) < b.features.len(),
        b.features[cat_from(b.features, c, 0)] == Feature::Cat(c),
        forall|k: int|
            0 <= k < cat_from(b.features, c, 0) ==> #[trigger] b.features[k] != Feature::Cat(c),
{
    lemma_sel_from(a.features, 0);
    lemma_cat_from(b.features, c, 0);
    if sel_from(a.features, 0) > i {
        assert(!(a.features[i] is Sel));
    }
    assert(sel_from(a.features, 0) == i);
}

/// Move needs a positive feature: without one, moving fails.
pub proof fn lemma_move_needs_positive(t: Tree)
    requires
        forall|i: int| 0 <= i < t.features.len() ==> !(#[trigger] t.features[i] is Pos),
    ensures
        move_tree(t) is None,
{
    lemma_pos_from(t.features, 0);
}

/// Move needs a target: when no node of the tree, itself included, carries the
/// `Neg(k)` for the first positive feature `Pos(k)`, moving fails.
pub proof fn lemma_move_needs_target(t: Tree)
    requires
        pos_from(t.features, 0) < t.features.len(),
        target(t, t.features[pos_from(t.features, 0)]->Pos_0) is None,
    ensures
        move_tree(t) is None,
{
}

/// A target found for `k` carries `Neg(k)`.
pub proof fn lemma_target_has_neg(t: Tree, k: u8)
    requires
        target(t, k) is Some,
    ensures
        neg_from(target(t, k)->Some_0.features, k, 0) < target(t, k)->Some_0.features.len(),
    decreases t, t.children.len() + 1,
{
    if neg_from(t.features, k, 0) >= t.features.len() {
        lemma_target_from_has_neg(t, k, 0);
    }
}

/// A target found for `k` among the subtrees from the `i`-th on carries `Neg(k)`.
pub proof fn lemma_target_from_has_neg(t: Tree, k: u8, i: int)
    requires
        target_from(t, k, i) is Some,
    ensures
        neg_from(target_from(t, k, i)->Some_0.features, k, 0) < target_from(
            t,
            k,
            i,
        )->Some_0.features.len(),
    decreases t, t.children.len() - i,
{
    if 0 <= i < t.children.len() {
        if target(t.children[i], k) is Some {
            lemma_target_has_neg(t.children[i], k);
        } else {
            lemma_target_from_has_neg(t, k, i + 1);
        }
    }
}

/// A successful move removes exactly the first positive feature from the root, and
/// exactly one `Neg(k)` from the copy of the target.
pub proof fn lemma_move_removes_pair(t: Tree)
    requires
        move_tree(t) is Some,
    ensures
        ({
            let p = pos_from(t.features, 0);
            let k = t.features[p]->Pos_0;
            let x = target(t, k)->Some_0;
            let n = neg_from(x.features, k, 0);
            let m = move_tree(t)->Some_0;
            &&& 0 <= p < t.features.len()
            &&& t.features[p] is Pos
            &&& m.features == t.features.remove(p)
            &&& 0 <= n < x.features.len()
            &&& x.features[n] == Feature::Neg(k)
            &&& m.children[0].features == x.features.remove(n)
            &&& m.children[1] == t
        }),
{
    let p = pos_from(t.features, 0);
    lemma_pos_from(t.features, 0);
    let k = t.features[p]->Pos_0;
    lemma_target_has_neg(t, k);
    let x = target(t, k)->Some_0;
    lemma_neg_from(x.features, k, 0);
}

/// `sel_from` finds the first selector at or after `i`.
pub proof fn lemma_sel_from(fs: Seq<Feature>, i: int)
    requires
        0 <= i <= fs.len(),
    ensures
        i <= sel_from(fs, i) <= fs.len(),
        sel_from(fs, i) < fs.len() ==> fs[sel_from(fs, i)] is Sel,
        forall|q: int| i <= q < sel_from(fs, i) ==> !(#[trigger] fs[q] is Sel),
    decreases fs.len() - i,
{
    if i < fs.len() {
        lemma_sel_from(fs, i + 1);
    }
}

/// `cat_from` finds the first `Cat(c)` at or after `i`.
pub proof fn lemma_cat_from(fs: Seq<Feature>, c: Category, i: int)
    requires
        0 <= i <= fs.len(),
    ensures
        i <= cat_from(fs, c, i) <= fs.len(),
        cat_from(fs, c, i) < fs.len() ==> fs[cat_from(fs, c, i)] == Feature::Cat(c),
        forall|q: int| i <= q < cat_from(fs, c, i) ==> #[trigger] fs[q] != Feature::Cat(c),
    decreases fs.len() - i,
{
    if i < fs.len() {
        lemma_cat_from(fs, c, i + 1);
    }
}

/// `pos_from` finds the first positive feature at or after `i`.
pub proof fn lemma_pos_from(fs: Seq<Feature>, i: int)
    requires
        0 <= i <= fs.len(),
    ensures
        i <= pos_from(fs, i) <= fs.len(),
        pos_from(fs, i) < fs.len() ==> fs[pos_from(fs, i)] is Pos,
        forall|q: int| i <= q < pos_from(fs, i) ==> !(#[trigger] fs[q] is Pos),
    decreases fs.len() - i,
{
    if i < fs.len() {
        lemma_pos_from(fs, i + 1);
    }
}

/// `neg_from` finds the first `Neg(k)` at or after `i`.
pub proof fn lemma_neg_from(fs: Seq<Feature>, k: u8, i: int)
    requires
        0 <= i <= fs.len(),
    ensures
        i <= neg_from(fs, k, i) <= fs.len(),
        neg_from(fs, k, i) < fs.len() ==> fs[neg_from(fs, k, i)] == Feature::Neg(k),
        forall|q: int| i <= q < neg_from(fs, k, i) ==> #[trigger] fs[q] != Feature::Neg(k),
    decreases fs.len() - i,
{
    if i < fs.len() {
        lemma_neg_from(fs, k, i + 1);
    }
}

} // verus!
