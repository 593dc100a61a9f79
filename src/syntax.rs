use vstd::prelude::*;
use crate::feature::{copy_features, Category, Feature, LexItem};

verus! {

broadcast use vstd::std_specs::vec::group_vec_axioms;

/// Mathematical model of a syntactic object: a finite ordered tree.
pub struct Tree {
    pub label: Category,
    pub features: Seq<Feature>,
    pub children: Seq<Tree>,
    pub phon: Option<Seq<char>>,
}

/// Syntactic object in a derivation.
#[derive(Debug, PartialEq)]
pub struct SyntacticObject {
    /// Category label
    pub label: Category,
    /// Unchecked features
    pub features: Vec<Feature>,
    /// Child constituents
    pub children: Vec<SyntacticObject>,
    /// Phonological content (for leaves)
    pub phon: Option<String>,
}

/// The tree that an object denotes.
pub open spec fn tree_of(o: SyntacticObject) -> Tree
    decreases o, o.children@.len() + 1,
{
    Tree {
        label: o.label,
        features: o.features@,
        children: trees_upto(o, o.children@.len() as int),
        phon: match o.phon {
            Some(p) => Some(p@),
            None => None,
        },
    }
}

/// The trees of the first `n` children of `o`.
pub open spec fn trees_upto(o: SyntacticObject, n: int) -> Seq<Tree>
    decreases o, n,
{
    if n <= 0 || n > o.children@.len() {
        Seq::empty()
    } else {
        trees_upto(o, n - 1).push(tree_of(o.children@[n - 1]))
    }
}

impl View for SyntacticObject {
    type V = Tree;

    open spec fn view(&self) -> Tree {
        tree_of(*self)
    }
}

/// The trees of a sequence of objects.
pub open spec fn trees(s: Seq<SyntacticObject>) -> Seq<Tree> {
    s.map_values(|o: SyntacticObject| o@)
}

pub proof fn lemma_trees_upto(o: SyntacticObject, n: int)
    requires
        0 <= n <= o.children@.len(),
    ensures
        trees_upto(o, n).len() == n,
        forall|i: int| 0 <= i < n ==> #[trigger] trees_upto(o, n)[i] == o.children@[i]@,
    decreases n,
{
    if n > 0 {
        lemma_trees_upto(o, n - 1);
    }
}

/// The children of an object's tree are the trees of its children.
pub proof fn lemma_children_trees(o: SyntacticObject)
    ensures
        o@.children == trees(o.children@),
{
    lemma_trees_upto(o, o.children@.len() as int);
    assert(o@.children =~= trees(o.children@));
}

/// Number of nodes in a tree.
pub open spec fn node_count(t: Tree) -> nat
    decreases t, t.children.len() + 1,
{
    1 + count_upto(t, t.children.len() as int)
}

/// Number of nodes in the first `n` subtrees of `t`.
pub open spec fn count_upto(t: Tree, n: int) -> nat
    decreases t, n,
{
    if n <= 0 || n > t.children.len() {
        0
    } else {
        count_upto(t, n - 1) + node_count(t.children[n - 1])
    }
}

/// Number of nodes over a sequence of trees.
pub open spec fn total_nodes(s: Seq<Tree>) -> nat
    decreases s.len(),
{
    if s.len() == 0 {
        0
    } else {
        total_nodes(s.drop_last()) + node_count(s.last())
    }
}

/// Words of a tree in left-to-right order, joined by single spaces.
pub open spec fn lin(t: Tree) -> Seq<char>
    decreases t, t.children.len() + 1,
{
    match t.phon {
        Some(p) => p,
        None => lin_upto(t, t.children.len() as int),
    }
}

/// The linearizations of the first `n` subtrees of `t`, joined by spaces.
pub open spec fn lin_upto(t: Tree, n: int) -> Seq<char>
    decreases t, n,
{
    if n <= 0 || n > t.children.len() {
        Seq::empty()
    } else if n == 1 {
        lin(t.children[0])
    } else {
        lin_upto(t, n - 1) + seq![' '] + lin(t.children[n - 1])
    }
}

/// Label of a leaf built from a feature bundle: its first category, else noun.
pub open spec fn leaf_label_from(fs: Seq<Feature>, i: int) -> Category
    decreases fs.len() - i,
{
    if 0 <= i < fs.len() {
        if fs[i] is Cat {
            fs[i]->Cat_0
        } else {
            leaf_label_from(fs, i + 1)
        }
    } else {
        Category::N
    }
}

/// The leaf tree for a lexical item.
pub open spec fn leaf_tree(phon: Seq<char>, fs: Seq<Feature>) -> Tree {
    Tree { label: leaf_label_from(fs, 0), features: fs, children: Seq::empty(), phon: Some(phon) }
}

/// The inner node with the given parts.
pub open spec fn inner_tree(label: Category, fs: Seq<Feature>, children: Seq<Tree>) -> Tree {
    Tree { label, features: fs, children, phon: None }
}

impl SyntacticObject {
    /// Creates a leaf from a lexical item.
    pub fn from_lex(item: &LexItem) -> (r: SyntacticObject)
        ensures
            r@ == leaf_tree(item.phon@, item.feats@),
    {
        let mut label = Category::N;
        let mut i: usize = 0;
        while i < item.feats.len()
            invariant_except_break
                label == Category::N,
            invariant
                i <= item.feats@.len(),
                leaf_label_from(item.feats@, 0) == leaf_label_from(item.feats@, i as int),
            ensures
                label == leaf_label_from(item.feats@, 0),
            decreases item.feats@.len() - i,
        {
            if let Feature::Cat(c) = &item.feats[i] {
                label = *c;
                break;
            }
            i += 1;
        }
        let r = SyntacticObject {
            label,
            features: copy_features(&item.feats),
            children: Vec::new(),
            phon: Some(item.phon.clone()),
        };
        proof {
            lemma_children_trees(r);
            assert(r@.children =~= Seq::<Tree>::empty());
        }
        r
    }

    /// Creates an inner node with the given children.
    pub fn internal(label: Category, features: Vec<Feature>, children: Vec<SyntacticObject>) -> (r:
        SyntacticObject)
        ensures
            r@ == inner_tree(label, features@, trees(children@)),
            r.children@ == children@,
    {
        let r = SyntacticObject { label, features, children, phon: None };
        proof {
            lemma_children_trees(r);
        }
        r
    }

    /// Whether no unchecked feature is left.
    pub fn is_complete(&self) -> (r: bool)
        ensures
            r == (self@.features.len() == 0),
    {
        self.features.len() == 0
    }

    /// The words of the object, left to right, joined by single spaces.
    pub fn linearize(&self) -> (r: String)
        ensures
            r@ == lin(self@),
        decreases self,
    {
        match &self.phon {
            Some(p) => p.clone(),
            None => {
                proof {
                    lemma_children_trees(*self);
                }
                let mut s = String::new();
                let mut i: usize = 0;
                while i < self.children.len()
                    invariant
                        self.phon is None,
                        i <= self.children@.len(),
                        self@.children == trees(self.children@),
                        s@ == lin_upto(self@, i as int),
                    decreases self.children@.len() - i,
                {
                    proof {
                        assert(decreases_to!(self.children => self.children[i as int]));
                    }
                    let w = self.children[i].linearize();
                    if i > 0 {
                        s.append(" ");
                        proof {
                            reveal_strlit(" ");
                        }
                    }
                    s.append(w.as_str());
                    i += 1;
                }
                s
            },
        }
    }

    /// A deep copy of the object.
    pub fn copy(&self) -> (r: SyntacticObject)
        ensures
            r@ == self@,
        decreases self,
    {
        let mut kids: Vec<SyntacticObject> = Vec::new();
        let mut i: usize = 0;
        while i < self.children.len()
            invariant
                i <= self.children@.len(),
                kids@.len() == i,
                forall|j: int| 0 <= j < i ==> #[trigger] kids@[j]@ == self.children@[j]@,
            decreases self.children@.len() - i,
        {
            proof {
                assert(decreases_to!(self.children => self.children[i as int]));
            }
            let c = self.children[i].copy();
            kids.push(c);
            i += 1;
        }
        let phon = match &self.phon {
            Some(p) => Some(p.clone()),
            None => None,
        };
        let r = SyntacticObject {
            label: self.label,
            features: copy_features(&self.features),
            children: kids,
            phon,
        };
        proof {
            lemma_children_trees(r);
            lemma_children_trees(*self);
            assert(trees(r.children@) =~= trees(self.children@));
        }
        r
    }
}

impl Clone for SyntacticObject {
    fn clone(&self) -> (r: Self)
        ensures
            r@ == self@,
    {
        self.copy()
    }
}

} // verus!
