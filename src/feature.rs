use vstd::prelude::*;

verus! {

/// Syntactic category labels.
#[derive(Debug, Clone, Copy, PartialEq, Eq, Hash, Structural)]
pub enum Category {
    /// Noun
    N,
    /// Verb
    V,
    /// Determiner
    D,
    /// Complementizer
    C,
    /// Sentence
    S,
    /// Noun phrase
    NP,
    /// Verb phrase
    VP,
    /// Determiner phrase
    DP,
    /// Complementizer phrase
    CP,
    /// A generic telemetry event
    Event,
    /// A command event, such as a motor start
    Command,
    /// A state-checking event, such as a current draw
    State,
    /// The overall mission context
    Context,
}

/// Feature types of a minimalist grammar.
#[derive(Debug, Clone, PartialEq)]
pub enum Feature {
    /// Category feature
    Cat(Category),
    /// Selector feature: asks for a merge with the given category
    Sel(Category),
    /// Positive movement feature: triggers movement
    Pos(u8),
    /// Negative movement feature: marks the movement target
    Neg(u8),
    /// Context tag, untouched by merge and move
    Ctx(String),
}

impl Feature {
    /// The movement index of a movement feature.
    pub open spec fn spec_movement_index(self) -> Option<u8> {
        match self {
            Feature::Pos(i) => Some(i),
            Feature::Neg(i) => Some(i),
            _ => None,
        }
    }

    /// Whether the feature is positive (triggers movement).
    pub fn is_positive(&self) -> (r: bool)
        ensures
            r == (*self is Pos),
    {
        matches!(self, Feature::Pos(_))
    }

    /// Whether the feature is negative (a movement target).
    pub fn is_negative(&self) -> (r: bool)
        ensures
            r == (*self is Neg),
    {
        matches!(self, Feature::Neg(_))
    }

    /// The movement index, for positive and negative features alike.
    pub fn movement_index(&self) -> (r: Option<u8>)
        ensures
            r == self.spec_movement_index(),
    {
        match self {
            Feature::Pos(i) => Some(*i),
            Feature::Neg(i) => Some(*i),
            _ => None,
        }
    }

    /// A copy of the feature, equal to it.
    pub fn copy(&self) -> (r: Feature)
        ensures
            r == *self,
    {
        match self {
            Feature::Cat(c) => Feature::Cat(*c),
            Feature::Sel(c) => Feature::Sel(*c),
            Feature::Pos(i) => Feature::Pos(*i),
            Feature::Neg(i) => Feature::Neg(*i),
            Feature::Ctx(s) => Feature::Ctx(s.clone()),
        }
    }
}

/// A copy of a feature sequence, element for element.
pub fn copy_features(fs: &Vec<Feature>) -> (r: Vec<Feature>)
    ensures
        r@ == fs@,
{
    let mut r: Vec<Feature> = Vec::new();
    let mut i: usize = 0;
    while i < fs.len()
        invariant
            i <= fs.len(),
            r@ == fs@.subrange(0, i as int),
        decreases fs.len() - i,
    {
        r.push(fs[i].copy());
        i += 1;
    }
    assert(r@ =~= fs@);
    r
}

/// Lexical item: a surface form with its feature bundle.
#[derive(Debug, Clone, PartialEq)]
pub struct LexItem {
    /// Phonological form
    pub phon: String,
    /// Feature bundle
    pub feats: Vec<Feature>,
}

impl LexItem {
    /// Creates a lexical item.
    pub fn new(phon: &str, feats: &[Feature]) -> (r: LexItem)
        ensures
            r.phon@ == phon@,
            r.feats@ == feats@,
    {
        let mut v: Vec<Feature> = Vec::new();
        let mut i: usize = 0;
        while i < feats.len()
            invariant
                i <= feats@.len(),
                v@ == feats@.subrange(0, i as int),
            decreases feats@.len() - i,
        {
            v.push(feats[i].copy());
            i += 1;
        }
        assert(v@ =~= feats@);
        LexItem { phon: phon.to_string(), feats: v }
    }
}

} // verus!
