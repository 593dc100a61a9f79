use vstd::prelude::*;
use crate::derivation::{result_tree, run, Workspace};
use crate::error::DerivationError;
use crate::feature::{Category, Feature, LexItem};
use crate::patterns::{same_text, split_words, texts, words_of};
use crate::syntax::{leaf_tree, trees, SyntacticObject, Tree};

verus! {

/// Node budget of the workspace that `parse_sentence` seeds.
pub const PARSE_MEMORY_LIMIT: usize = 4096;

/// Step budget of the derivation that `parse_sentence` runs.
pub const PARSE_MAX_STEPS: usize = 100;

/// A lexicon as surface forms paired with feature bundles.
pub open spec fn entries(lex: Seq<LexItem>) -> Seq<(Seq<char>, Seq<Feature>)> {
    lex.map_values(|l: LexItem| (l.phon@, l.feats@))
}

/// Position of the first entry, from `i` on, whose surface form is `w`, or the length.
pub open spec fn lookup_from(lex: Seq<(Seq<char>, Seq<Feature>)>, w: Seq<char>, i: int) -> int
    decreases lex.len() - i,
{
    if 0 <= i < lex.len() {
        if lex[i].0 == w {
            i
        } else {
            lookup_from(lex, w, i + 1)
        }
    } else {
        lex.len() as int
    }
}

/// The leaves for a sequence of words, or the first word the lexicon lacks.
pub open spec fn leaves(words: Seq<Seq<char>>, lex: Seq<(Seq<char>, Seq<Feature>)>) -> Result<
    Seq<Tree>,
    Seq<char>,
>
    decreases words.len(),
{
    if words.len() == 0 {
        Ok(Seq::empty())
    } else {
        match leaves(words.drop_last(), lex) {
            Err(w) => Err(w),
            Ok(ts) => {
                let k = lookup_from(lex, words.last(), 0);
                if k < lex.len() {
                    Ok(ts.push(leaf_tree(lex[k].0, lex[k].1)))
                } else {
                    Err(words.last())
                }
            },
        }
    }
}

/// The entries of the sample lexicon.
pub open spec fn test_entries() -> Seq<(Seq<char>, Seq<Feature>)> {
    seq![
        ("the"@, seq![Feature::Cat(Category::D), Feature::Sel(Category::N)]),
        ("a"@, seq![Feature::Cat(Category::D), Feature::Sel(Category::N)]),
        ("student"@, seq![Feature::Cat(Category::N)]),
        ("tutor"@, seq![Feature::Cat(Category::N)]),
        ("teacher"@, seq![Feature::Cat(Category::N)]),
        ("who"@, seq![Feature::Cat(Category::C), Feature::Sel(Category::S)]),
        ("that"@, seq![Feature::Cat(Category::C), Feature::Sel(Category::S)]),
        ("said"@, seq![Feature::Cat(Category::V), Feature::Sel(Category::DP), Feature::Pos(1)]),
        ("thinks"@, seq![Feature::Cat(Category::V), Feature::Sel(Category::DP)]),
        ("left"@, seq![Feature::Cat(Category::V)]),
        ("smiled"@, seq![Feature::Cat(Category::V)]),
        ("arrived"@, seq![Feature::Cat(Category::V)]),
    ]
}

/// The sample lexicon for recursive patterns.
pub fn test_lexicon() -> (r: Vec<LexItem>)
    ensures
        entries(r@) == test_entries(),
{
    let mut v: Vec<LexItem> = Vec::new();
    v.push(LexItem::new("the", &[Feature::Cat(Category::D), Feature::Sel(Category::N)]));
    v.push(LexItem::new("a", &[Feature::Cat(Category::D), Feature::Sel(Category::N)]));
    v.push(LexItem::new("student", &[Feature::Cat(Category::N)]));
    v.push(LexItem::new("tutor", &[Feature::Cat(Category::N)]));
    v.push(LexItem::new("teacher", &[Feature::Cat(Category::N)]));
    v.push(LexItem::new("who", &[Feature::Cat(Category::C), Feature::Sel(Category::S)]));
    v.push(LexItem::new("that", &[Feature::Cat(Category::C), Feature::Sel(Category::S)]));
    v.push(LexItem::new("said", &[Feature::Cat(Category::V), Feature::Sel(Category::DP), Feature::Pos(1)]));
    v.push(LexItem::new("thinks", &[Feature::Cat(Category::V), Feature::Sel(Category::DP)]));
    v.push(LexItem::new("left", &[Feature::Cat(Category::V)]));
    v.push(LexItem::new("smiled", &[Feature::Cat(Category::V)]));
    v.push(LexItem::new("arrived", &[Feature::Cat(Category::V)]));
    proof {
        assert(entries(v@)[0] == test_entries()[0]);
        assert(entries(v@)[1] == test_entries()[1]);
        assert(entries(v@)[2] == test_entries()[2]);
        assert(entries(v@)[3] == test_entries()[3]);
        assert(entries(v@)[4] == test_entries()[4]);
        assert(entries(v@)[5] == test_entries()[5]);
        assert(entries(v@)[6] == test_entries()[6]);
        assert(entries(v@)[7] == test_entries()[7]);
        assert(entries(v@)[8] == test_entries()[8]);
        assert(entries(v@)[9] == test_entries()[9]);
        assert(entries(v@)[10] == test_entries()[10]);
        assert(entries(v@)[11] == test_entries()[11]);
        assert(entries(v@) =~= test_entries());
    }
    v
}

/// Position of the first item whose surface form is `w`, or the length.
pub(crate) fn lookup(lex: &[LexItem], w: &str) -> (r: usize)
    ensures
        r == lookup_from(entries(lex@), w@, 0),
{
    let ghost es = entries(lex@);
    let mut i: usize = 0;
    while i < lex.len()
        invariant
            es == entries(lex@),
            i <= lex@.len(),
            lookup_from(es, w@, 0) == lookup_from(es, w@, i as int),
        decreases lex@.len() - i,
    {
        proof {
            assert(es[i as int] == (lex@[i as int].phon@, lex@[i as int].feats@));
        }
        if same_text(lex[i].phon.as_str(), w) {
            return i;
        }
        i += 1;
    }
    i
}

/// `r` is what parsing the text `s` against `lex` gives: the first word the
/// lexicon lacks, else the outcome of the derivation over the words' leaves.
pub open spec fn parses_to(
    s: Seq<char>,
    lex: Seq<(Seq<char>, Seq<Feature>)>,
    r: Result<SyntacticObject, DerivationError>,
) -> bool {
    match leaves(words_of(s), lex) {
        Err(w) => r is Err && r->Err_0 is UnknownToken && r->Err_0->UnknownToken_0@ == w,
        Ok(ts) => result_tree(r) == run(ts, PARSE_MEMORY_LIMIT as int, PARSE_MAX_STEPS as nat).0,
    }
}

/// An outcome with the result's tree, or the error's text.
pub open spec fn outcome(r: Result<SyntacticObject, DerivationError>) -> Result<Tree, Seq<char>> {
    match r {
        Ok(o) => Ok(o@),
        Err(e) => Err(e.spec_message()),
    }
}

/// Parses a sentence: looks up each whitespace-separated word, seeds a workspace
/// with the leaves, and runs a bounded derivation.
pub fn parse_sentence(sentence: &str, lexicon: &[LexItem]) -> (r: Result<SyntacticObject, DerivationError>)
    ensures
        parses_to(sentence@, entries(lexicon@), r),
{
    let words = split_words(sentence);
    let ghost ws = texts(words@);
    let mut workspace = Workspace::new(PARSE_MEMORY_LIMIT);
    proof {
        assert(ws.take(0) =~= Seq::<Seq<char>>::empty());
        assert(trees(workspace.items@) =~= Seq::<Tree>::empty());
    }
    let mut i: usize = 0;
    while i < words.len()
        invariant
            ws == texts(words@),
            ws == words_of(sentence@),
            i <= words@.len(),
            leaves(ws.take(i as int), entries(lexicon@)) == Ok::<Seq<Tree>, Seq<char>>(
                trees(workspace.items@),
            ),
            workspace.memory_limit == PARSE_MEMORY_LIMIT,
            workspace.step_count == 0,
        decreases words@.len() - i,
    {
        proof {
            assert(ws.take(i as int + 1).drop_last() =~= ws.take(i as int));
            assert(ws[i as int] == words@[i as int]@);
        }
        let k = lookup(lexicon, words[i].as_str());
        if k >= lexicon.len() {
            proof {
                assert(leaves(ws.take(i as int + 1), entries(lexicon@)) == Err::<Seq<Tree>, Seq<char>>(
                    ws[i as int],
                ));
                lemma_leaves_err_prefix(ws, entries(lexicon@), i as int + 1);
            }
            return Err(DerivationError::UnknownToken(words[i].clone()));
        }
        proof {
            assert(entries(lexicon@)[k as int] == (lexicon@[k as int].phon@, lexicon@[k as int].feats@));
        }
        workspace.add_lex(&lexicon[k]);
        i += 1;
    }
    proof {
        assert(ws.take(i as int) =~= ws);
    }
    crate::derivation::derive(&mut workspace, PARSE_MAX_STEPS)
}

/// Once a prefix of the words holds an unknown word, the whole sequence reports it.
pub proof fn lemma_leaves_err_prefix(ws: Seq<Seq<char>>, lex: Seq<(Seq<char>, Seq<Feature>)>, n: int)
    requires
        0 <= n <= ws.len(),
        leaves(ws.take(n), lex) is Err,
    ensures
        leaves(ws, lex) == leaves(ws.take(n), lex),
    decreases ws.len() - n,
{
    if n < ws.len() {
        assert(ws.take(n + 1).drop_last() =~= ws.take(n));
        lemma_leaves_err_prefix(ws, lex, n + 1);
    } else {
        assert(ws.take(n) =~= ws);
    }
}

/// Parsing has no hidden input: two results for one text and one lexicon agree.
pub proof fn lemma_parse_deterministic(
    s: Seq<char>,
    lex: Seq<(Seq<char>, Seq<Feature>)>,
    r1: Result<SyntacticObject, DerivationError>,
    r2: Result<SyntacticObject, DerivationError>,
)
    requires
        parses_to(s, lex, r1),
        parses_to(s, lex, r2),
    ensures
        outcome(r1) == outcome(r2),
{
    match leaves(words_of(s), lex) {
        Err(w) => {},
        Ok(ts) => {
            assert(result_tree(r1) == result_tree(r2));
        },
    }
}

} // verus!
