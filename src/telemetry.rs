use vstd::prelude::*;
use crate::feature::{Category, Feature, LexItem};
use crate::lexicon::{entries, lookup, lookup_from};
use crate::operations::{can_merge, can_merge_tree};
use crate::patterns::texts;
use crate::syntax::{leaf_tree, SyntacticObject};

verus! {

/// The note for two events in a row that break the grammar.
pub open spec fn ungrammatical_note(prev: Seq<char>, cur: Seq<char>) -> Seq<char> {
    "Anomaly Detected: Ungrammatical sequence '"@ + prev + "' followed by '"@ + cur
        + "'. This violates operational rules."@
}

/// The note for two events in a row of which the lexicon lacks one or both.
pub open spec fn unknown_note(prev: Seq<char>, cur: Seq<char>) -> Seq<char> {
    "Anomaly Detected: Unknown event(s) in sequence ['"@ + prev + "', '"@ + cur + "']."@
}

/// The note, if any, for the window of two events `prev`, `cur`: none when both are
/// known and the first can select the second.
pub open spec fn window_note(
    lex: Seq<(Seq<char>, Seq<Feature>)>,
    prev: Seq<char>,
    cur: Seq<char>,
) -> Option<Seq<char>> {
    let i = lookup_from(lex, prev, 0);
    let j = lookup_from(lex, cur, 0);
    if i < lex.len() && j < lex.len() {
        if can_merge_tree(leaf_tree(lex[i].0, lex[i].1), leaf_tree(lex[j].0, lex[j].1)) {
            None
        } else {
            Some(ungrammatical_note(prev, cur))
        }
    } else {
        Some(unknown_note(prev, cur))
    }
}

/// The notes for the first `k` windows of the log, in order.
pub open spec fn notes_upto(lex: Seq<(Seq<char>, Seq<Feature>)>, log: Seq<Seq<char>>, k: int) -> Seq<Seq<char>>
    decreases k,
{
    if k <= 0 || k >= log.len() {
        Seq::empty()
    } else {
        let before = notes_upto(lex, log, k - 1);
        match window_note(lex, log[k - 1], log[k]) {
            Some(m) => before.push(m),
            None => before,
        }
    }
}

/// The notes for every window of two consecutive events of the log.
pub open spec fn log_notes(lex: Seq<(Seq<char>, Seq<Feature>)>, log: Seq<Seq<char>>) -> Seq<Seq<char>> {
    if log.len() == 0 {
        Seq::empty()
    } else {
        notes_upto(lex, log, log.len() - 1)
    }
}

/// Checks every two consecutive events of a log against a lexicon, and explains each
/// window in which an event is unknown or the first cannot select the second.
pub fn log_anomalies(log: &Vec<String>, lexicon: &Vec<LexItem>) -> (r: Vec<String>)
    ensures
        texts(r@) == log_notes(entries(lexicon@), texts(log@)),
{
    let ghost lg = texts(log@);
    let mut notes: Vec<String> = Vec::new();
    if log.len() == 0 {
        proof {
            assert(texts(notes@) =~= Seq::<Seq<char>>::empty());
        }
        return notes;
    }
    let mut k: usize = 1;
    proof {
        assert(texts(notes@) =~= Seq::<Seq<char>>::empty());
    }
    while k < log.len()
        invariant
            lg == texts(log@),
            1 <= k <= log@.len(),
            texts(notes@) == notes_upto(entries(lexicon@), lg, k - 1),
        decreases log@.len() - k,
    {
        let prev = &log[k - 1];
        let cur = &log[k];
        proof {
            assert(lg[k - 1] == prev@);
            assert(lg[k as int] == cur@);
        }
        let i = lookup(lexicon.as_slice(), prev.as_str());
        let j = lookup(lexicon.as_slice(), cur.as_str());
        let ghost before = texts(notes@);
        if i < lexicon.len() && j < lexicon.len() {
            proof {
                assert(entries(lexicon@)[i as int] == (lexicon@[i as int].phon@, lexicon@[i as int].feats@));
                assert(entries(lexicon@)[j as int] == (lexicon@[j as int].phon@, lexicon@[j as int].feats@));
            }
            let a = SyntacticObject::from_lex(&lexicon[i]);
            let b = SyntacticObject::from_lex(&lexicon[j]);
            if !can_merge(&a, &b) {
                let mut m = "Anomaly Detected: Ungrammatical sequence '".to_string();
                m.append(prev.as_str());
                m.append("' followed by '");
                m.append(cur.as_str());
                m.append("'. This violates operational rules.");
                notes.push(m);
                proof {
                    assert(texts(notes@) =~= before.push(ungrammatical_note(prev@, cur@)));
                }
            }
        } else {
            let mut m = "Anomaly Detected: Unknown event(s) in sequence ['".to_string();
            m.append(prev.as_str());
            m.append("', '");
            m.append(cur.as_str());
            m.append("'].");
            notes.push(m);
            proof {
                assert(texts(notes@) =~= before.push(unknown_note(prev@, cur@)));
            }
        }
        k += 1;
    }
    notes
}

/// The entries of the rover operations grammar.
pub open spec fn mission_entries() -> Seq<(Seq<char>, Seq<Feature>)> {
    let cmd = seq![Feature::Cat(Category::Command), Feature::Sel(Category::State)];
    let chain = seq![Feature::Cat(Category::State), Feature::Sel(Category::State)];
    seq![
        ("MOTOR_CMD_START"@, cmd),
        ("MOTOR_CMD_STOP"@, cmd),
        ("INSTRUMENT_PWR_ON"@, cmd),
        ("INSTRUMENT_PWR_OFF"@, cmd),
        ("VOLTAGE_SPIKE"@, seq![Feature::Cat(Category::State)]),
        ("CURRENT_DRAW"@, chain),
        ("WHEEL_RPM"@, chain),
        ("TEMP_MOTOR"@, chain),
        ("TEMP_INSTRUMENT"@, chain),
        ("SPECTROMETER_READ"@, chain),
    ]
}

/// The grammar of rover operations: a command selects a state, and most states
/// select another state.
pub fn mission_lexicon() -> (r: Vec<LexItem>)
    ensures
        entries(r@) == mission_entries(),
{
    let cmd = [Feature::Cat(Category::Command), Feature::Sel(Category::State)];
    let chain = [Feature::Cat(Category::State), Feature::Sel(Category::State)];
    let mut v: Vec<LexItem> = Vec::new();
    v.push(LexItem::new("MOTOR_CMD_START", &cmd));
    v.push(LexItem::new("MOTOR_CMD_STOP", &cmd));
    v.push(LexItem::new("INSTRUMENT_PWR_ON", &cmd));
    v.push(LexItem::new("INSTRUMENT_PWR_OFF", &cmd));
    v.push(LexItem::new("VOLTAGE_SPIKE", &[Feature::Cat(Category::State)]));
    v.push(LexItem::new("CURRENT_DRAW", &chain));
    v.push(LexItem::new("WHEEL_RPM", &chain));
    v.push(LexItem::new("TEMP_MOTOR", &chain));
    v.push(LexItem::new("TEMP_INSTRUMENT", &chain));
    v.push(LexItem::new("SPECTROMETER_READ", &chain));
    proof {
        assert(entries(v@)[0] == mission_entries()[0]);
        assert(entries(v@)[1] == mission_entries()[1]);
        assert(entries(v@)[2] == mission_entries()[2]);
        assert(entries(v@)[3] == mission_entries()[3]);
        assert(entries(v@)[4] == mission_entries()[4]);
        assert(entries(v@)[5] == mission_entries()[5]);
        assert(entries(v@)[6] == mission_entries()[6]);
        assert(entries(v@)[7] == mission_entries()[7]);
        assert(entries(v@)[8] == mission_entries()[8]);
        assert(entries(v@)[9] == mission_entries()[9]);
        assert(entries(v@) =~= mission_entries());
    }
    v
}

/// The anomalies of a mission log under the rover operations grammar.
pub fn mission_log_anomalies(log: &Vec<String>) -> (r: Vec<String>)
    ensures
        texts(r@) == log_notes(mission_entries(), texts(log@)),
{
    let lexicon = mission_lexicon();
    log_anomalies(log, &lexicon)
}

} // verus!
