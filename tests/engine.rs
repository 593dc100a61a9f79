use atomic_lang_model::derivation;
use atomic_lang_model::{
    can_generate, can_merge, find_mergeable_pairs, generate_an_bn, generate_pattern,
    is_an_bn_pattern, is_an_bn_tokens, merge, mission_log_anomalies, move_operation,
    parse_sentence, step, test_lexicon, Category, DerivationError, Feature, LexItem,
    SyntacticObject, Workspace,
};

fn leaf(phon: &str, feats: &[Feature]) -> SyntacticObject {
    SyntacticObject::from_lex(&LexItem::new(phon, feats))
}

#[test]
fn test_feature_operations() {
    let pos_feat = Feature::Pos(1);
    let neg_feat = Feature::Neg(1);

    assert!(pos_feat.is_positive());
    assert!(!pos_feat.is_negative());
    assert!(!neg_feat.is_positive());
    assert!(neg_feat.is_negative());

    assert_eq!(pos_feat.movement_index(), Some(1));
    assert_eq!(neg_feat.movement_index(), Some(1));
}

#[test]
fn test_an_bn_generation() {
    assert_eq!(generate_an_bn(0), "");
    assert_eq!(generate_an_bn(1), "a b");
    assert_eq!(generate_an_bn(2), "a a b b");
    assert_eq!(generate_an_bn(3), "a a a b b b");
}

#[test]
fn test_an_bn_recognition() {
    assert!(is_an_bn_pattern(""));
    assert!(is_an_bn_pattern("a b"));
    assert!(is_an_bn_pattern("a a b b"));
    assert!(is_an_bn_pattern("a a a b b b"));

    assert!(!is_an_bn_pattern("a"));
    assert!(!is_an_bn_pattern("a a b"));
    assert!(!is_an_bn_pattern("a b b"));
}

#[test]
fn test_recursive_capability() {
    for n in 0..=5 {
        assert!(can_generate("an_bn", n));
    }
}

#[test]
fn test_merge_operation() {
    let det = SyntacticObject::from_lex(&LexItem::new("the", &[Feature::Cat(Category::D)]));
    let noun = SyntacticObject::from_lex(&LexItem::new("student", &[Feature::Cat(Category::N)]));

    // no selector feature: the merge fails
    assert!(merge(det.clone(), noun.clone()).is_err());

    let det_sel = SyntacticObject {
        features: vec![Feature::Sel(Category::N)],
        ..det
    };

    let merged = merge(det_sel, noun).unwrap();
    assert_eq!(merged.label, Category::D);
}

#[test]
fn test_workspace_operations() {
    let mut workspace = Workspace::new(1024);
    let lexicon = test_lexicon();

    workspace.add_lex(&lexicon[0]); // "the"
    workspace.add_lex(&lexicon[2]); // "student"

    assert_eq!(workspace.items.len(), 2);
    assert!(!workspace.is_successful());
}

#[test]
fn generated_text_is_recognised() {
    for n in 0..8 {
        let text = generate_pattern("an_bn", n).unwrap();
        assert!(is_an_bn_pattern(&text));
        assert_eq!(text.split(' ').filter(|w| *w == "a").count(), n);
        assert_eq!(text.split(' ').filter(|w| *w == "b").count(), n);
    }
    assert_eq!(generate_pattern("an_bn", 0).unwrap(), "");
}

#[test]
fn unknown_pattern_is_rejected() {
    assert_eq!(generate_pattern("anbn", 2), Err(DerivationError::InvalidOperation));
    assert!(!can_generate("", 1));
}

#[test]
fn recogniser_rejects_mixed_orders() {
    assert!(!is_an_bn_pattern("b a"));
    assert!(!is_an_bn_pattern("a b a b"));
    assert!(!is_an_bn_pattern("a c"));
    assert!(is_an_bn_pattern("  a   b  "));
    let tokens = vec!["a".to_string(), "a".to_string(), "b".to_string(), "b".to_string()];
    assert!(is_an_bn_tokens(&tokens));
    let odd = vec!["a".to_string(), "b".to_string(), "b".to_string()];
    assert!(!is_an_bn_tokens(&odd));
}

#[test]
fn merge_removes_one_selector_and_one_category() {
    let a = leaf(
        "the",
        &[Feature::Cat(Category::D), Feature::Sel(Category::N), Feature::Sel(Category::V)],
    );
    let b = leaf(
        "student",
        &[Feature::Ctx("x".to_string()), Feature::Cat(Category::N), Feature::Cat(Category::N)],
    );
    let m = merge(a, b).unwrap();
    assert_eq!(m.label, Category::D);
    assert_eq!(
        m.features,
        vec![
            Feature::Cat(Category::D),
            Feature::Sel(Category::V),
            Feature::Ctx("x".to_string()),
            Feature::Cat(Category::N),
        ]
    );
    assert_eq!(m.children.len(), 2);
    assert_eq!(m.phon, None);
    assert_eq!(m.linearize(), "the student");
}

#[test]
fn merge_without_selector_fails_whatever_the_other() {
    let a = leaf("left", &[Feature::Cat(Category::V)]);
    let b = leaf("x", &[Feature::Sel(Category::V), Feature::Cat(Category::V)]);
    assert_eq!(merge(a, b), Err(DerivationError::FeatureMismatch));
}

#[test]
fn merge_tries_only_the_first_selector() {
    let a = leaf("a", &[Feature::Sel(Category::V), Feature::Sel(Category::N)]);
    let b = leaf("b", &[Feature::Cat(Category::N)]);
    assert!(can_merge(&a, &b));
    assert_eq!(merge(a, b), Err(DerivationError::FeatureMismatch));
}

#[test]
fn move_needs_a_positive_feature() {
    let obj = leaf("x", &[Feature::Neg(1), Feature::Cat(Category::V)]);
    assert_eq!(move_operation(obj), Err(DerivationError::NoValidOperations));
}

#[test]
fn move_needs_a_matching_target() {
    let obj = leaf("x", &[Feature::Pos(1), Feature::Neg(2)]);
    assert_eq!(move_operation(obj), Err(DerivationError::NoValidOperations));
}

#[test]
fn move_copies_the_target_to_the_edge() {
    let head = leaf("said", &[Feature::Sel(Category::D)]);
    let wh = leaf("what", &[Feature::Cat(Category::D), Feature::Neg(1)]);
    let vp = merge(head, wh).unwrap();
    assert_eq!(vp.features, vec![Feature::Neg(1)]);
    let root = SyntacticObject::internal(
        Category::C,
        vec![Feature::Pos(1), Feature::Ctx("q".to_string())],
        vec![vp],
    );
    let moved = move_operation(root).unwrap();
    assert_eq!(moved.label, Category::C);
    assert_eq!(moved.features, vec![Feature::Ctx("q".to_string())]);
    assert_eq!(moved.children.len(), 2);
    // the first node in pre-order carrying Neg(1) is the merged phrase
    assert_eq!(moved.children[0].features, Vec::<Feature>::new());
    assert_eq!(moved.children[0].linearize(), "said what");
    assert_eq!(moved.children[1].features, vec![Feature::Pos(1), Feature::Ctx("q".to_string())]);
    assert_eq!(moved.linearize(), "said what said what");
}

#[test]
fn mergeable_pairs_are_listed_in_order() {
    let mut ws = Workspace::new(100);
    let lex = test_lexicon();
    ws.add_lex(&lex[2]); // student
    ws.add_lex(&lex[0]); // the
    ws.add_lex(&lex[1]); // a
    assert_eq!(find_mergeable_pairs(&ws), vec![(1, 0), (2, 0)]);
}

#[test]
fn step_merges_the_first_pair() {
    let mut ws = Workspace::new(100);
    let lex = test_lexicon();
    ws.add_lex(&lex[2]); // student
    ws.add_lex(&lex[0]); // the
    assert_eq!(step(&mut ws), Ok(()));
    assert_eq!(ws.items.len(), 1);
    assert_eq!(ws.step_count, 1);
    assert_eq!(ws.items[0].label, Category::D);
    assert_eq!(ws.items[0].features, vec![Feature::Cat(Category::D)]);
    assert_eq!(ws.items[0].linearize(), "the student");
}

#[test]
fn step_binds_the_left_operand_to_the_larger_index() {
    let mut ws = Workspace::new(100);
    let lex = test_lexicon();
    ws.add_lex(&lex[0]); // the
    ws.add_lex(&lex[2]); // student
    assert_eq!(step(&mut ws), Err(DerivationError::FeatureMismatch));
    assert_eq!(ws.items.len(), 0);
}

#[test]
fn step_on_empty_workspace() {
    let mut ws = Workspace::new(100);
    assert_eq!(step(&mut ws), Err(DerivationError::EmptyWorkspace));
    assert_eq!(ws.step_count, 0);
}

#[test]
fn step_stops_at_the_memory_limit() {
    let mut ws = Workspace::new(1);
    let lex = test_lexicon();
    ws.add_lex(&lex[2]);
    ws.add_lex(&lex[0]);
    assert_eq!(ws.memory_usage(), 2);
    assert_eq!(step(&mut ws), Err(DerivationError::MemoryLimitExceeded));
    assert_eq!(ws.items.len(), 2);
    assert_eq!(ws.step_count, 1);
}

#[test]
fn step_reports_when_stuck() {
    let mut ws = Workspace::new(100);
    let lex = test_lexicon();
    ws.add_lex(&lex[9]); // left
    assert_eq!(step(&mut ws), Err(DerivationError::NoValidOperations));
}

#[test]
fn derive_returns_a_complete_object() {
    let mut ws = Workspace::new(100);
    ws.add_lex(&LexItem::new("left", &[]));
    let r = derivation::derive(&mut ws, 10).unwrap();
    assert!(r.is_complete());
    assert_eq!(r.label, Category::N);
    assert_eq!(r.linearize(), "left");
    assert_eq!(ws.step_count, 0);
}

#[test]
fn derive_merges_to_completion() {
    let mut ws = Workspace::new(100);
    ws.add_lex(&LexItem::new("student", &[Feature::Cat(Category::N)]));
    ws.add_lex(&LexItem::new("the", &[Feature::Sel(Category::N)]));
    let r = derivation::derive(&mut ws, 10).unwrap();
    assert!(r.is_complete());
    assert_eq!(r.linearize(), "the student");
    assert_eq!(ws.step_count, 1);
}

#[test]
fn derive_with_no_steps_left() {
    let mut ws = Workspace::new(100);
    ws.add_lex(&LexItem::new("student", &[Feature::Cat(Category::N)]));
    ws.add_lex(&LexItem::new("the", &[Feature::Sel(Category::N)]));
    assert_eq!(derivation::derive(&mut ws, 0), Err(DerivationError::NoValidOperations));
    assert_eq!(ws.items.len(), 2);
}

#[test]
fn derive_propagates_the_memory_error() {
    let mut ws = Workspace::new(1);
    ws.add_lex(&LexItem::new("student", &[Feature::Cat(Category::N)]));
    ws.add_lex(&LexItem::new("the", &[Feature::Sel(Category::N)]));
    assert_eq!(derivation::derive(&mut ws, 5), Err(DerivationError::MemoryLimitExceeded));
}

#[test]
fn parse_the_student_left() {
    let lex = test_lexicon();
    // "the" sits left of "student", so the first pair binds "student" as the left
    // operand, which has no selector
    assert_eq!(
        parse_sentence("the student left", &lex),
        Err(DerivationError::FeatureMismatch)
    );
}

#[test]
fn parse_forms_a_phrase_then_stops() {
    let lex = test_lexicon();
    // one merge leaves a phrase that still carries its category
    assert_eq!(parse_sentence("student the", &lex), Err(DerivationError::NoValidOperations));
    let lex2 = vec![
        LexItem::new("the", &[Feature::Sel(Category::N)]),
        LexItem::new("student", &[Feature::Cat(Category::N)]),
    ];
    let r = parse_sentence("student the", &lex2).unwrap();
    assert!(r.is_complete());
    assert_eq!(r.label, Category::N);
    assert_eq!(r.linearize(), "the student");
}

#[test]
fn parse_reports_unknown_words() {
    let lex = test_lexicon();
    assert_eq!(
        parse_sentence("the dog left", &lex),
        Err(DerivationError::UnknownToken("dog".to_string()))
    );
    assert_eq!(
        DerivationError::UnknownToken("dog".to_string()).message(),
        "Unknown token: dog"
    );
}

#[test]
fn parse_is_deterministic() {
    let lex = vec![
        LexItem::new("the", &[Feature::Sel(Category::N)]),
        LexItem::new("student", &[Feature::Cat(Category::N)]),
    ];
    let a = parse_sentence("student the", &lex).unwrap();
    let b = parse_sentence("student the", &lex).unwrap();
    assert_eq!(a.label, b.label);
    assert_eq!(a.features, b.features);
    assert_eq!(a.linearize(), b.linearize());
    assert_eq!(a, b);
}

#[test]
fn parse_of_empty_text() {
    let lex = test_lexicon();
    assert_eq!(parse_sentence("", &lex), Err(DerivationError::EmptyWorkspace));
}

#[test]
fn leaf_defaults_to_noun() {
    let o = leaf("x", &[Feature::Sel(Category::V), Feature::Cat(Category::S)]);
    assert_eq!(o.label, Category::S);
    let o2 = leaf("y", &[Feature::Pos(3)]);
    assert_eq!(o2.label, Category::N);
    assert_eq!(o2.phon, Some("y".to_string()));
    assert!(!o2.is_complete());
    assert_eq!(Feature::Ctx("c".to_string()).movement_index(), None);
}

#[test]
fn mission_log_windows() {
    let good = vec!["MOTOR_CMD_START".to_string(), "CURRENT_DRAW".to_string(), "VOLTAGE_SPIKE".to_string()];
    assert!(mission_log_anomalies(&good).is_empty());

    let bad = vec!["VOLTAGE_SPIKE".to_string(), "MOTOR_CMD_START".to_string()];
    assert_eq!(
        mission_log_anomalies(&bad),
        vec!["Anomaly Detected: Ungrammatical sequence 'VOLTAGE_SPIKE' followed by 'MOTOR_CMD_START'. This violates operational rules.".to_string()]
    );

    let unknown = vec!["CTX_DRIVE".to_string(), "MOTOR_CMD_START".to_string(), "VOLTAGE_SPIKE".to_string()];
    assert_eq!(
        mission_log_anomalies(&unknown),
        vec!["Anomaly Detected: Unknown event(s) in sequence ['CTX_DRIVE', 'MOTOR_CMD_START'].".to_string()]
    );
    assert!(mission_log_anomalies(&vec![]).is_empty());
    assert!(mission_log_anomalies(&vec!["X".to_string()]).is_empty());
}

#[test]
fn error_messages() {
    assert_eq!(DerivationError::NoValidOperations.message(), "No valid operations available");
    assert_eq!(DerivationError::MemoryLimitExceeded.message(), "Memory limit exceeded");
    assert_eq!(DerivationError::FeatureMismatch.message(), "Feature mismatch");
    assert_eq!(DerivationError::EmptyWorkspace.message(), "Empty workspace");
    assert_eq!(DerivationError::InvalidOperation.message(), "Invalid operation");
}

#[test]
fn memory_guard_with_three_leaves() {
    let mut ws = Workspace::new(1);
    let lex = test_lexicon();
    ws.add_lex(&lex[2]);
    ws.add_lex(&lex[0]);
    ws.add_lex(&lex[9]);
    assert_eq!(step(&mut ws), Err(DerivationError::MemoryLimitExceeded));
    assert_eq!(ws.items.len(), 3);
    assert_eq!(ws.items[0].linearize(), "student");
}

#[test]
fn log_anomalies_with_own_lexicon() {
    let lex = vec![
        LexItem::new("GO", &[Feature::Sel(Category::State)]),
        LexItem::new("OK", &[Feature::Cat(Category::State)]),
    ];
    let log = vec!["GO".to_string(), "OK".to_string(), "GO".to_string()];
    assert_eq!(
        atomic_lang_model::log_anomalies(&log, &lex),
        vec!["Anomaly Detected: Ungrammatical sequence 'OK' followed by 'GO'. This violates operational rules.".to_string()]
    );
    assert_eq!(atomic_lang_model::mission_lexicon().len(), 10);
}
