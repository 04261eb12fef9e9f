use sapio::clause::{Clause, WitnessData};

fn key(b: u8) -> Clause {
    Clause::Key(vec![b; 33])
}

#[test]
fn normalize_flattens_nested_and() {
    let c = Clause::And(vec![Clause::And(vec![key(1), key(2)]), key(3)]);
    let n = c.normalize();
    let expected = Clause::And(vec![key(1), key(2), key(3)]);
    assert!(n.structural_eq(&expected));
}

#[test]
fn normalize_drops_trivial_and_dedups() {
    let c = Clause::And(vec![Clause::Trivial, key(1), key(1)]);
    let n = c.normalize();
    assert!(n.structural_eq(&key(1)));
}

#[test]
fn normalize_unsatisfiable_absorbs_and() {
    let c = Clause::And(vec![key(1), Clause::Unsatisfiable]);
    let n = c.normalize();
    assert!(n.structural_eq(&Clause::Unsatisfiable));
}

#[test]
fn normalize_trivial_absorbs_or() {
    let c = Clause::Or(vec![key(1), Clause::Trivial]);
    let n = c.normalize();
    assert!(n.structural_eq(&Clause::Trivial));
}

#[test]
fn normalize_or_drops_unsatisfiable_disjuncts() {
    let c = Clause::Or(vec![Clause::Unsatisfiable, key(1), key(2)]);
    let n = c.normalize();
    let expected = Clause::Or(vec![key(1), key(2)]);
    assert!(n.structural_eq(&expected));
}

#[test]
fn normalize_threshold_full_becomes_and() {
    let c = Clause::Threshold(2, vec![key(1), key(2)]);
    let n = c.normalize();
    let expected = Clause::And(vec![key(1), key(2)]);
    assert!(n.structural_eq(&expected));
}

#[test]
fn normalize_threshold_one_becomes_or() {
    let c = Clause::Threshold(1, vec![key(1), key(2)]);
    let n = c.normalize();
    let expected = Clause::Or(vec![key(1), key(2)]);
    assert!(n.structural_eq(&expected));
}

#[test]
fn normalize_threshold_zero_is_trivial() {
    let c = Clause::Threshold(0, vec![key(1), key(2)]);
    assert!(c.normalize().structural_eq(&Clause::Trivial));
}

#[test]
fn normalize_threshold_over_length_is_unsatisfiable() {
    let c = Clause::Threshold(3, vec![key(1), key(2)]);
    assert!(c.normalize().structural_eq(&Clause::Unsatisfiable));
}

#[test]
fn normalize_keeps_proper_threshold() {
    let c = Clause::Threshold(2, vec![key(1), key(2), key(3)]);
    let n = c.normalize();
    let expected = Clause::Threshold(2, vec![key(1), key(2), key(3)]);
    assert!(n.structural_eq(&expected));
}

#[test]
fn normalize_idempotent_on_messy_clause() {
    let c = Clause::Or(vec![
        Clause::Threshold(1, vec![key(1), Clause::And(vec![key(2), Clause::And(vec![key(3)])])]),
        Clause::Unsatisfiable,
        Clause::Threshold(2, vec![key(4), key(5)]),
        Clause::Older(144),
        Clause::Older(144),
    ]);
    let once = c.normalize();
    let twice = once.normalize();
    assert!(once.structural_eq(&twice));
}

#[test]
fn normalize_singleton_unwraps() {
    let c = Clause::Or(vec![Clause::And(vec![Clause::After(500)])]);
    assert!(c.normalize().structural_eq(&Clause::After(500)));
}

#[test]
fn structural_eq_distinguishes_leaves() {
    assert!(!key(1).structural_eq(&key(2)));
    assert!(!Clause::Older(1).structural_eq(&Clause::After(1)));
    assert!(Clause::Hash(vec![7; 32]).structural_eq(&Clause::Hash(vec![7; 32])));
    let a = Clause::Ctv(vec![1; 32]);
    let b = a.deep_clone();
    assert!(a.structural_eq(&b));
}

fn witness(keys: Vec<u8>, rel_age: u32) -> WitnessData {
    WitnessData {
        keys: keys.into_iter().map(|b| vec![b; 33]).collect(),
        preimages: vec![],
        rel_age,
        abs_time: 0,
        tx_hash: vec![0; 32],
    }
}

#[test]
fn satisfaction_of_threshold_counts_branches() {
    let c = Clause::Threshold(2, vec![key(1), key(2), key(3)]);
    assert!(c.satisfied_by(&witness(vec![1, 3], 0)));
    assert!(!c.satisfied_by(&witness(vec![2], 0)));
}

#[test]
fn satisfaction_of_locks_and_leaves() {
    assert!(Clause::Older(100).satisfied_by(&witness(vec![], 100)));
    assert!(!Clause::Older(100).satisfied_by(&witness(vec![], 99)));
    assert!(Clause::Trivial.satisfied_by(&witness(vec![], 0)));
    assert!(!Clause::Unsatisfiable.satisfied_by(&witness(vec![], 0)));
    assert!(Clause::Ctv(vec![0; 32]).satisfied_by(&witness(vec![], 0)));
    assert!(!Clause::Ctv(vec![1; 32]).satisfied_by(&witness(vec![], 0)));
}

#[test]
fn normalization_preserves_satisfaction() {
    let c = Clause::Or(vec![
        Clause::Threshold(1, vec![key(1), Clause::And(vec![key(2), Clause::Trivial])]),
        Clause::Unsatisfiable,
        Clause::And(vec![Clause::Older(10), Clause::And(vec![key(4), key(4)])]),
    ]);
    let n = c.normalize();
    let cases = [
        witness(vec![], 0),
        witness(vec![1], 0),
        witness(vec![2], 0),
        witness(vec![4], 0),
        witness(vec![4], 10),
        witness(vec![1, 2, 4], 10),
    ];
    for w in &cases {
        assert_eq!(c.satisfied_by(w), n.satisfied_by(w));
    }
}
