use sapio::builder::Builder;
use sapio::clause::Clause;
use sapio::compiler::{compile, ContractDef};
use sapio::context::{Context, ErrorKind};
use sapio::contracts::{BasicEscrow, BasicEscrow2, GenericBet, GenericBetArguments, Oracle,
    PayToPublicKey, TrustlessEscrow, UndoSendInternal, Vault, VaultAddress, VaultTree};
use sapio::policy::compile_to_policy;
use sapio::template::{template_hash, Address, Compiled, Template};

fn key(b: u8) -> Vec<u8> {
    vec![b; 33]
}

fn kc(b: u8) -> Clause {
    Clause::Key(key(b))
}

fn addr(script: Vec<u8>) -> Address {
    Address { script_pubkey: script }
}

fn simple_template(amount: u64, script: Vec<u8>) -> (Template, Vec<u8>) {
    let b = Builder::new(1_000_000, Vec::new());
    let b = b
        .add_output(amount, Compiled::from_address(addr(script), None), None)
        .unwrap();
    b.finalize().unwrap()
}

#[test]
fn ctv_hash_known_answer() {
    // Double SHA-256 over the canonical payload of a template with one
    // input without a relative lock and one 1000-satoshi output to the
    // script [0x51].
    let (_, h) = simple_template(1000, vec![0x51]);
    let expected: Vec<u8> = vec![
        235, 230, 118, 52, 40, 117, 155, 51, 128, 112, 130, 64, 51, 188, 141, 80, 47, 231, 206,
        43, 208, 87, 22, 43, 244, 202, 17, 114, 195, 197, 183, 26,
    ];
    assert_eq!(h, expected);
}

#[test]
fn s1_pay_to_public_key() {
    let def = ContractDef::PayToPublicKey(PayToPublicKey { key: key(2) });
    let c = compile(&def, Context::new(100_000, 5)).unwrap();
    assert!(c.policy.structural_eq(&kc(2)));
    assert_eq!(c.known_children.len(), 0);
    assert_eq!(c.amount_range, (0, 100_000));
    let expected_addr: Vec<u8> = vec![
        0, 32, 3, 62, 2, 4, 174, 114, 154, 242, 0, 226, 138, 206, 72, 97, 103, 131, 133, 82, 9,
        65, 145, 116, 249, 205, 118, 82, 141, 110, 91, 246, 228, 186,
    ];
    assert_eq!(c.address.script_pubkey, expected_addr);
}

#[test]
fn compile_is_deterministic() {
    let mk = || ContractDef::PayToPublicKey(PayToPublicKey { key: key(9) });
    let a = compile(&mk(), Context::new(77_000, 4)).unwrap();
    let b = compile(&mk(), Context::new(77_000, 4)).unwrap();
    assert_eq!(a.address.script_pubkey, b.address.script_pubkey);
    assert!(a.policy.structural_eq(&b.policy));
    assert_eq!(a.amount_range, b.amount_range);
}

#[test]
fn s2_basic_escrow() {
    let def = ContractDef::BasicEscrow(BasicEscrow { alice: key(1), bob: key(2), escrow: key(3) });
    let c = compile(&def, Context::new(100_000, 5)).unwrap();
    let expected = Clause::Or(vec![
        Clause::And(vec![kc(1), kc(2)]),
        Clause::And(vec![kc(3), Clause::Or(vec![kc(1), kc(2)])]),
    ]);
    assert!(c.policy.structural_eq(&expected));
    assert_eq!(c.known_children.len(), 0);
}

#[test]
fn s2_basic_escrow2_matches_basic_escrow_shape() {
    let def = ContractDef::BasicEscrow2(
        BasicEscrow2 { alice: key(1), bob: key(2), escrow: key(3) },
    );
    let c = compile(&def, Context::new(100_000, 5)).unwrap();
    let expected = Clause::Or(vec![
        Clause::And(vec![kc(3), kc(1), kc(2)]),
        Clause::And(vec![kc(1), kc(2)]),
    ]);
    assert!(c.policy.structural_eq(&expected));
}

#[test]
fn s3_trustless_escrow() {
    let def = ContractDef::TrustlessEscrow(TrustlessEscrow {
        alice: key(1),
        bob: key(2),
        alice_escrow: (30_000, addr(vec![0x0a, 0x0b])),
        bob_escrow: (70_000, addr(vec![0x0c, 0x0d])),
    });
    let c = compile(&def, Context::new(100_000, 5)).unwrap();
    assert_eq!(c.known_children.len(), 1);
    let (h, t) = &c.known_children[0];
    // Commitment binding: re-hashing the stored template yields the key.
    assert_eq!(*h, template_hash(t));
    assert_eq!(t.sequences, vec![1700]);
    assert_eq!(t.outputs.len(), 2);
    assert_eq!(t.outputs[0].amount, 30_000);
    assert_eq!(t.outputs[0].contract.address.script_pubkey, vec![0x0a, 0x0b]);
    assert_eq!(t.outputs[1].amount, 70_000);
    assert_eq!(t.outputs[1].contract.address.script_pubkey, vec![0x0c, 0x0d]);
    let expected = Clause::Or(vec![
        Clause::Ctv(h.clone()),
        Clause::And(vec![kc(1), kc(2)]),
    ]);
    assert!(c.policy.structural_eq(&expected));
    assert_eq!(c.amount_range, (100_000, 100_000));
}

#[test]
fn s4_vault_chain() {
    let def = ContractDef::Vault(Vault::from(VaultAddress {
        cold_storage: addr(vec![0x03, 0x03]),
        hot_storage: addr(vec![0x04, 0x04]),
        n_steps: 3,
        amount_step: 1_000_000,
        timeout: 6,
        mature: 10,
    }));
    let c = compile(&def, Context::new(3_000_000, 20)).unwrap();
    assert_eq!(c.known_children.len(), 2);
    // Branch order follows declaration order: step, then to_cold.
    let (_, step_t) = &c.known_children[0];
    let (_, cold_t) = &c.known_children[1];
    assert_eq!(cold_t.outputs.len(), 1);
    assert_eq!(cold_t.outputs[0].amount, 3_000_000);
    assert_eq!(cold_t.outputs[0].contract.address.script_pubkey, vec![0x03, 0x03]);
    assert_eq!(step_t.sequences, vec![6]);
    assert_eq!(step_t.outputs.len(), 2);
    assert_eq!(step_t.outputs[0].amount, 1_000_000);
    assert_eq!(step_t.outputs[1].amount, 2_000_000);
    // The released step lands in an undoable send with two branches.
    let undo = &step_t.outputs[0].contract;
    assert_eq!(undo.known_children.len(), 2);
    // The rest continues the chain: a sub-vault of two steps.
    let sub = &step_t.outputs[1].contract;
    assert_eq!(sub.known_children.len(), 2);
    let (_, sub_cold_t) = &sub.known_children[1];
    assert_eq!(sub_cold_t.outputs[0].amount, 2_000_000);
    // Amount conservation at the root: no template exceeds the funding.
    for (_, t) in &c.known_children {
        let total: u64 = t.outputs.iter().map(|o| o.amount).sum();
        assert!(total <= 3_000_000);
    }
}

#[test]
fn s6_depth_exhaustion() {
    let def = ContractDef::Vault(Vault::from(VaultAddress {
        cold_storage: addr(vec![0x03]),
        hot_storage: addr(vec![0x04]),
        n_steps: 3,
        amount_step: 1_000,
        timeout: 6,
        mature: 10,
    }));
    let e = compile(&def, Context::new(3_000, 2)).unwrap_err();
    assert_eq!(e.kind, ErrorKind::DepthExceeded);
    assert!(e.path.len() >= 2);
    assert_eq!(e.path[e.path.len() - 1], "step");
    assert_eq!(e.path[e.path.len() - 2], "step");
}

#[test]
fn vault_no_steps_has_no_spend_paths() {
    let def = ContractDef::Vault(Vault::from(VaultAddress {
        cold_storage: addr(vec![0x03]),
        hot_storage: addr(vec![0x04]),
        n_steps: 0,
        amount_step: 1_000,
        timeout: 6,
        mature: 10,
    }));
    let e = compile(&def, Context::new(3_000, 5)).unwrap_err();
    assert_eq!(e.kind, ErrorKind::NoSpendPaths);
}

#[test]
fn vault_tree_splits_cold_storage() {
    let v = Vault::try_from(VaultTree {
        cold_storage: addr(vec![0x03]),
        max_per_address: 40_000,
        radix: 2,
        hot_storage: addr(vec![0x04]),
        n_steps: 1,
        amount_step: 100_000,
        timeout: 6,
        mature: 10,
    })
    .unwrap();
    let c = compile(&ContractDef::Vault(v), Context::new(100_000, 10)).unwrap();
    let (_, cold_t) = &c.known_children[1];
    let tree_root = &cold_t.outputs[0].contract;
    assert_eq!(tree_root.known_children.len(), 1);
    let (_, split_t) = &tree_root.known_children[0];
    // 100_000 under a 40_000 cap: two chunks of the three payments
    // (40_000 + 40_000, then the 20_000 remainder).
    assert_eq!(split_t.outputs.len(), 2);
    assert_eq!(split_t.outputs[0].amount, 80_000);
    assert_eq!(split_t.outputs[1].amount, 20_000);
}

#[test]
fn undo_send_has_undo_then_complete() {
    let def = ContractDef::UndoSend(UndoSendInternal {
        from_contract: Compiled::from_address(addr(vec![0x0a]), None),
        to_contract: Compiled::from_address(addr(vec![0x0b]), None),
        amount: 5_000,
        timeout: 144,
    });
    let c = compile(&def, Context::new(5_000, 3)).unwrap();
    assert_eq!(c.known_children.len(), 2);
    let (_, undo_t) = &c.known_children[0];
    let (_, complete_t) = &c.known_children[1];
    assert_eq!(undo_t.outputs[0].contract.address.script_pubkey, vec![0x0a]);
    assert_eq!(undo_t.sequences, vec![0xFFFF_FFFF]);
    assert_eq!(complete_t.outputs[0].contract.address.script_pubkey, vec![0x0b]);
    assert_eq!(complete_t.sequences, vec![144]);
}

fn bet_oracle() -> Oracle {
    let row = |price: i64, lt: u8, gte: u8| ("BTC".to_string(), price, kc(lt), kc(gte));
    Oracle { entries: vec![row(100, 10, 11), row(200, 20, 21), row(300, 30, 31)] }
}

#[test]
fn s5_generic_bet_binary_tree() {
    let args = GenericBetArguments {
        amount: 50_000,
        outcomes: vec![
            (300, simple_template(3_000, vec![0x53]).0),
            (100, simple_template(1_000, vec![0x51]).0),
            (200, simple_template(2_000, vec![0x52]).0),
        ],
        oracle: bet_oracle(),
        cooperate: Clause::And(vec![kc(1), kc(2)]),
        symbol: "BTC".to_string(),
    };
    let bet = GenericBet::from(args).unwrap();
    // Outcomes are sorted for the binary split.
    assert_eq!(bet.outcomes[0].0, 100);
    assert_eq!(bet.outcomes[1].0, 200);
    assert_eq!(bet.outcomes[2].0, 300);
    let c = compile(&ContractDef::GenericBet(bet), Context::new(60_000, 10)).unwrap();
    assert_eq!(c.known_children.len(), 2);
    // pay_gte commits the upper range [200, 300] into a sub-bet.
    let (gte_h, gte_t) = &c.known_children[0];
    let sub = &gte_t.outputs[0].contract;
    assert_eq!(gte_t.outputs[0].amount, 50_000);
    assert_eq!(sub.known_children.len(), 2);
    // pay_lt covers [100] and commits that outcome's template directly.
    let (lt_h, lt_t) = &c.known_children[1];
    assert_eq!(lt_t.outputs[0].amount, 1_000);
    assert_eq!(*lt_h, template_hash(lt_t));
    // The root guards use the oracle row of the middle outcome, 200.
    let expected = Clause::Or(vec![
        Clause::And(vec![kc(21), Clause::Ctv(gte_h.clone())]),
        Clause::And(vec![kc(20), Clause::Ctv(lt_h.clone())]),
        Clause::And(vec![kc(1), kc(2)]),
    ]);
    assert!(c.policy.structural_eq(&expected));
}

#[test]
fn duplicate_bet_outcomes_with_equal_templates_collide() {
    let args = GenericBetArguments {
        amount: 10_000,
        outcomes: vec![
            (100, simple_template(1_000, vec![0x51]).0),
            (100, simple_template(1_000, vec![0x51]).0),
        ],
        oracle: bet_oracle(),
        cooperate: kc(7),
        symbol: "BTC".to_string(),
    };
    let bet = GenericBet::from(args).unwrap();
    let e = compile(&ContractDef::GenericBet(bet), Context::new(60_000, 10)).unwrap_err();
    assert_eq!(e.kind, ErrorKind::DuplicateCommitment);
}

#[test]
fn oracle_gap_is_reported() {
    let args = GenericBetArguments {
        amount: 10_000,
        outcomes: vec![(100, simple_template(1_000, vec![0x51]).0), (999, simple_template(2_000, vec![0x52]).0)],
        oracle: bet_oracle(),
        cooperate: kc(7),
        symbol: "BTC".to_string(),
    };
    let e = GenericBet::from(args).unwrap_err();
    assert_eq!(e.kind, ErrorKind::OracleUnavailable);
}

#[test]
fn premade_template_over_funding_is_not_conserved() {
    let args = GenericBetArguments {
        amount: 10_000,
        outcomes: vec![(100, simple_template(200_000, vec![0x51]).0)],
        oracle: bet_oracle(),
        cooperate: kc(7),
        symbol: "BTC".to_string(),
    };
    let bet = GenericBet::from(args).unwrap();
    let e = compile(&ContractDef::GenericBet(bet), Context::new(100_000, 10)).unwrap_err();
    assert_eq!(e.kind, ErrorKind::AmountNotConserved);
}

#[test]
fn amount_exceeded_in_escrow() {
    let def = ContractDef::TrustlessEscrow(TrustlessEscrow {
        alice: key(1),
        bob: key(2),
        alice_escrow: (80_000, addr(vec![0x0a])),
        bob_escrow: (70_000, addr(vec![0x0b])),
    });
    let e = compile(&def, Context::new(100_000, 5)).unwrap_err();
    assert_eq!(e.kind, ErrorKind::AmountExceeded);
}

#[test]
fn builder_conflicts_and_empty_template() {
    let b = Builder::new(1_000, Vec::new());
    let e = b.finalize().unwrap_err();
    assert_eq!(e.kind, ErrorKind::EmptyTemplate);

    let b = Builder::new(1_000, Vec::new()).set_sequence(0, 5).unwrap();
    let e = b.set_sequence(0, 6).unwrap_err();
    assert_eq!(e.kind, ErrorKind::SequenceConflict);

    let b = Builder::new(1_000, Vec::new()).set_lock_time(500).unwrap();
    assert!(b.set_lock_time(500).is_ok());
    let b = Builder::new(1_000, Vec::new()).set_lock_time(500).unwrap();
    let e = b.set_lock_time(501).unwrap_err();
    assert_eq!(e.kind, ErrorKind::LockTimeConflict);
}

#[test]
fn builder_label_and_metadata_pass_through() {
    let b = Builder::new(10_000, Vec::new())
        .add_output(1_000, Compiled::from_address(addr(vec![0x51]), None), None)
        .unwrap()
        .set_label("refund".to_string())
        .set_metadata("color".to_string(), "blue".to_string());
    let (t, _) = b.finalize().unwrap();
    assert_eq!(t.label, Some("refund".to_string()));
    assert_eq!(t.metadata, vec![("color".to_string(), "blue".to_string())]);
}

#[test]
fn mixed_relative_locks_fail_policy_compilation() {
    let conflicted = Clause::And(vec![
        Clause::Older(144),
        Clause::Older(0x0040_0000 | 5),
    ]);
    let e = compile_to_policy(&conflicted, &Vec::new()).unwrap_err();
    assert_eq!(e.kind, ErrorKind::PolicyCompilation);

    let fine = Clause::And(vec![Clause::Older(144), Clause::Older(288)]);
    let a = compile_to_policy(&fine, &Vec::new()).unwrap();
    assert_eq!(a.script_pubkey.len(), 34);
    assert_eq!(a.script_pubkey[0], 0);
    assert_eq!(a.script_pubkey[1], 32);
}

#[test]
fn mixed_absolute_locks_fail_policy_compilation() {
    let conflicted = Clause::And(vec![
        Clause::After(400_000),
        Clause::After(1_700_000_000),
    ]);
    let e = compile_to_policy(&conflicted, &Vec::new()).unwrap_err();
    assert_eq!(e.kind, ErrorKind::PolicyCompilation);
}

#[test]
fn cancelled_context_terminates_compilation() {
    let mut ctx = Context::new(3_000, 5);
    ctx.cancelled = true;
    let def = ContractDef::Vault(Vault::from(VaultAddress {
        cold_storage: addr(vec![0x03]),
        hot_storage: addr(vec![0x04]),
        n_steps: 1,
        amount_step: 1_000,
        timeout: 6,
        mature: 10,
    }));
    let e = compile(&def, ctx).unwrap_err();
    assert_eq!(e.kind, ErrorKind::TerminateCompilation);
}
