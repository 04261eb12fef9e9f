//! The contract compiler: enumerates a contract's continuations,
//! recursively compiles each committed child, binds them with covenant
//! commitments, and assembles the node's normalized policy and address.
use vstd::prelude::*;
use crate::clause::{Clause, clone_bytes, bytes_eq, lemma_view_children};
use crate::norm::lemma_norm_normal;
use crate::template::{Template, Compiled, wf_compiled, wf_template, wf_address, ctv_hash,
    sum_outputs, outputs_total, template_hash, clone_address, clone_template, clone_compiled};
use crate::context::{Context, CompilationError, ErrorKind, clone_path};
use crate::builder::Builder;
use crate::policy::compile_to_policy;
use crate::contracts::{PayToPublicKey, BasicEscrow, BasicEscrow2, TrustlessEscrow,
    UndoSendInternal, Vault, ColdStorage, wf_cold, TreePay, Payment, tree_payments, sum_payments,
    GenericBet, wf_bet, key_covered, clause_pair};

verus! {

/// A contract instance, ready to compile.
#[derive(Debug)]
pub enum ContractDef {
    /// Pay to a single key.
    PayToPublicKey(PayToPublicKey),
    /// Escrow with an agent, one guard.
    BasicEscrow(BasicEscrow),
    /// Escrow with an agent, two guards.
    BasicEscrow2(BasicEscrow2),
    /// Escrow settled by a committed refund template.
    TrustlessEscrow(TrustlessEscrow),
    /// A committed payment with an undo window.
    UndoSend(UndoSendInternal),
    /// An annuity chain with a cold-storage escape.
    Vault(Vault),
    /// A tree of payments bounded per node.
    TreePay(TreePay),
    /// A binary price-split bet.
    GenericBet(GenericBet),
}

/// Whether a contract instance is compilable.
pub open spec fn wf_def(d: ContractDef) -> bool {
    match d {
        ContractDef::PayToPublicKey(_) => true,
        ContractDef::BasicEscrow(_) => true,
        ContractDef::BasicEscrow2(_) => true,
        ContractDef::TrustlessEscrow(s) => wf_address(s.alice_escrow.1) && wf_address(
            s.bob_escrow.1,
        ),
        ContractDef::UndoSend(u) => wf_compiled(u.from_contract) && wf_compiled(u.to_contract),
        ContractDef::Vault(v) => wf_cold(v.cold_storage) && wf_address(v.hot_storage),
        ContractDef::TreePay(t) => t.radix >= 1 && forall|i: int|
            0 <= i < t.participants@.len() ==> wf_address((#[trigger] t.participants@[i]).address),
        ContractDef::GenericBet(g) => wf_bet(g),
    }
}

/// A committed child entry is keyed by exactly its template's
/// commitment hash, is well-formed, and stays within the funding.
pub open spec fn child_ok(e: (Vec<u8>, Template), funding: u64) -> bool {
    &&& e.0@ == ctv_hash(e.1)
    &&& e.0@.len() == 32
    &&& wf_template(e.1)
    &&& sum_outputs(e.1.outputs@) <= funding
}

/// How many committed children each contract kind compiles to.
pub open spec fn children_count_ok(d: ContractDef, c: Compiled) -> bool {
    match d {
        ContractDef::PayToPublicKey(_) => c.known_children@.len() == 0,
        ContractDef::BasicEscrow(_) => c.known_children@.len() == 0,
        ContractDef::BasicEscrow2(_) => c.known_children@.len() == 0,
        ContractDef::TrustlessEscrow(_) => c.known_children@.len() == 1,
        ContractDef::UndoSend(_) => c.known_children@.len() == 2,
        ContractDef::Vault(v) => v.n_steps >= 1 && c.known_children@.len() == 2,
        ContractDef::TreePay(_) => c.known_children@.len() == 1,
        ContractDef::GenericBet(g) => c.known_children@.len() == if g.outcomes@.len() >= 2 {
            2int
        } else {
            1int
        },
    }
}

/// A then-continuation branch: its guard, the committed template, and
/// the template's commitment hash.
pub open spec fn wf_branch(b: (Clause, Template, Vec<u8>)) -> bool {
    &&& b.2@ == ctv_hash(b.1)
    &&& b.2@.len() == 32
    &&& wf_template(b.1)
}

/// Copy a context for one branch of a node; every branch starts from the
/// node's full funds and budget.
pub fn branch_ctx(ctx: &Context) -> (r: Context)
    ensures
        r.available_amount == ctx.available_amount,
        r.depth_budget == ctx.depth_budget,
        r.path@ == ctx.path@,
        r.cancelled == ctx.cancelled,
{
    Context {
        available_amount: ctx.available_amount,
        path: clone_path(&ctx.path),
        depth_budget: ctx.depth_budget,
        cancelled: ctx.cancelled,
    }
}

/// Copy a cold-storage description.
pub fn clone_cold(c: &ColdStorage) -> (r: ColdStorage)
    ensures
        wf_cold(*c) ==> wf_cold(r),
{
    match c {
        ColdStorage::Fixed(a) => ColdStorage::Fixed(clone_address(a)),
        ColdStorage::Tree { address, max_per_address, radix } => ColdStorage::Tree {
            address: clone_address(address),
            max_per_address: *max_per_address,
            radix: *radix,
        },
    }
}

/// Whether some committed child already carries this hash.
fn contains_hash(children: &Vec<(Vec<u8>, Template)>, h: &Vec<u8>) -> (r: bool)
    ensures
        r == exists|i: int| 0 <= i < children@.len() && (#[trigger] children@[i]).0@ == h@,
{
    let mut i: usize = 0;
    while i < children.len()
        invariant
            0 <= i <= children@.len(),
            forall|j: int| 0 <= j < i ==> (#[trigger] children@[j]).0@ != h@,
        decreases children@.len() - i,
    {
        if bytes_eq(&children[i].0, h) {
            proof {
                assert(children@[i as int].0@ == h@);
            }
            return true;
        }
        i += 1;
    }
    false
}

/// Compile a cold-storage destination for `amount`: a plain address, or
/// a recursively compiled payment tree.
fn compile_cold(cold: &ColdStorage, amount: u64, ctx: &mut Context) -> (r: Result<
    Compiled,
    CompilationError,
>)
    requires
        wf_cold(*cold),
    ensures
        match r {
            Ok(c) => {
                &&& wf_compiled(c)
                &&& ((*cold) is Fixed ==> c.address.script_pubkey@
                    == cold->Fixed_0.script_pubkey@ && c.known_children@.len() == 0
                    && c.policy@ == crate::clause::ClauseS::Trivial)
            },
            Err(_) => !((*cold) is Fixed),
        },
        (*cold) is Fixed ==> r is Ok && *final(ctx) == *old(ctx),
    decreases old(ctx).depth_budget, 0int,
{
    match cold {
        ColdStorage::Fixed(a) => Ok(Compiled::from_address(clone_address(a), None)),
        ColdStorage::Tree { address, max_per_address, radix } => {
            let participants = tree_payments(amount, *max_per_address, address);
            let def = ContractDef::TreePay(TreePay { participants, radix: *radix });
            let cctx = ctx.fork(amount, "cold".to_string())?;
            compile(&def, cctx)
        },
    }
}

/// One recursion step of the bet's binary price split over
/// `outcomes[start..end]`: nothing, a single outcome's template, or a
/// template committing the funds to a sub-bet over the range.
fn recurse_over(g: &GenericBet, start: usize, end: usize, ctx: &Context) -> (r: Result<
    Option<(Template, Vec<u8>)>,
    CompilationError,
>)
    requires
        wf_bet(*g),
        start <= end <= g.outcomes@.len(),
    ensures
        match r {
            Ok(Some(p)) => {
                &&& p.1@ == ctv_hash(p.0) && p.1@.len() == 32 && wf_template(p.0)
                &&& (end - start == 1 ==> {
                    &&& ctv_hash(p.0) == ctv_hash(g.outcomes@[start as int].1)
                    &&& crate::template::similar_outputs(
                        p.0.outputs@,
                        g.outcomes@[start as int].1.outputs@,
                    )
                    &&& p.0.sequences@ == g.outcomes@[start as int].1.sequences@
                    &&& p.0.lock_time == g.outcomes@[start as int].1.lock_time
                })
                &&& (end - start >= 2 ==> {
                    &&& p.0.outputs@.len() == 1
                    &&& p.0.outputs@[0].amount == g.amount
                    &&& wf_compiled(p.0.outputs@[0].contract)
                    &&& p.0.outputs@[0].contract.amount_range.1 == g.amount
                    &&& p.0.sequences@ == seq![crate::template::NO_SEQUENCE]
                    &&& p.0.lock_time == 0
                })
            },
            Ok(None) => end == start,
            Err(_) => end - start >= 2,
        },
        end == start ==> r == Ok::<Option<(Template, Vec<u8>)>, CompilationError>(None),
        end - start == 1 ==> r is Ok && r->Ok_0 is Some,
    decreases ctx.depth_budget, 0int,
{
    if end - start == 0 {
        return Ok(None);
    }
    if end - start == 1 {
        let t = clone_template(&g.outcomes[start].1);
        proof {
            assert(wf_template(g.outcomes@[start as int].1));
        }
        let h = template_hash(&t);
        return Ok(Some((t, h)));
    }
    let mut outcomes: Vec<(i64, Template)> = Vec::new();
    let mut i: usize = start;
    while i < end
        invariant
            start <= i <= end <= g.outcomes@.len(),
            wf_bet(*g),
            outcomes@.len() == i - start,
            forall|k: int| 0 <= k < outcomes@.len()
                ==> (#[trigger] outcomes@[k]).0 == g.outcomes@[start + k].0
                    && wf_template(outcomes@[k].1),
        decreases end - i,
    {
        let e = &g.outcomes[i];
        proof {
            assert(wf_template(g.outcomes@[i as int].1));
        }
        outcomes.push((e.0, clone_template(&e.1)));
        i += 1;
    }
    let mut table: Vec<(i64, Clause, Clause)> = Vec::new();
    let mut j: usize = 0;
    while j < g.oracle.len()
        invariant
            0 <= j <= g.oracle@.len(),
            table@.len() == j,
            forall|k: int| 0 <= k < j ==> (#[trigger] table@[k]).0 == g.oracle@[k].0,
        decreases g.oracle@.len() - j,
    {
        let e = &g.oracle[j];
        table.push((e.0, e.1.deep_clone(), e.2.deep_clone()));
        j += 1;
    }
    let sub = GenericBet {
        amount: g.amount,
        outcomes,
        oracle: table,
        cooperate: g.cooperate.deep_clone(),
    };
    proof {
        assert forall|k: int| 0 <= k < sub.outcomes@.len() implies key_covered(
            sub.oracle@,
            (#[trigger] sub.outcomes@[k]).0,
        ) by {
            let key = sub.outcomes@[k].0;
            assert(key == g.outcomes@[start + k].0);
            assert(key_covered(g.oracle@, g.outcomes@[start + k].0));
            let w = choose|w: int| 0 <= w < g.oracle@.len()
                && (#[trigger] g.oracle@[w]).0 == key;
            assert(sub.oracle@[w].0 == key);
        }
        assert(wf_bet(sub));
    }
    let def = ContractDef::GenericBet(sub);
    let mut bctx = branch_ctx(ctx);
    let cctx = bctx.fork(g.amount, "bet".to_string())?;
    let sub_c = compile(&def, cctx)?;
    let b = Builder::new(ctx.available_amount, clone_path(&ctx.path));
    let b = b.add_output(g.amount, sub_c, None)?;
    let (t, h) = b.finalize()?;
    Ok(Some((t, h)))
}

/// The committed branch of a trustless escrow: one refund template
/// paying both parties' escrows after a relative delay.
fn trustless_branches(s: &TrustlessEscrow, ctx: &Context) -> (r: Result<
    Vec<(Clause, Template, Vec<u8>)>,
    CompilationError,
>)
    requires
        wf_address(s.alice_escrow.1),
        wf_address(s.bob_escrow.1),
    ensures
        match r {
            Ok(bs) => {
                &&& bs@.len() == 1
                &&& wf_branch(bs@[0])
                &&& bs@[0].0@ == crate::clause::ClauseS::Trivial
                &&& bs@[0].1.outputs@.len() == 2
                &&& bs@[0].1.outputs@[0].amount == s.alice_escrow.0
                &&& bs@[0].1.outputs@[0].contract.address.script_pubkey@
                    == s.alice_escrow.1.script_pubkey@
                &&& bs@[0].1.outputs@[1].amount == s.bob_escrow.0
                &&& bs@[0].1.outputs@[1].contract.address.script_pubkey@
                    == s.bob_escrow.1.script_pubkey@
                &&& bs@[0].1.sequences@ == seq![1700u32]
                &&& bs@[0].1.lock_time == 0
            },
            Err(e) => e.kind == ErrorKind::AmountExceeded && s.alice_escrow.0
                + s.bob_escrow.0 > ctx.available_amount,
        },
        s.alice_escrow.0 + s.bob_escrow.0 <= ctx.available_amount ==> r is Ok,
{
    let mut r: Vec<(Clause, Template, Vec<u8>)> = Vec::new();
    let o1 = Compiled::from_address(clone_address(&s.alice_escrow.1), None);
    let o2 = Compiled::from_address(clone_address(&s.bob_escrow.1), None);
    let b = Builder::new(ctx.available_amount, clone_path(&ctx.path));
    let b = b.add_output(s.alice_escrow.0, o1, None)?;
    let b = b.add_output(s.bob_escrow.0, o2, None)?;
    let b = b.set_sequence(0, 1700)?;
    let (t, h) = b.finalize()?;
    proof {
        assert(t.sequences@ =~= seq![1700u32]);
        assert(t.outputs@[0] == t.outputs@.drop_last()[0]);
    }
    r.push((Clause::Trivial, t, h));
    Ok(r)
}

/// The two committed branches of an undoable send, in declaration
/// order: the undo first, then the delayed completion.
fn undo_send_branches(u: &UndoSendInternal, ctx: &Context) -> (r: Result<
    Vec<(Clause, Template, Vec<u8>)>,
    CompilationError,
>)
    requires
        wf_compiled(u.from_contract),
        wf_compiled(u.to_contract),
    ensures
        match r {
            Ok(bs) => {
                &&& bs@.len() == 2
                &&& wf_branch(bs@[0]) && wf_branch(bs@[1])
                &&& bs@[0].0@ == crate::clause::ClauseS::Trivial
                &&& bs@[1].0@ == crate::clause::ClauseS::Trivial
                &&& bs@[0].1.outputs@.len() == 1
                &&& bs@[0].1.outputs@[0].amount == u.amount
                &&& bs@[0].1.outputs@[0].contract.address.script_pubkey@
                    == u.from_contract.address.script_pubkey@
                &&& bs@[0].1.sequences@ == seq![crate::template::NO_SEQUENCE]
                &&& bs@[1].1.outputs@.len() == 1
                &&& bs@[1].1.outputs@[0].amount == u.amount
                &&& bs@[1].1.outputs@[0].contract.address.script_pubkey@
                    == u.to_contract.address.script_pubkey@
                &&& bs@[1].1.sequences@ == seq![u.timeout]
            },
            Err(e) => e.kind == ErrorKind::AmountExceeded && u.amount > ctx.available_amount,
        },
        u.amount <= ctx.available_amount ==> r is Ok,
{
    let mut r: Vec<(Clause, Template, Vec<u8>)> = Vec::new();
    let b1 = Builder::new(ctx.available_amount, clone_path(&ctx.path));
    let b1 = b1.add_output(u.amount, clone_compiled(&u.from_contract), None)?;
    let (t1, h1) = b1.finalize()?;
    proof {
        assert(t1.sequences@ =~= seq![crate::template::NO_SEQUENCE]);
    }
    r.push((Clause::Trivial, t1, h1));
    let b2 = Builder::new(ctx.available_amount, clone_path(&ctx.path));
    let b2 = b2.add_output(u.amount, clone_compiled(&u.to_contract), None)?;
    let b2 = b2.set_sequence(0, u.timeout)?;
    let (t2, h2) = b2.finalize()?;
    proof {
        assert(t2.sequences@ =~= seq![u.timeout]);
    }
    r.push((Clause::Trivial, t2, h2));
    Ok(r)
}

/// The two committed branches of a vault, in declaration order: one
/// step of the chain, and the full escape to cold storage.
#[verifier::rlimit(100)]
fn vault_branches(v: &Vault, ctx: &Context) -> (r: Result<
    Vec<(Clause, Template, Vec<u8>)>,
    CompilationError,
>)
    requires
        wf_cold(v.cold_storage),
        wf_address(v.hot_storage),
    ensures
        match r {
            Ok(bs) => {
                &&& (forall|i: int| 0 <= i < bs@.len() ==> wf_branch(#[trigger] bs@[i]))
                &&& (v.n_steps == 0 <==> bs@.len() == 0)
                &&& (v.n_steps >= 1 ==> {
                    &&& bs@.len() == 2
                    &&& bs@[0].0@ == crate::clause::ClauseS::Trivial
                    &&& bs@[1].0@ == crate::clause::ClauseS::Trivial
                    &&& bs@[0].1.sequences@ == seq![v.timeout]
                    &&& (v.n_steps > 1 ==> bs@[0].1.outputs@.len() == 2
                        && bs@[0].1.outputs@[0].amount == v.amount_step
                        && bs@[0].1.outputs@[1].amount == v.amount_step * (v.n_steps - 1))
                    &&& (v.n_steps == 1 ==> bs@[0].1.outputs@.len() == 1
                        && bs@[0].1.outputs@[0].amount == v.amount_step)
                    &&& bs@[1].1.outputs@.len() == 1
                    &&& bs@[1].1.outputs@[0].amount == v.amount_step * v.n_steps
                    &&& (v.cold_storage is Fixed
                        ==> bs@[1].1.outputs@[0].contract.address.script_pubkey@
                            == v.cold_storage->Fixed_0.script_pubkey@)
                })
            },
            Err(_) => v.n_steps >= 1,
        },
    decreases ctx.depth_budget, 1int,
{
    let mut r: Vec<(Clause, Template, Vec<u8>)> = Vec::new();
    if v.n_steps == 0 {
        return Ok(r);
    }
    let mut cold_ctx = branch_ctx(ctx);
    let from_c = compile_cold(&v.cold_storage, v.amount_step, &mut cold_ctx)?;
    let to_c = Compiled::from_address(clone_address(&v.hot_storage), None);
    let undo_def = ContractDef::UndoSend(
        UndoSendInternal {
            from_contract: from_c,
            to_contract: to_c,
            amount: v.amount_step,
            timeout: v.mature,
        },
    );
    let mut bctx = branch_ctx(ctx);
    let cctx = bctx.fork(v.amount_step, "step".to_string())?;
    let undo_c = compile(&undo_def, cctx)?;
    let b = Builder::new(ctx.available_amount, clone_path(&ctx.path));
    let b = b.add_output(v.amount_step, undo_c, None)?;
    let b = if v.n_steps > 1 {
        let steps_left: u64 = v.n_steps - 1;
        let sub_amount: u64 = match v.amount_step.checked_mul(steps_left) {
            Some(a) => a,
            None => {
                return Err(CompilationError::at(
                    ErrorKind::TerminateCompilation,
                    clone_path(&ctx.path),
                    "amount arithmetic overflows".to_string(),
                ));
            },
        };
        let sub_def = ContractDef::Vault(
            Vault {
                cold_storage: clone_cold(&v.cold_storage),
                hot_storage: clone_address(&v.hot_storage),
                n_steps: steps_left,
                amount_step: v.amount_step,
                timeout: v.timeout,
                mature: v.mature,
            },
        );
        let mut bctx2 = branch_ctx(ctx);
        let cctx2 = bctx2.fork(sub_amount, "step".to_string())?;
        let sub_c = compile(&sub_def, cctx2)?;
        b.add_output(sub_amount, sub_c, None)?
    } else {
        b
    };
    let b = b.set_sequence(0, v.timeout)?;
    let (t1, h1) = b.finalize()?;
    proof {
        assert(t1.sequences@ =~= seq![v.timeout]);
        if v.n_steps > 1 {
            assert(t1.outputs@[0] == t1.outputs@.drop_last()[0]);
        }
    }
    r.push((Clause::Trivial, t1, h1));

    let amount: u64 = match v.amount_step.checked_mul(v.n_steps) {
        Some(a) => a,
        None => {
            return Err(CompilationError::at(
                ErrorKind::TerminateCompilation,
                clone_path(&ctx.path),
                "amount arithmetic overflows".to_string(),
            ));
        },
    };
    let mut cold_ctx2 = branch_ctx(ctx);
    let cold_c = compile_cold(&v.cold_storage, amount, &mut cold_ctx2)?;
    let b2 = Builder::new(ctx.available_amount, clone_path(&ctx.path));
    let b2 = b2.add_output(amount, cold_c, None)?;
    let (t2, h2) = b2.finalize()?;
    r.push((Clause::Trivial, t2, h2));
    Ok(r)
}

/// Payment totals add over concatenation.
pub proof fn lemma_sum_payments_concat(a: Seq<Payment>, b: Seq<Payment>)
    ensures
        crate::contracts::sum_payments(a + b) == crate::contracts::sum_payments(a)
            + crate::contracts::sum_payments(b),
    decreases b.len(),
{
    if b.len() == 0 {
        assert(a + b =~= a);
    } else {
        lemma_sum_payments_concat(a, b.drop_last());
        assert((a + b).drop_last() =~= a + b.drop_last());
        assert((a + b).last() == b.last());
    }
}

/// The single committed branch of a tree payment: direct payouts when
/// the participants fit one node, else one child subtree per chunk.
fn tree_pay_branches(tp: &TreePay, ctx: &Context) -> (r: Result<
    Vec<(Clause, Template, Vec<u8>)>,
    CompilationError,
>)
    requires
        tp.radix >= 1,
        forall|i: int| 0 <= i < tp.participants@.len()
            ==> wf_address((#[trigger] tp.participants@[i]).address),
    ensures
        match r {
            Ok(bs) => {
                &&& bs@.len() == 1
                &&& wf_branch(bs@[0])
                &&& bs@[0].0@ == crate::clause::ClauseS::Trivial
                &&& sum_outputs(bs@[0].1.outputs@) == sum_payments(tp.participants@)
                &&& (tp.participants@.len() <= tp.radix ==> {
                    &&& bs@[0].1.outputs@.len() == tp.participants@.len()
                    &&& forall|i: int| 0 <= i < tp.participants@.len()
                        ==> (#[trigger] bs@[0].1.outputs@[i]).amount
                            == tp.participants@[i].amount
                            && bs@[0].1.outputs@[i].contract.address.script_pubkey@
                                == tp.participants@[i].address.script_pubkey@
                })
            },
            Err(_) => true,
        },
        tp.participants@.len() == 0 ==> r is Err && r->Err_0.kind == ErrorKind::EmptyTemplate,
    decreases ctx.depth_budget, 1int,
{
    let mut r: Vec<(Clause, Template, Vec<u8>)> = Vec::new();
    let (t, h) = if tp.participants.len() <= tp.radix {
        tree_pay_direct(tp, ctx)?
    } else {
        tree_pay_split(tp, ctx)?
    };
    r.push((Clause::Trivial, t, h));
    Ok(r)
}

/// One template paying every participant directly.
fn tree_pay_direct(tp: &TreePay, ctx: &Context) -> (r: Result<
    (Template, Vec<u8>),
    CompilationError,
>)
    requires
        forall|i: int| 0 <= i < tp.participants@.len()
            ==> wf_address((#[trigger] tp.participants@[i]).address),
    ensures
        match r {
            Ok(p) => {
                &&& p.1@ == ctv_hash(p.0) && p.1@.len() == 32 && wf_template(p.0)
                &&& sum_outputs(p.0.outputs@) == sum_payments(tp.participants@)
                &&& p.0.outputs@.len() == tp.participants@.len()
                &&& forall|i: int| 0 <= i < tp.participants@.len()
                    ==> (#[trigger] p.0.outputs@[i]).amount == tp.participants@[i].amount
                        && p.0.outputs@[i].contract.address.script_pubkey@
                            == tp.participants@[i].address.script_pubkey@
            },
            Err(_) => true,
        },
        tp.participants@.len() == 0 ==> r is Err && r->Err_0.kind == ErrorKind::EmptyTemplate,
{
    let mut b = Builder::new(ctx.available_amount, clone_path(&ctx.path));
    let mut i: usize = 0;
    while i < tp.participants.len()
        invariant
            0 <= i <= tp.participants@.len(),
            crate::builder::wf_builder(b),
            b.funding == ctx.available_amount,
            b.path@ == ctx.path@,
            b.outputs@.len() == i,
            b.funding - b.remaining == sum_payments(tp.participants@.take(i as int)),
            forall|k: int| 0 <= k < i
                ==> (#[trigger] b.outputs@[k]).amount == tp.participants@[k].amount
                    && b.outputs@[k].contract.address.script_pubkey@
                        == tp.participants@[k].address.script_pubkey@,
            forall|k: int| 0 <= k < tp.participants@.len()
                ==> wf_address((#[trigger] tp.participants@[k]).address),
        decreases tp.participants@.len() - i,
    {
        let p = &tp.participants[i];
        let dest = Compiled::from_address(clone_address(&p.address), None);
        let ghost outs_old = b.outputs@;
        b = b.add_output(p.amount, dest, None)?;
        proof {
            assert(b.outputs@.drop_last() == outs_old);
            assert(forall|k: int| 0 <= k < outs_old.len()
                ==> #[trigger] b.outputs@[k] == outs_old[k]);
            assert(tp.participants@.take(i + 1).drop_last()
                =~= tp.participants@.take(i as int));
            assert(tp.participants@.take(i + 1).last() == tp.participants@[i as int]);
        }
        i += 1;
    }
    proof {
        assert(tp.participants@.take(tp.participants@.len() as int) =~= tp.participants@);
    }
    b.finalize()
}

/// One template committing each chunk of at most `radix` participants to
/// a child subtree carrying the chunk's total.
fn tree_pay_split(tp: &TreePay, ctx: &Context) -> (r: Result<
    (Template, Vec<u8>),
    CompilationError,
>)
    requires
        tp.radix >= 1,
        tp.participants@.len() > tp.radix,
        forall|i: int| 0 <= i < tp.participants@.len()
            ==> wf_address((#[trigger] tp.participants@[i]).address),
    ensures
        match r {
            Ok(p) => {
                &&& p.1@ == ctv_hash(p.0) && p.1@.len() == 32 && wf_template(p.0)
                &&& sum_outputs(p.0.outputs@) == sum_payments(tp.participants@)
            },
            Err(_) => true,
        },
    decreases ctx.depth_budget, 0int,
{
    let mut b = Builder::new(ctx.available_amount, clone_path(&ctx.path));
    let mut i: usize = 0;
    while i < tp.participants.len()
        invariant
            0 <= i <= tp.participants@.len(),
            crate::builder::wf_builder(b),
            b.funding == ctx.available_amount,
            b.path@ == ctx.path@,
            b.funding - b.remaining == sum_payments(tp.participants@.take(i as int)),
            tp.radix >= 1,
            forall|k: int| 0 <= k < tp.participants@.len()
                ==> wf_address((#[trigger] tp.participants@[k]).address),
        decreases tp.participants@.len() - i,
    {
        let chunk_end = if tp.participants.len() - i > tp.radix {
            i + tp.radix
        } else {
            tp.participants.len()
        };
        let (chunk, total) = collect_chunk(tp, i, chunk_end, ctx)?;
        let sub_def = ContractDef::TreePay(TreePay { participants: chunk, radix: tp.radix });
        let mut bctx = branch_ctx(ctx);
        let cctx = bctx.fork(total, "pay".to_string())?;
        let sub_c = compile(&sub_def, cctx)?;
        b = b.add_output(total, sub_c, None)?;
        proof {
            assert(tp.participants@.take(chunk_end as int)
                =~= tp.participants@.take(i as int) + tp.participants@.subrange(
                i as int,
                chunk_end as int,
            ));
            lemma_sum_payments_concat(
                tp.participants@.take(i as int),
                tp.participants@.subrange(i as int, chunk_end as int),
            );
        }
        i = chunk_end;
    }
    proof {
        assert(tp.participants@.take(tp.participants@.len() as int) =~= tp.participants@);
    }
    b.finalize()
}

/// Copy the payments of `tp.participants[start..end]` and add up their
/// amounts, failing on overflow.
fn collect_chunk(tp: &TreePay, start: usize, end: usize, ctx: &Context) -> (r: Result<
    (Vec<Payment>, u64),
    CompilationError,
>)
    requires
        start <= end <= tp.participants@.len(),
        forall|i: int| 0 <= i < tp.participants@.len()
            ==> wf_address((#[trigger] tp.participants@[i]).address),
    ensures
        match r {
            Ok(p) => {
                &&& p.1 == sum_payments(tp.participants@.subrange(start as int, end as int))
                &&& p.0@.len() == end - start
                &&& forall|i: int| 0 <= i < p.0@.len()
                    ==> (#[trigger] p.0@[i]).amount == tp.participants@[start + i].amount
                        && p.0@[i].address.script_pubkey@
                            == tp.participants@[start + i].address.script_pubkey@
                        && wf_address(p.0@[i].address)
            },
            Err(_) => true,
        },
{
    let mut chunk: Vec<Payment> = Vec::new();
    let mut total: u64 = 0;
    let mut j: usize = start;
    while j < end
        invariant
            start <= j <= end <= tp.participants@.len(),
            chunk@.len() == j - start,
            total == sum_payments(tp.participants@.subrange(start as int, j as int)),
            forall|k: int| 0 <= k < tp.participants@.len()
                ==> wf_address((#[trigger] tp.participants@[k]).address),
            forall|k: int| 0 <= k < chunk@.len()
                ==> (#[trigger] chunk@[k]).amount == tp.participants@[start + k].amount
                    && chunk@[k].address.script_pubkey@
                        == tp.participants@[start + k].address.script_pubkey@
                    && wf_address(chunk@[k].address),
        decreases end - j,
    {
        let p = &tp.participants[j];
        if total > u64::MAX - p.amount {
            return Err(CompilationError::at(
                ErrorKind::TerminateCompilation,
                clone_path(&ctx.path),
                "amount arithmetic overflows".to_string(),
            ));
        }
        total = total + p.amount;
        let ghost chunk_old = chunk@;
        chunk.push(Payment { amount: p.amount, address: clone_address(&p.address) });
        proof {
            assert(chunk@.drop_last() =~= chunk_old);
            assert(tp.participants@.subrange(start as int, j + 1).drop_last()
                =~= tp.participants@.subrange(start as int, j as int));
            assert(tp.participants@.subrange(start as int, j + 1).last()
                == tp.participants@[j as int]);
        }
        j += 1;
    }
    Ok((chunk, total))
}

/// The two committed branches of a bet, in declaration order: the
/// upper half of the outcome range under the "at or above" guard, the
/// lower half under the "below" guard.
fn bet_branches(g: &GenericBet, ctx: &Context) -> (r: Result<
    Vec<(Clause, Template, Vec<u8>)>,
    CompilationError,
>)
    requires
        wf_bet(*g),
    ensures
        match r {
            Ok(bs) => {
                &&& (forall|i: int| 0 <= i < bs@.len() ==> wf_branch(#[trigger] bs@[i]))
                &&& bs@.len() == if g.outcomes@.len() >= 2 {
                    2int
                } else {
                    1int
                }
                &&& forall|j: int| 0 <= j < g.oracle@.len() && (#[trigger] g.oracle@[j]).0
                    == g.outcomes@[g.outcomes@.len() as int / 2].0 ==> bs@[0].0@
                    == g.oracle@[j].2@ && (bs@.len() == 2 ==> bs@[1].0@ == g.oracle@[j].1@)
            },
            Err(_) => g.outcomes@.len() >= 2,
        },
    decreases ctx.depth_budget, 1int,
{
    let mut r: Vec<(Clause, Template, Vec<u8>)> = Vec::new();
    let n = g.outcomes.len();
    let gte_guard = g.price(true);
    let lt_guard = g.price(false);
    match recurse_over(g, n / 2, n, ctx)? {
        Some(p) => r.push((gte_guard, p.0, p.1)),
        None => {},
    }
    match recurse_over(g, 0, n / 2, ctx)? {
        Some(p) => r.push((lt_guard, p.0, p.1)),
        None => {},
    }
    Ok(r)
}

/// Enumerate the committed forward branches of a contract, in
/// declaration order.  Each branch carries its guard, the finished
/// template, and the template's commitment hash.
fn then_branches(def: &ContractDef, ctx: &Context) -> (r: Result<
    Vec<(Clause, Template, Vec<u8>)>,
    CompilationError,
>)
    requires
        wf_def(*def),
    ensures
        match r {
            Ok(bs) => {
                &&& (forall|i: int| 0 <= i < bs@.len() ==> wf_branch(#[trigger] bs@[i]))
                &&& match *def {
                    ContractDef::PayToPublicKey(_) => bs@.len() == 0,
                    ContractDef::BasicEscrow(_) => bs@.len() == 0,
                    ContractDef::BasicEscrow2(_) => bs@.len() == 0,
                    ContractDef::TrustlessEscrow(_) => bs@.len() == 1,
                    ContractDef::UndoSend(_) => bs@.len() == 2,
                    ContractDef::Vault(v) => (v.n_steps == 0 <==> bs@.len() == 0)
                        && (v.n_steps >= 1 ==> bs@.len() == 2),
                    ContractDef::TreePay(_) => bs@.len() == 1,
                    ContractDef::GenericBet(g) => bs@.len() == if g.outcomes@.len() >= 2 {
                        2int
                    } else {
                        1int
                    },
                }
            },
            Err(_) => match *def {
                ContractDef::PayToPublicKey(_) => false,
                ContractDef::BasicEscrow(_) => false,
                ContractDef::BasicEscrow2(_) => false,
                ContractDef::Vault(v) => v.n_steps >= 1,
                _ => true,
            },
        },
    decreases ctx.depth_budget, 2int,
{
    match def {
        ContractDef::PayToPublicKey(_) => Ok(Vec::new()),
        ContractDef::BasicEscrow(_) => Ok(Vec::new()),
        ContractDef::BasicEscrow2(_) => Ok(Vec::new()),
        ContractDef::TrustlessEscrow(s) => trustless_branches(s, ctx),
        ContractDef::UndoSend(u) => undo_send_branches(u, ctx),
        ContractDef::Vault(v) => vault_branches(v, ctx),
        ContractDef::TreePay(tp) => tree_pay_branches(tp, ctx),
        ContractDef::GenericBet(g) => bet_branches(g, ctx),
    }
}

/// The pure terminal spend conditions of a contract, in declaration
/// order.
fn finish_guards(def: &ContractDef) -> (r: Vec<Clause>)
    ensures
        match *def {
            ContractDef::PayToPublicKey(s) => r@.len() == 1 && r@[0]@
                == crate::clause::ClauseS::Key(s.key@),
            ContractDef::BasicEscrow(s) => r@.len() == 1 && r@[0]@
                == crate::contracts::redeem_spec(s),
            ContractDef::BasicEscrow2(_) => r@.len() == 2,
            ContractDef::TrustlessEscrow(s) => r@.len() == 1 && r@[0]@
                == crate::clause::ClauseS::And(
                seq![
                    crate::clause::ClauseS::Key(s.alice@),
                    crate::clause::ClauseS::Key(s.bob@),
                ],
            ),
            ContractDef::UndoSend(_) => r@.len() == 0,
            ContractDef::Vault(_) => r@.len() == 0,
            ContractDef::TreePay(_) => r@.len() == 0,
            ContractDef::GenericBet(g) => r@.len() == 1 && r@[0]@ == g.cooperate@,
        },
{
    let mut r: Vec<Clause> = Vec::new();
    match def {
        ContractDef::PayToPublicKey(s) => {
            r.push(s.with_key());
        },
        ContractDef::BasicEscrow(s) => {
            r.push(s.redeem());
        },
        ContractDef::BasicEscrow2(s) => {
            r.push(s.use_escrow());
            r.push(s.cooperate());
        },
        ContractDef::TrustlessEscrow(s) => {
            r.push(s.cooperate());
        },
        ContractDef::UndoSend(_) => {},
        ContractDef::Vault(_) => {},
        ContractDef::TreePay(_) => {},
        ContractDef::GenericBet(g) => {
            r.push(g.cooperate.deep_clone());
        },
    }
    r
}

/// Register one committed branch: check conservation against the
/// funding, refuse duplicate commitments, record the child under its
/// hash, and emit the branch clause `And(guard, Ctv(hash))`.
fn register_branch(
    children: &mut Vec<(Vec<u8>, Template)>,
    cls: &mut Vec<Clause>,
    entry: &(Clause, Template, Vec<u8>),
    funding: u64,
    path: &Vec<String>,
) -> (r: Result<u64, CompilationError>)
    requires
        wf_branch(*entry),
        forall|i: int| 0 <= i < old(children)@.len()
            ==> child_ok(#[trigger] old(children)@[i], funding),
        forall|i: int, j: int| 0 <= i < j < old(children)@.len()
            ==> (#[trigger] old(children)@[i]).0@ != (#[trigger] old(children)@[j]).0@,
    ensures
        match r {
            Ok(total) => {
                &&& total <= funding
                &&& final(children)@.len() == old(children)@.len() + 1
                &&& final(cls)@.len() == old(cls)@.len() + 1
                &&& forall|i: int| 0 <= i < final(children)@.len()
                    ==> child_ok(#[trigger] final(children)@[i], funding)
                &&& forall|i: int, j: int| 0 <= i < j < final(children)@.len()
                    ==> (#[trigger] final(children)@[i]).0@ != (#[trigger] final(children)@[j]).0@
            },
            Err(_) => true,
        },
{
    let guard = entry.0.deep_clone();
    let t = clone_template(&entry.1);
    let h = clone_bytes(&entry.2);
    let total = match outputs_total(&t.outputs) {
        Some(total) => total,
        None => {
            return Err(CompilationError::at(
                ErrorKind::AmountNotConserved,
                clone_path(path),
                "template outputs exceed the funds reaching this node".to_string(),
            ));
        },
    };
    if total > funding {
        return Err(CompilationError::at(
            ErrorKind::AmountNotConserved,
            clone_path(path),
            "template outputs exceed the funds reaching this node".to_string(),
        ));
    }
    if contains_hash(children, &h) {
        return Err(CompilationError::at(
            ErrorKind::DuplicateCommitment,
            clone_path(path),
            "duplicate commitment hash".to_string(),
        ));
    }
    let ghost children_old = children@;
    let hc = clone_bytes(&h);
    children.push((hc, t));
    proof {
        assert(children@.drop_last() =~= children_old);
        assert(children@.last().0@ == h@);
    }
    cls.push(Clause::And(clause_pair(guard, Clause::Ctv(h))));
    Ok(total)
}

/// Compile one contract instance under a context.  On success the node
/// satisfies the structural invariant: its policy is in normal form,
/// every committed child is keyed by exactly its template's commitment
/// hash, keys are unique, and no committed template distributes more
/// than the funds that reach the node.
#[verifier::rlimit(100)]
pub fn compile(def: &ContractDef, ctx: Context) -> (r: Result<Compiled, CompilationError>)
    requires
        wf_def(*def),
    ensures
        match r {
            Ok(c) => {
                &&& wf_compiled(c)
                &&& c.amount_range.1 == ctx.available_amount
                &&& children_count_ok(*def, c)
            },
            Err(_) => true,
        },
        (*def) is PayToPublicKey ==> r is Ok && r->Ok_0.policy@ == crate::clause::ClauseS::Key(
            def->PayToPublicKey_0.key@,
        ) && r->Ok_0.address.script_pubkey@ == crate::policy::policy_script(
            crate::clause::ClauseS::Key(def->PayToPublicKey_0.key@),
        ),
        (*def) is Vault && def->Vault_0.n_steps == 0 ==> r is Err && r->Err_0.kind
            == ErrorKind::NoSpendPaths,
    decreases ctx.depth_budget, 3int,
{
    let branches = then_branches(def, &ctx)?;
    let ghost bs0 = branches@;
    let mut children: Vec<(Vec<u8>, Template)> = Vec::new();
    let mut cls: Vec<Clause> = Vec::new();
    let mut min_needed: u64 = 0;
    let mut k: usize = 0;
    while k < branches.len()
        invariant
            0 <= k <= branches@.len(),
            branches@ == bs0,
            (*def) is PayToPublicKey ==> bs0.len() == 0,
            (*def) is Vault && def->Vault_0.n_steps == 0 ==> bs0.len() == 0,
            forall|i: int| 0 <= i < bs0.len() ==> wf_branch(#[trigger] bs0[i]),
            min_needed <= ctx.available_amount,
            cls@.len() == k,
            children@.len() == k,
            forall|i: int| 0 <= i < children@.len()
                ==> child_ok(#[trigger] children@[i], ctx.available_amount),
            forall|i: int, j: int| 0 <= i < j < children@.len()
                ==> (#[trigger] children@[i]).0@ != (#[trigger] children@[j]).0@,
        decreases branches@.len() - k,
    {
        proof {
            assert(wf_branch(bs0[k as int]));
        }
        let total = register_branch(
            &mut children,
            &mut cls,
            &branches[k],
            ctx.available_amount,
            &ctx.path,
        )?;
        if total > min_needed {
            min_needed = total;
        }
        k += 1;
    }
    let mut guards = finish_guards(def);
    let ghost cls0v = Clause::view_children(cls@);
    let ghost gq0 = guards@;
    let ng = guards.len();
    let mut gi: usize = 0;
    while guards.len() > 0
        invariant
            guards@ =~= gq0.subrange(gi as int, gq0.len() as int),
            0 <= gi <= gq0.len(),
            gq0.len() == ng,
            Clause::view_children(cls@) =~= cls0v + Clause::view_children(gq0.take(gi as int)),
            min_needed <= ctx.available_amount,
            forall|i: int| 0 <= i < children@.len()
                ==> child_ok(#[trigger] children@[i], ctx.available_amount),
            forall|i: int, j: int| 0 <= i < j < children@.len()
                ==> (#[trigger] children@[i]).0@ != (#[trigger] children@[j]).0@,
        decreases guards@.len(),
    {
        proof {
            assert(guards@[0] == gq0[gi as int]);
        }
        let c = guards.remove(0);
        let ghost cls_old = cls@;
        cls.push(c);
        proof {
            crate::norm::lemma_view_children_push(cls_old, c);
            assert(gq0.take(gi + 1).drop_last() =~= gq0.take(gi as int));
            assert(gq0.take(gi + 1).last() == gq0[gi as int]);
            assert(gi < gq0.len());
        }
        gi += 1;
        proof {
            assert(gq0.subrange(gi - 1, gq0.len() as int).drop_first()
                =~= gq0.subrange(gi as int, gq0.len() as int));
        }
    }
    proof {
        if (*def) is PayToPublicKey {
            let key = def->PayToPublicKey_0.key@;
            assert(bs0.len() == 0);
            assert(cls0v =~= Seq::<crate::clause::ClauseS>::empty());
            assert(gq0.len() == 1 && gq0[0]@ == crate::clause::ClauseS::Key(key));
            lemma_view_children(gq0);
            assert(gq0.take(gi as int) =~= gq0);
            assert(Clause::view_children(gq0)[0] == gq0[0]@);
            assert(Clause::view_children(cls@)
                =~= seq![crate::clause::ClauseS::Key(key)]);
        }
    }
    proof {
        lemma_view_children(cls@);
        lemma_view_children(gq0);
    }
    if cls.len() == 0 {
        return Err(CompilationError::at(
            ErrorKind::NoSpendPaths,
            clone_path(&ctx.path),
            "policy admits no spending path".to_string(),
        ));
    }
    let policy_src = Clause::Or(cls);
    let normalized = policy_src.normalize();
    proof {
        lemma_norm_normal(policy_src@);
        if (*def) is PayToPublicKey {
            let key = def->PayToPublicKey_0.key@;
            crate::norm::lemma_norm_or_single_key(key);
            assert(normalized@ == crate::clause::ClauseS::Key(key));
            assert(!crate::policy::tl_conflict(normalized@));
        }
    }
    match &normalized {
        Clause::Unsatisfiable => {
            proof {
                if (*def) is PayToPublicKey {
                    assert(normalized@ == crate::clause::ClauseS::Unsatisfiable);
                }
            }
            return Err(CompilationError::at(
                ErrorKind::NoSpendPaths,
                clone_path(&ctx.path),
                "policy admits no spending path".to_string(),
            ));
        },
        _ => {},
    }
    let address = compile_to_policy(&normalized, &ctx.path)?;
    let result = Compiled {
        address,
        policy: normalized,
        amount_range: (min_needed, ctx.available_amount),
        known_children: children,
        metadata: Vec::new(),
        descriptors: Vec::new(),
    };
    proof {
        assert forall|i: int| 0 <= i < result.known_children@.len() implies {
            &&& (#[trigger] result.known_children@[i]).0@ == ctv_hash(result.known_children@[i].1)
            &&& result.known_children@[i].0@.len() == 32
            &&& wf_template(result.known_children@[i].1)
            &&& sum_outputs(result.known_children@[i].1.outputs@) <= result.amount_range.1
        } by {
            assert(child_ok(result.known_children@[i], ctx.available_amount));
        }
        assert(wf_compiled(result));
    }
    Ok(result)
}

} // verus!
