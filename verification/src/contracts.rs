//! The contract library: each structure describes one covenant contract
//! and exposes its guards and continuation data to the compiler.
use vstd::prelude::*;
use crate::clause::{Clause, ClauseS, clone_bytes, lemma_view_children};
use crate::template::{Address, Template, Compiled, wf_address, wf_compiled, wf_template,
    clone_address, clone_template, ctv_hash};
use crate::context::{CompilationError, ErrorKind, clone_path};

verus! {

/// Build the two-element child list of a combinator.
pub fn clause_pair(a: Clause, b: Clause) -> (r: Vec<Clause>)
    ensures
        Clause::view_children(r@) == seq![a@, b@],
{
    let ghost av = a@;
    let ghost bv = b@;
    let mut r: Vec<Clause> = Vec::new();
    r.push(a);
    r.push(b);
    proof {
        lemma_view_children(r@);
        assert(r@[0]@ == av);
        assert(r@[1]@ == bv);
        assert(Clause::view_children(r@) =~= seq![av, bv]);
    }
    r
}

/// Pay to a single public key.
#[derive(Debug)]
pub struct PayToPublicKey {
    /// The key that may spend.
    pub key: Vec<u8>,
}

impl PayToPublicKey {
    /// The single spending condition: a signature by `key`.
    pub fn with_key(&self) -> (r: Clause)
        ensures
            r@ == ClauseS::Key(self.key@),
    {
        Clause::Key(clone_bytes(&self.key))
    }
}

/// Escrow: the two parties settle together, or the escrow key plus
/// either party.
#[derive(Debug)]
pub struct BasicEscrow {
    /// First party.
    pub alice: Vec<u8>,
    /// Second party.
    pub bob: Vec<u8>,
    /// The escrow agent.
    pub escrow: Vec<u8>,
}

/// The single redemption condition of `BasicEscrow`.
pub open spec fn redeem_spec(s: BasicEscrow) -> ClauseS {
    ClauseS::Threshold(
        1,
        seq![
            ClauseS::Threshold(2, seq![ClauseS::Key(s.alice@), ClauseS::Key(s.bob@)]),
            ClauseS::And(
                seq![
                    ClauseS::Key(s.escrow@),
                    ClauseS::Threshold(1, seq![ClauseS::Key(s.alice@), ClauseS::Key(s.bob@)]),
                ],
            ),
        ],
    )
}

impl BasicEscrow {
    /// Either both parties, or the escrow agent plus one party.
    pub fn redeem(&self) -> (r: Clause)
        ensures
            r@ == redeem_spec(*self),
    {
        let both = Clause::Threshold(
            2,
            clause_pair(Clause::Key(clone_bytes(&self.alice)), Clause::Key(clone_bytes(&self.bob))),
        );
        let either = Clause::Threshold(
            1,
            clause_pair(Clause::Key(clone_bytes(&self.alice)), Clause::Key(clone_bytes(&self.bob))),
        );
        let with_escrow = Clause::And(clause_pair(Clause::Key(clone_bytes(&self.escrow)), either));
        Clause::Threshold(1, clause_pair(both, with_escrow))
    }
}

/// The same escrow, written as two separate guards.
#[derive(Debug)]
pub struct BasicEscrow2 {
    /// First party.
    pub alice: Vec<u8>,
    /// Second party.
    pub bob: Vec<u8>,
    /// The escrow agent.
    pub escrow: Vec<u8>,
}

impl BasicEscrow2 {
    /// The escrow agent plus both parties' threshold.
    pub fn use_escrow(&self) -> (r: Clause)
        ensures
            r@ == ClauseS::And(
                seq![
                    ClauseS::Key(self.escrow@),
                    ClauseS::Threshold(2, seq![ClauseS::Key(self.alice@), ClauseS::Key(self.bob@)]),
                ],
            ),
    {
        let both = Clause::Threshold(
            2,
            clause_pair(Clause::Key(clone_bytes(&self.alice)), Clause::Key(clone_bytes(&self.bob))),
        );
        Clause::And(clause_pair(Clause::Key(clone_bytes(&self.escrow)), both))
    }

    /// Both parties cooperate.
    pub fn cooperate(&self) -> (r: Clause)
        ensures
            r@ == ClauseS::And(seq![ClauseS::Key(self.alice@), ClauseS::Key(self.bob@)]),
    {
        Clause::And(
            clause_pair(Clause::Key(clone_bytes(&self.alice)), Clause::Key(clone_bytes(&self.bob))),
        )
    }
}

/// Escrow without an agent: a committed refund template replaces trust.
#[derive(Debug)]
pub struct TrustlessEscrow {
    /// First party.
    pub alice: Vec<u8>,
    /// Second party.
    pub bob: Vec<u8>,
    /// Amount and destination refunding the first party.
    pub alice_escrow: (u64, Address),
    /// Amount and destination refunding the second party.
    pub bob_escrow: (u64, Address),
}

impl TrustlessEscrow {
    /// Both parties cooperate.
    pub fn cooperate(&self) -> (r: Clause)
        ensures
            r@ == ClauseS::And(seq![ClauseS::Key(self.alice@), ClauseS::Key(self.bob@)]),
    {
        Clause::And(
            clause_pair(Clause::Key(clone_bytes(&self.alice)), Clause::Key(clone_bytes(&self.bob))),
        )
    }
}

/// A committed payment that can be undone before `timeout` matures.
#[derive(Debug)]
pub struct UndoSendInternal {
    /// Where the funds return on undo.
    pub from_contract: Compiled,
    /// Where the funds finally go.
    pub to_contract: Compiled,
    /// The amount moved either way.
    pub amount: u64,
    /// Relative delay before the forward payment can confirm.
    pub timeout: u32,
}

/// Where a vault's cold storage lies.
#[derive(Debug)]
pub enum ColdStorage {
    /// A fixed address.
    Fixed(Address),
    /// A tree of payments to one address, split by a per-address cap.
    Tree {
        /// The destination address of every split payment.
        address: Address,
        /// The largest amount a single payment may carry.
        max_per_address: u64,
        /// Branching factor of the payment tree.
        radix: usize,
    },
}

/// Whether a cold-storage description is usable.
pub open spec fn wf_cold(c: ColdStorage) -> bool {
    match c {
        ColdStorage::Fixed(a) => wf_address(a),
        ColdStorage::Tree { address, max_per_address, radix } => wf_address(address)
            && max_per_address >= 1 && radix >= 1,
    }
}

/// An annuity chain paying `amount_step` towards hot storage every
/// `timeout` period for `n_steps`, with an escape to cold storage at
/// every step.
#[derive(Debug)]
pub struct Vault {
    /// Destination of the cold-storage escape.
    pub cold_storage: ColdStorage,
    /// Destination of the per-step payout.
    pub hot_storage: Address,
    /// Steps left in the chain.
    pub n_steps: u64,
    /// Satoshis released per step.
    pub amount_step: u64,
    /// Relative delay between steps.
    pub timeout: u32,
    /// Relative delay before a released payout finalizes.
    pub mature: u32,
}

/// A vault whose cold storage is a plain address.
#[derive(Debug)]
pub struct VaultAddress {
    /// The cold-storage address.
    pub cold_storage: Address,
    /// Destination of the per-step payout.
    pub hot_storage: Address,
    /// Steps left in the chain.
    pub n_steps: u64,
    /// Satoshis released per step.
    pub amount_step: u64,
    /// Relative delay between steps.
    pub timeout: u32,
    /// Relative delay before a released payout finalizes.
    pub mature: u32,
}

/// A vault whose cold storage splits into a payment tree, capped per
/// address.
#[derive(Debug)]
pub struct VaultTree {
    /// The cold-storage address every split payment pays.
    pub cold_storage: Address,
    /// The largest amount a single payment may carry.
    pub max_per_address: u64,
    /// Branching factor of the payment tree.
    pub radix: usize,
    /// Destination of the per-step payout.
    pub hot_storage: Address,
    /// Steps left in the chain.
    pub n_steps: u64,
    /// Satoshis released per step.
    pub amount_step: u64,
    /// Relative delay between steps.
    pub timeout: u32,
    /// Relative delay before a released payout finalizes.
    pub mature: u32,
}

impl Vault {
    /// Specialize a vault to a fixed cold-storage address.
    pub fn from(v: VaultAddress) -> (r: Vault)
        ensures
            r.cold_storage == ColdStorage::Fixed(v.cold_storage),
            r.hot_storage == v.hot_storage,
            r.n_steps == v.n_steps,
            r.amount_step == v.amount_step,
            r.timeout == v.timeout,
            r.mature == v.mature,
    {
        Vault {
            cold_storage: ColdStorage::Fixed(v.cold_storage),
            hot_storage: v.hot_storage,
            n_steps: v.n_steps,
            amount_step: v.amount_step,
            timeout: v.timeout,
            mature: v.mature,
        }
    }

    /// Specialize a vault to tree-split cold storage.  Fails when the
    /// per-address cap or the branching factor is degenerate.
    pub fn try_from(v: VaultTree) -> (r: Result<Vault, CompilationError>)
        ensures
            match r {
                Ok(w) => {
                    &&& v.max_per_address >= 1
                    &&& v.radix >= 1
                    &&& w.cold_storage == ColdStorage::Tree {
                        address: v.cold_storage,
                        max_per_address: v.max_per_address,
                        radix: v.radix,
                    }
                    &&& w.hot_storage == v.hot_storage
                    &&& w.n_steps == v.n_steps
                    &&& w.amount_step == v.amount_step
                    &&& w.timeout == v.timeout
                    &&& w.mature == v.mature
                },
                Err(e) => {
                    &&& e.kind == ErrorKind::TerminateCompilation
                    &&& (v.max_per_address < 1 || v.radix < 1)
                },
            },
    {
        if v.max_per_address < 1 || v.radix < 1 {
            return Err(CompilationError::at(
                ErrorKind::TerminateCompilation,
                Vec::new(),
                "degenerate parameters".to_string(),
            ));
        }
        Ok(Vault {
            cold_storage: ColdStorage::Tree {
                address: v.cold_storage,
                max_per_address: v.max_per_address,
                radix: v.radix,
            },
            hot_storage: v.hot_storage,
            n_steps: v.n_steps,
            amount_step: v.amount_step,
            timeout: v.timeout,
            mature: v.mature,
        })
    }
}

/// One leaf of a tree payment.
#[derive(Debug)]
pub struct Payment {
    /// Satoshis paid.
    pub amount: u64,
    /// The destination address.
    pub address: Address,
}

/// Pay a set of participants through a tree of transactions bounded by
/// `radix` outputs per node.
#[derive(Debug)]
pub struct TreePay {
    /// The payments to deliver.
    pub participants: Vec<Payment>,
    /// Largest number of outputs per tree node.
    pub radix: usize,
}

/// Total satoshis across a payment list.
pub open spec fn sum_payments(ps: Seq<Payment>) -> int
    decreases ps,
{
    if ps.len() == 0 {
        0
    } else {
        sum_payments(ps.drop_last()) + ps.last().amount
    }
}

/// Split `amount` into cold-storage payments of at most `max` each: full
/// payments of `max`, then the positive remainder.  The split conserves
/// the amount exactly, every payment is positive, and the number of
/// payments is the amount divided by the cap, rounded up.
pub fn tree_payments(amount: u64, max: u64, address: &Address) -> (r: Vec<Payment>)
    requires
        max >= 1,
        wf_address(*address),
    ensures
        sum_payments(r@) == amount,
        r@.len() == (amount + max - 1) / (max as int),
        forall|i: int| 0 <= i < r@.len() ==> 1 <= (#[trigger] r@[i]).amount <= max
            && r@[i].address.script_pubkey@ == address.script_pubkey@
            && wf_address(r@[i].address),
{
    let mut pmts: Vec<Payment> = Vec::new();
    let mut amt: u64 = amount;
    while amt > max
        invariant
            max >= 1,
            wf_address(*address),
            sum_payments(pmts@) + amt == amount,
            amt <= amount,
            amount > 0 ==> amt >= 1,
            pmts@.len() * max == amount - amt,
            forall|i: int| 0 <= i < pmts@.len() ==> 1 <= (#[trigger] pmts@[i]).amount <= max
                && pmts@[i].address.script_pubkey@ == address.script_pubkey@
                && wf_address(pmts@[i].address),
        decreases amt,
    {
        let ghost before = pmts@;
        pmts.push(Payment { amount: max, address: clone_address(address) });
        proof {
            assert(pmts@.drop_last() =~= before);
            assert((before.len() + 1) * max == before.len() * max + max) by (nonlinear_arith);
        }
        amt = amt - max;
    }
    let ghost full = pmts@.len() as int;
    if amt > 0 {
        let ghost before = pmts@;
        pmts.push(Payment { amount: amt, address: clone_address(address) });
        proof {
            assert(pmts@.drop_last() =~= before);
            assert(1 <= amt <= max);
            assert((full * max + (amt + max - 1)) / (max as int) == full + (amt + max - 1) / (
            max as int)) by (nonlinear_arith)
                requires
                    max >= 1,
                    full >= 0,
                    amt >= 1,
            ;
            assert((amt + max - 1) / (max as int) == 1) by (nonlinear_arith)
                requires
                    1 <= amt <= max,
            ;
        }
        return pmts;
    }
    proof {
        assert(amt == 0 && amount == full * max);
        assert((full * max + max - 1) / (max as int) == full) by (nonlinear_arith)
            requires
                max >= 1,
                full >= 0,
        ;
    }
    pmts
}

/// A price oracle, pre-materialized into a table: for each symbol and
/// strike price, the clauses attesting "below" and "at or above".
#[derive(Debug)]
pub struct Oracle {
    /// `(symbol, price, lt clause, gte clause)` rows.
    pub entries: Vec<(String, i64, Clause, Clause)>,
}

/// Whether the oracle's rows hold an attestation for this symbol and
/// strike price.
pub open spec fn oracle_covers(
    entries: Seq<(String, i64, Clause, Clause)>,
    symbol: Seq<char>,
    price: i64,
) -> bool {
    exists|j: int| 0 <= j < entries.len() && (#[trigger] entries[j]).0@ == symbol
        && entries[j].1 == price
}

/// Whether some outcome's strike price has no oracle attestation.
pub open spec fn some_outcome_uncovered(
    entries: Seq<(String, i64, Clause, Clause)>,
    symbol: Seq<char>,
    os: Seq<(i64, Template)>,
) -> bool {
    exists|i: int| 0 <= i < os.len() && !oracle_covers(entries, symbol, (#[trigger] os[i]).0)
}

/// A cached row carries the clause pair of some oracle row for the same
/// symbol and its own strike price.
pub open spec fn cache_row_ok(
    entries: Seq<(String, i64, Clause, Clause)>,
    symbol: Seq<char>,
    row: (i64, Clause, Clause),
) -> bool {
    exists|j: int| 0 <= j < entries.len() && (#[trigger] entries[j]).0@ == symbol
        && entries[j].1 == row.0 && row.1@ == entries[j].2@ && row.2@ == entries[j].3@
}

impl Oracle {
    /// The attestation clause pair of the first row matching this symbol
    /// and strike price, if the oracle covers it.
    pub fn get_key_lt_gte(&self, symbol: &String, price: i64) -> (r: Option<(Clause, Clause)>)
        ensures
            match r {
                Some(p) => exists|j: int| 0 <= j < self.entries@.len()
                    && (#[trigger] self.entries@[j]).0@ == symbol@ && self.entries@[j].1 == price
                    && p.0@ == self.entries@[j].2@ && p.1@ == self.entries@[j].3@
                    && forall|l: int| 0 <= l < j ==> !((#[trigger] self.entries@[l]).0@ == symbol@
                        && self.entries@[l].1 == price),
                None => !oracle_covers(self.entries@, symbol@, price),
            },
            r is Some == oracle_covers(self.entries@, symbol@, price),
    {
        let mut i: usize = 0;
        while i < self.entries.len()
            invariant
                0 <= i <= self.entries@.len(),
                forall|j: int| 0 <= j < i ==> !((#[trigger] self.entries@[j]).0@ == symbol@
                    && self.entries@[j].1 == price),
            decreases self.entries@.len() - i,
        {
            let e = &self.entries[i];
            if e.0.eq(symbol) && e.1 == price {
                return Some((e.2.deep_clone(), e.3.deep_clone()));
            }
            i += 1;
        }
        None
    }
}

/// The setup of a bet: an amount, outcome templates keyed by price, an
/// oracle, a cooperative-close clause, and the symbol bet on.
#[derive(Debug)]
pub struct GenericBetArguments {
    /// Total amount at stake.
    pub amount: u64,
    /// Outcome templates keyed by price; need not be sorted.
    pub outcomes: Vec<(i64, Template)>,
    /// The oracle attesting prices.
    pub oracle: Oracle,
    /// Cooperative close by both parties.
    pub cooperate: Clause,
    /// The symbol whose price decides the bet.
    pub symbol: String,
}

/// A bet over a sorted list of outcomes, with all oracle attestations
/// cached locally, compiled as a binary tree of price splits.
#[derive(Debug)]
pub struct GenericBet {
    /// Total amount at stake.
    pub amount: u64,
    /// Outcome templates keyed by price, sorted ascending.
    pub outcomes: Vec<(i64, Template)>,
    /// Cached oracle rows: `(price, lt clause, gte clause)`.
    pub oracle: Vec<(i64, Clause, Clause)>,
    /// Cooperative close by both parties.
    pub cooperate: Clause,
}

/// The outcome keys are sorted ascending.
pub open spec fn sorted_outcomes(os: Seq<(i64, Template)>) -> bool {
    forall|i: int, j: int| 0 <= i < j < os.len() ==> (#[trigger] os[i]).0 <= (#[trigger] os[j]).0
}

/// Whether the cached oracle rows cover strike price `k`.
pub open spec fn key_covered(table: Seq<(i64, Clause, Clause)>, k: i64) -> bool {
    exists|j: int| 0 <= j < table.len() && (#[trigger] table[j]).0 == k
}

/// A compilable bet: at least one outcome, every outcome template
/// well-formed, every outcome key covered by the cached oracle rows, and
/// cached keys unique (so each lookup has exactly one answer).
pub open spec fn wf_bet(b: GenericBet) -> bool {
    &&& 1 <= b.outcomes@.len() <= 65535
    &&& forall|i: int| 0 <= i < b.outcomes@.len()
        ==> wf_template((#[trigger] b.outcomes@[i]).1)
    &&& forall|i: int| 0 <= i < b.outcomes@.len()
        ==> key_covered(b.oracle@, (#[trigger] b.outcomes@[i]).0)
    &&& forall|i: int, j: int| 0 <= i < j < b.oracle@.len()
        ==> (#[trigger] b.oracle@[i]).0 != (#[trigger] b.oracle@[j]).0
}

/// Sort outcome rows ascending by price, by repeated extraction of the
/// least remaining key.  The result is a permutation of the input.
fn sort_by_key(v: Vec<(i64, Template)>) -> (r: Vec<(i64, Template)>)
    ensures
        r@.len() == v@.len(),
        sorted_outcomes(r@),
        r@.to_multiset() == v@.to_multiset(),
        (forall|i: int| 0 <= i < v@.len() ==> wf_template((#[trigger] v@[i]).1))
            ==> (forall|i: int| 0 <= i < r@.len() ==> wf_template((#[trigger] r@[i]).1)),
{
    let ghost v0 = v@;
    let ghost all_wf = forall|i: int| 0 <= i < v0.len() ==> wf_template((#[trigger] v0[i]).1);
    let mut rem = v;
    let mut r: Vec<(i64, Template)> = Vec::new();
    proof {
        broadcast use vstd::seq_lib::group_to_multiset_ensures;

        assert(r@.to_multiset() =~= vstd::multiset::Multiset::<(i64, Template)>::empty());
        assert(r@.to_multiset().add(rem@.to_multiset()) =~= v0.to_multiset());
    }
    while rem.len() > 0
        invariant
            r@.len() + rem@.len() == v0.len(),
            r@.to_multiset().add(rem@.to_multiset()) == v0.to_multiset(),
            sorted_outcomes(r@),
            forall|a: int, b: int| 0 <= a < r@.len() && 0 <= b < rem@.len()
                ==> (#[trigger] r@[a]).0 <= (#[trigger] rem@[b]).0,
            all_wf == (forall|i: int| 0 <= i < v0.len() ==> wf_template((#[trigger] v0[i]).1)),
            all_wf ==> forall|k: int| 0 <= k < rem@.len()
                ==> wf_template((#[trigger] rem@[k]).1),
            all_wf ==> forall|k: int| 0 <= k < r@.len()
                ==> wf_template((#[trigger] r@[k]).1),
        decreases rem@.len(),
    {
        let mut m: usize = 0;
        let mut j: usize = 1;
        while j < rem.len()
            invariant
                0 <= m < rem@.len(),
                m < j <= rem@.len() || (j <= rem@.len() && m == 0),
                forall|k: int| 0 <= k < j ==> (#[trigger] rem@[k]).0 >= rem@[m as int].0,
            decreases rem@.len() - j,
        {
            if rem[j].0 < rem[m].0 {
                m = j;
            }
            j += 1;
        }
        let ghost rem_old = rem@;
        let e = rem.remove(m);
        proof {
            assert(forall|k: int| 0 <= k < m ==> rem@[k] == #[trigger] rem_old[k]);
            assert(forall|k: int| m <= k < rem@.len() ==> rem@[k] == #[trigger] rem_old[k + 1]);
        }
        let ghost r_old = r@;
        r.push(e);
        proof {
            broadcast use vstd::seq_lib::group_to_multiset_ensures;

            assert(forall|k: int| 0 <= k < r_old.len() ==> r@[k] == #[trigger] r_old[k]);
            assert(r@[r@.len() - 1] == e);
            assert(rem@.to_multiset() =~= rem_old.to_multiset().remove(e));
            assert(r@.to_multiset() =~= r_old.to_multiset().insert(e));
            assert(rem_old.to_multiset().count(e) >= 1) by {
                assert(rem_old.contains(e));
            }
            assert(r@.to_multiset().add(rem@.to_multiset()) =~= v0.to_multiset());
        }
    }
    proof {
        broadcast use vstd::seq_lib::group_to_multiset_ensures;

        assert(rem@.to_multiset() =~= vstd::multiset::Multiset::<(i64, Template)>::empty());
        assert(r@.to_multiset() =~= v0.to_multiset());
    }
    r
}

/// Whether a cached row already carries this strike price.
fn cache_has_key(cache: &Vec<(i64, Clause, Clause)>, k: i64) -> (r: bool)
    ensures
        r == key_covered(cache@, k),
{
    let mut i: usize = 0;
    while i < cache.len()
        invariant
            0 <= i <= cache@.len(),
            forall|j: int| 0 <= j < i ==> (#[trigger] cache@[j]).0 != k,
        decreases cache@.len() - i,
    {
        if cache[i].0 == k {
            proof {
                assert(cache@[i as int].0 == k);
            }
            return true;
        }
        i += 1;
    }
    proof {
        if key_covered(cache@, k) {
            let j = choose|j: int| 0 <= j < cache@.len() && (#[trigger] cache@[j]).0 == k;
        }
    }
    false
}

/// Cache one oracle attestation per distinct outcome key, in outcome
/// order.  Succeeds exactly when the oracle covers every outcome key.
fn build_cache(outcomes: &Vec<(i64, Template)>, oracle: &Oracle, symbol: &String) -> (r: Result<
    Vec<(i64, Clause, Clause)>,
    CompilationError,
>)
    ensures
        match r {
            Ok(cache) => {
                &&& forall|k: int| 0 <= k < outcomes@.len()
                    ==> key_covered(cache@, (#[trigger] outcomes@[k]).0)
                &&& forall|a: int, b: int| 0 <= a < b < cache@.len()
                    ==> (#[trigger] cache@[a]).0 != (#[trigger] cache@[b]).0
                &&& forall|k: int| 0 <= k < cache@.len()
                    ==> cache_row_ok(oracle.entries@, symbol@, #[trigger] cache@[k])
            },
            Err(e) => e.kind == ErrorKind::OracleUnavailable && some_outcome_uncovered(
                oracle.entries@,
                symbol@,
                outcomes@,
            ),
        },
{
    let mut cache: Vec<(i64, Clause, Clause)> = Vec::new();
    let mut i: usize = 0;
    while i < outcomes.len()
        invariant
            0 <= i <= outcomes@.len(),
            forall|k: int| 0 <= k < i ==> key_covered(cache@, (#[trigger] outcomes@[k]).0),
            forall|a: int, b: int| 0 <= a < b < cache@.len()
                ==> (#[trigger] cache@[a]).0 != (#[trigger] cache@[b]).0,
            forall|k: int| 0 <= k < cache@.len()
                ==> cache_row_ok(oracle.entries@, symbol@, #[trigger] cache@[k]),
        decreases outcomes@.len() - i,
    {
        let key = outcomes[i].0;
        if !cache_has_key(&cache, key) {
            match oracle.get_key_lt_gte(symbol, key) {
                Some(p) => {
                    let ghost cache_old = cache@;
                    cache.push((key, p.0, p.1));
                    proof {
                        assert(cache@.drop_last() =~= cache_old);
                        assert(cache@[cache@.len() - 1].0 == key);
                    }
                },
                None => {
                    proof {
                        assert(some_outcome_uncovered(oracle.entries@, symbol@, outcomes@)) by {
                            assert(!oracle_covers(
                                oracle.entries@,
                                symbol@,
                                outcomes@[i as int].0,
                            ));
                        }
                    }
                    return Err(CompilationError::at(
                        ErrorKind::OracleUnavailable,
                        Vec::new(),
                        "oracle does not attest this outcome".to_string(),
                    ));
                },
            }
        }
        i += 1;
    }
    Ok(cache)
}

impl GenericBet {
    /// Sort the outcomes for the binary split and cache one oracle
    /// attestation for each distinct outcome key.  The result's outcomes
    /// are a permutation of the input's; every cached row carries the
    /// clause pair of an oracle row for the symbol.  Succeeds exactly
    /// when there is at least one outcome, not more than the
    /// serializable bound, and the oracle covers every outcome key.
    pub fn from(v: GenericBetArguments) -> (r: Result<GenericBet, CompilationError>)
        requires
            forall|i: int| 0 <= i < v.outcomes@.len()
                ==> wf_template((#[trigger] v.outcomes@[i]).1),
        ensures
            match r {
                Ok(b) => {
                    &&& wf_bet(b)
                    &&& b.outcomes@.len() == v.outcomes@.len()
                    &&& sorted_outcomes(b.outcomes@)
                    &&& b.outcomes@.to_multiset() == v.outcomes@.to_multiset()
                    &&& b.amount == v.amount
                    &&& b.cooperate@ == v.cooperate@
                    &&& forall|i: int| 0 <= i < b.oracle@.len()
                        ==> cache_row_ok(v.oracle.entries@, v.symbol@, #[trigger] b.oracle@[i])
                },
                Err(e) => {
                    &&& (e.kind == ErrorKind::TerminateCompilation
                        || e.kind == ErrorKind::OracleUnavailable)
                    &&& (e.kind == ErrorKind::TerminateCompilation
                        ==> (v.outcomes@.len() == 0 || v.outcomes@.len() > 65535))
                    &&& (e.kind == ErrorKind::OracleUnavailable
                        ==> some_outcome_uncovered(v.oracle.entries@, v.symbol@, v.outcomes@))
                },
            },
            (1 <= v.outcomes@.len() <= 65535 && (forall|i: int| 0 <= i < v.outcomes@.len()
                ==> oracle_covers(v.oracle.entries@, v.symbol@, (#[trigger] v.outcomes@[i]).0)))
                ==> r is Ok,
    {
        let ghost v0 = v.outcomes@;
        if v.outcomes.len() == 0 || v.outcomes.len() > 65535 {
            return Err(CompilationError::at(
                ErrorKind::TerminateCompilation,
                Vec::new(),
                "degenerate parameters".to_string(),
            ));
        }
        let ghost entries0 = v.oracle.entries@;
        let ghost symbol0 = v.symbol@;
        let GenericBetArguments { amount, outcomes: raw, oracle, cooperate, symbol } = v;
        proof {
            assert(raw@ == v0);
            assert(oracle.entries@ == entries0);
            assert(symbol@ == symbol0);
        }
        let outcomes = sort_by_key(raw);
        let cache = match build_cache(&outcomes, &oracle, &symbol) {
            Ok(cache) => cache,
            Err(e) => {
                proof {
                    broadcast use vstd::seq_lib::group_to_multiset_ensures;

                    let i = choose|i: int| 0 <= i < outcomes@.len() && !oracle_covers(
                        entries0,
                        symbol0,
                        (#[trigger] outcomes@[i]).0,
                    );
                    assert(outcomes@.contains(outcomes@[i]));
                    assert(v0.to_multiset().count(outcomes@[i]) > 0);
                    assert(v0.contains(outcomes@[i]));
                    let j = choose|j: int| 0 <= j < v0.len() && v0[j] == outcomes@[i];
                    assert(some_outcome_uncovered(entries0, symbol0, v0)) by {
                        assert(!oracle_covers(entries0, symbol0, v0[j].0));
                    }
                }
                return Err(e);
            },
        };
        let ghost oc = outcomes@;
        let ghost cc = cache@;
        let b = GenericBet { amount, outcomes, oracle: cache, cooperate };
        proof {
            assert(b.outcomes@ == oc);
            assert(b.oracle@ == cc);
            assert forall|i2: int| 0 <= i2 < b.outcomes@.len() implies key_covered(
                b.oracle@,
                (#[trigger] b.outcomes@[i2]).0,
            ) by {
                assert(key_covered(cc, oc[i2].0));
            }
            assert forall|i2: int| 0 <= i2 < b.outcomes@.len() implies wf_template(
                (#[trigger] b.outcomes@[i2]).1,
            ) by {
                assert(wf_template(oc[i2].1));
            }
            assert(wf_bet(b));
        }
        Ok(b)
    }

    /// The cached oracle clause for the price in the middle of the
    /// outcome range: the "at or above" clause when `gte` is set, else
    /// the "below" clause.  Cached keys are unique, so the row read is
    /// the row for that price.
    pub fn price(&self, gte: bool) -> (r: Clause)
        requires
            wf_bet(*self),
        ensures
            forall|j: int| 0 <= j < self.oracle@.len() && (#[trigger] self.oracle@[j]).0
                == self.outcomes@[self.outcomes@.len() as int / 2].0 ==> r@ == if gte {
                self.oracle@[j].2@
            } else {
                self.oracle@[j].1@
            },
            key_covered(self.oracle@, self.outcomes@[self.outcomes@.len() as int / 2].0),
    {
        let key = self.outcomes[self.outcomes.len() / 2].0;
        let mut j: usize = 0;
        while j < self.oracle.len()
            invariant
                0 <= j <= self.oracle@.len(),
                key == self.outcomes@[self.outcomes@.len() as int / 2].0,
                wf_bet(*self),
                forall|k: int| 0 <= k < j ==> (#[trigger] self.oracle@[k]).0 != key,
            decreases self.oracle@.len() - j,
        {
            let e = &self.oracle[j];
            if e.0 == key {
                let c = if gte {
                    e.2.deep_clone()
                } else {
                    e.1.deep_clone()
                };
                proof {
                    assert(self.oracle@[j as int].0 == key);
                    assert forall|l: int| 0 <= l < self.oracle@.len()
                        && (#[trigger] self.oracle@[l]).0 == key implies l == j by {
                        if l < j {
                            assert(self.oracle@[l].0 != key);
                        }
                    }
                }
                return c;
            }
            j += 1;
        }
        proof {
            let mid = self.outcomes@.len() as int / 2;
            assert(key_covered(self.oracle@, self.outcomes@[mid].0));
            let j2 = choose|j2: int| 0 <= j2 < self.oracle@.len()
                && (#[trigger] self.oracle@[j2]).0 == self.outcomes@[mid].0;
            assert(false);
        }
        Clause::Trivial
    }
}

} // verus!
