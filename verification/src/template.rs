//! Transaction templates, their outputs, and compiled contract nodes,
//! together with the canonical serialization that the covenant
//! commitment hash is computed over.
use vstd::prelude::*;
use crate::clause::Clause;
use crate::norm::is_normal;
use crate::hash::{sha256_of, sha256, u32_le, u64_le, push_u32_le, push_u64_le};

verus! {

/// Transaction version committed by every template.
pub const TX_VERSION: u32 = 2;

/// Sequence value meaning "no relative lock" on an input.
pub const NO_SEQUENCE: u32 = 0xFFFF_FFFF;

/// An on-chain destination, held as its output script.
#[derive(Debug)]
pub struct Address {
    /// The script that an output paying this destination carries.
    pub script_pubkey: Vec<u8>,
}

/// A destination script is non-empty and short enough for a one-byte
/// length prefix: the canonical output serialization here writes the
/// script length as a single byte, which is the standard encoding only
/// for scripts under 253 bytes.  Longer scripts (and templates with more
/// than 65535 inputs or outputs) are out of this model's domain.
pub open spec fn wf_address(a: Address) -> bool {
    1 <= a.script_pubkey@.len() < 253
}

/// One output of a candidate transaction: an amount of satoshis sent to
/// a compiled contract, plus free-form metadata that compilation
/// preserves unmodified.
#[derive(Debug)]
pub struct Output {
    /// Satoshis sent to this output.
    pub amount: u64,
    /// The compiled contract receiving the funds.
    pub contract: Compiled,
    /// Free-form key/value annotations.
    pub metadata: Vec<(String, String)>,
}

/// A candidate next-transaction description.
#[derive(Debug)]
pub struct Template {
    /// Per-input relative lock values; input 0 is the covenant input.
    pub sequences: Vec<u32>,
    /// Absolute lock time.
    pub lock_time: u32,
    /// The outputs, in order.
    pub outputs: Vec<Output>,
    /// Optional human-readable tag.
    pub label: Option<String>,
    /// Free-form key/value annotations; never part of the commitment.
    pub metadata: Vec<(String, String)>,
}

/// The result of compiling a contract instance: an address whose script
/// tree enforces exactly the permitted continuations.
#[derive(Debug)]
pub struct Compiled {
    /// The on-chain destination enforcing `policy`.
    pub address: Address,
    /// The lowered spending condition at this node, in normal form.
    pub policy: Clause,
    /// Minimum and maximum satoshis this node is valid to receive.
    pub amount_range: (u64, u64),
    /// Committed continuations, keyed by commitment hash (unique keys).
    /// Each key maps to the committed template; the child compiled nodes
    /// stand inside that template's outputs.
    pub known_children: Vec<(Vec<u8>, Template)>,
    /// Free-form annotations, passed through unmodified.
    pub metadata: Vec<(String, String)>,
    /// Output descriptors, passed through unmodified.
    pub descriptors: Vec<String>,
}

/// Canonical serialization of one output: eight-byte little-endian
/// amount, one-byte script length, script bytes.
pub open spec fn ser_output(o: Output) -> Seq<u8> {
    u64_le(o.amount) + seq![o.contract.address.script_pubkey@.len() as u8]
        + o.contract.address.script_pubkey@
}

/// Canonical serialization of an output list, in order.
pub open spec fn ser_outputs(os: Seq<Output>) -> Seq<u8>
    decreases os,
{
    if os.len() == 0 {
        Seq::empty()
    } else {
        ser_outputs(os.drop_last()) + ser_output(os.last())
    }
}

/// Concatenated little-endian encodings of the input sequence values.
pub open spec fn ser_sequences(ss: Seq<u32>) -> Seq<u8>
    decreases ss,
{
    if ss.len() == 0 {
        Seq::empty()
    } else {
        ser_sequences(ss.drop_last()) + u32_le(ss.last())
    }
}

/// The preimage of the covenant commitment hash: version, lock time,
/// input count, digest of the sequences, output count, digest of the
/// serialized outputs, and the spent input index (zero by convention).
pub open spec fn ctv_payload(t: Template) -> Seq<u8> {
    u32_le(TX_VERSION) + u32_le(t.lock_time) + u32_le(t.sequences@.len() as u32)
        + sha256_of(ser_sequences(t.sequences@)) + u32_le(t.outputs@.len() as u32)
        + sha256_of(ser_outputs(t.outputs@)) + u32_le(0)
}

/// The covenant commitment hash: a double SHA-256 of the payload.
pub open spec fn ctv_hash(t: Template) -> Seq<u8> {
    sha256_of(sha256_of(ctv_payload(t)))
}

/// Total satoshis across the outputs.
pub open spec fn sum_outputs(os: Seq<Output>) -> int
    decreases os,
{
    if os.len() == 0 {
        0
    } else {
        sum_outputs(os.drop_last()) + os.last().amount
    }
}

/// A well-formed output funds a well-formed compiled contract within its
/// declared amount range.
pub open spec fn wf_output(o: Output) -> bool
    decreases o,
{
    wf_compiled(o.contract)
}

/// A well-formed template has a covenant input, bounded counts, and
/// well-formed outputs.
pub open spec fn wf_template(t: Template) -> bool
    decreases t,
{
    &&& 1 <= t.sequences@.len() <= 65535
    &&& 1 <= t.outputs@.len() <= 65535
    &&& forall|i: int| 0 <= i < t.outputs@.len() ==> wf_output(#[trigger] t.outputs@[i])
}

/// The structural invariant of a compiled node: a well-formed address, a
/// normal-form policy, an ordered amount range, and committed children
/// whose keys are the exact commitment hashes of their templates, are
/// unique, and whose outputs never exceed the node's funding.
pub open spec fn wf_compiled(c: Compiled) -> bool
    decreases c,
{
    &&& wf_address(c.address)
    &&& is_normal(c.policy@)
    &&& c.amount_range.0 <= c.amount_range.1
    &&& forall|i: int| 0 <= i < c.known_children@.len() ==> {
        &&& (#[trigger] c.known_children@[i]).0@ == ctv_hash(c.known_children@[i].1)
        &&& c.known_children@[i].0@.len() == 32
        &&& wf_template(c.known_children@[i].1)
        &&& sum_outputs(c.known_children@[i].1.outputs@) <= c.amount_range.1
    }
    &&& forall|i: int, j: int| 0 <= i < j < c.known_children@.len()
        ==> (#[trigger] c.known_children@[i]).0@ != (#[trigger] c.known_children@[j]).0@
}

/// Amount conservation: no committed template of a well-formed compiled
/// node distributes more satoshis than the node's funding; the deficit —
/// the fee — is never negative.
pub proof fn lemma_amount_conservation(c: Compiled)
    requires
        wf_compiled(c),
    ensures
        forall|i: int| 0 <= i < c.known_children@.len()
            ==> sum_outputs((#[trigger] c.known_children@[i]).1.outputs@) <= c.amount_range.1,
        forall|i: int| 0 <= i < c.known_children@.len()
            ==> c.amount_range.1 - sum_outputs((#[trigger] c.known_children@[i]).1.outputs@) >= 0,
{
}

/// Commitment binding: every committed child of a well-formed compiled
/// node is keyed by exactly the commitment hash of its template, and no
/// two children share a key.
pub proof fn lemma_commitment_binding(c: Compiled)
    requires
        wf_compiled(c),
    ensures
        forall|i: int| 0 <= i < c.known_children@.len()
            ==> (#[trigger] c.known_children@[i]).0@ == ctv_hash(c.known_children@[i].1),
        forall|i: int, j: int| 0 <= i < j < c.known_children@.len()
            ==> (#[trigger] c.known_children@[i]).0@ != (#[trigger] c.known_children@[j]).0@,
{
}

impl Compiled {
    /// Wrap a plain address as a compiled node with no committed
    /// continuations.  The conditions behind a foreign address are not
    /// modelled, so the policy is `Trivial` and the amount range is
    /// unconstrained.
    pub fn from_address(address: Address, metadata: Option<Vec<(String, String)>>) -> (r: Compiled)
        requires
            wf_address(address),
        ensures
            wf_compiled(r),
            r.address == address,
            r.known_children@.len() == 0,
            r.policy@ == crate::clause::ClauseS::Trivial,
            r.amount_range == (0u64, u64::MAX),
            r.metadata@ == (match metadata {
                Some(m) => m@,
                None => Seq::<(String, String)>::empty(),
            }),
    {
        let m = match metadata {
            Some(m) => m,
            None => Vec::new(),
        };
        Compiled {
            address,
            policy: Clause::Trivial,
            amount_range: (0, u64::MAX),
            known_children: Vec::new(),
            metadata: m,
            descriptors: Vec::new(),
        }
    }
}

/// Compute the covenant commitment hash of a template.
pub fn template_hash(t: &Template) -> (r: Vec<u8>)
    requires
        t.sequences@.len() <= 65535,
        t.outputs@.len() <= 65535,
        forall|i: int| 0 <= i < t.outputs@.len()
            ==> 1 <= (#[trigger] t.outputs@[i]).contract.address.script_pubkey@.len() < 253,
    ensures
        r@ == ctv_hash(*t),
        r@.len() == 32,
{
    let ghost ss = t.sequences@;
    let mut seq_bytes: Vec<u8> = Vec::new();
    let mut i: usize = 0;
    while i < t.sequences.len()
        invariant
            0 <= i <= t.sequences@.len(),
            ss == t.sequences@,
            seq_bytes@ == ser_sequences(ss.take(i as int)),
        decreases t.sequences@.len() - i,
    {
        push_u32_le(&mut seq_bytes, t.sequences[i]);
        proof {
            assert(ss.take(i + 1).drop_last() =~= ss.take(i as int));
            assert(ss.take(i + 1).last() == ss[i as int]);
        }
        i += 1;
    }
    proof {
        assert(ss.take(ss.len() as int) =~= ss);
    }

    let ghost os = t.outputs@;
    let mut out_bytes: Vec<u8> = Vec::new();
    let mut j: usize = 0;
    while j < t.outputs.len()
        invariant
            0 <= j <= t.outputs@.len(),
            os == t.outputs@,
            forall|k: int| 0 <= k < os.len()
                ==> 1 <= (#[trigger] os[k]).contract.address.script_pubkey@.len() < 253,
            out_bytes@ == ser_outputs(os.take(j as int)),
        decreases t.outputs@.len() - j,
    {
        let ghost before = out_bytes@;
        let o = &t.outputs[j];
        push_u64_le(&mut out_bytes, o.amount);
        let script = &o.contract.address.script_pubkey;
        out_bytes.push(script.len() as u8);
        let mut k: usize = 0;
        while k < script.len()
            invariant
                0 <= k <= script@.len(),
                out_bytes@ == before + u64_le(os[j as int].amount)
                    + seq![os[j as int].contract.address.script_pubkey@.len() as u8]
                    + script@.take(k as int),
                script@ == os[j as int].contract.address.script_pubkey@,
                j < os.len(),
                before == ser_outputs(os.take(j as int)),
            decreases script@.len() - k,
        {
            out_bytes.push(script[k]);
            proof {
                assert(script@.take(k + 1) =~= script@.take(k as int).push(script@[k as int]));
                assert(out_bytes@ =~= before + u64_le(os[j as int].amount)
                    + seq![os[j as int].contract.address.script_pubkey@.len() as u8]
                    + script@.take(k + 1));
            }
            k += 1;
        }
        proof {
            assert(script@.take(script@.len() as int) =~= script@);
            assert(os.take(j + 1).drop_last() =~= os.take(j as int));
            assert(os.take(j + 1).last() == os[j as int]);
            assert(out_bytes@ =~= ser_outputs(os.take(j as int)) + ser_output(os[j as int]));
        }
        j += 1;
    }
    proof {
        assert(os.take(os.len() as int) =~= os);
    }

    let seq_hash = sha256(&seq_bytes);
    let out_hash = sha256(&out_bytes);

    let mut payload: Vec<u8> = Vec::new();
    push_u32_le(&mut payload, TX_VERSION);
    push_u32_le(&mut payload, t.lock_time);
    push_u32_le(&mut payload, t.sequences.len() as u32);
    let mut sh = seq_hash;
    payload.append(&mut sh);
    push_u32_le(&mut payload, t.outputs.len() as u32);
    let mut oh = out_hash;
    payload.append(&mut oh);
    push_u32_le(&mut payload, 0);
    proof {
        assert(payload@ =~= ctv_payload(*t));
    }
    let h1 = sha256(&payload);
    sha256(&h1)
}

/// Sum of the output amounts; `None` when the total overflows.
pub fn outputs_total(os: &Vec<Output>) -> (r: Option<u64>)
    ensures
        match r {
            Some(n) => n == sum_outputs(os@),
            None => sum_outputs(os@) > u64::MAX,
        },
{
    let mut total: u64 = 0;
    let mut i: usize = 0;
    while i < os.len()
        invariant
            0 <= i <= os@.len(),
            total == sum_outputs(os@.take(i as int)),
        decreases os@.len() - i,
    {
        proof {
            assert(os@.take(i + 1).drop_last() =~= os@.take(i as int));
            assert(os@.take(i + 1).last() == os@[i as int]);
        }
        let a = os[i].amount;
        if total > u64::MAX - a {
            proof {
                lemma_sum_outputs_monotone(os@, i + 1, os@.len() as int);
                assert(os@.take(os@.len() as int) =~= os@);
            }
            return None;
        }
        total = total + a;
        i += 1;
    }
    proof {
        assert(os@.take(os@.len() as int) =~= os@);
    }
    Some(total)
}

/// Two output lists that agree on every amount and destination script
/// serialize identically and carry the same total.
pub open spec fn similar_outputs(a: Seq<Output>, b: Seq<Output>) -> bool {
    &&& a.len() == b.len()
    &&& forall|i: int| 0 <= i < a.len() ==> (#[trigger] a[i]).amount == b[i].amount
        && a[i].contract.address.script_pubkey@ == b[i].contract.address.script_pubkey@
}

/// Similar output lists have equal serializations and totals.
pub proof fn lemma_similar_outputs(a: Seq<Output>, b: Seq<Output>)
    requires
        similar_outputs(a, b),
    ensures
        ser_outputs(a) == ser_outputs(b),
        sum_outputs(a) == sum_outputs(b),
    decreases a.len(),
{
    if a.len() > 0 {
        assert(similar_outputs(a.drop_last(), b.drop_last())) by {
            assert(forall|i: int| 0 <= i < a.len() - 1 ==> a.drop_last()[i] == #[trigger] a[i]);
            assert(forall|i: int| 0 <= i < b.len() - 1 ==> b.drop_last()[i] == #[trigger] b[i]);
        }
        lemma_similar_outputs(a.drop_last(), b.drop_last());
        assert(a[a.len() - 1].amount == b[a.len() - 1].amount);
        assert(a.last().amount == b.last().amount);
        assert(a.last().contract.address.script_pubkey@
            == b.last().contract.address.script_pubkey@);
        assert(ser_output(a.last()) == ser_output(b.last()));
    }
}

/// Copy a list of free-form annotations.
pub fn clone_metadata(m: &Vec<(String, String)>) -> (r: Vec<(String, String)>)
    ensures
        r@ == m@,
{
    let mut r: Vec<(String, String)> = Vec::new();
    let mut i: usize = 0;
    while i < m.len()
        invariant
            0 <= i <= m@.len(),
            r@ == m@.take(i as int),
        decreases m@.len() - i,
    {
        r.push((m[i].0.clone(), m[i].1.clone()));
        proof {
            assert(m@[i as int] == (m@[i as int].0, m@[i as int].1));
            assert(r@ =~= m@.take(i + 1));
        }
        i += 1;
    }
    proof {
        assert(m@.take(m@.len() as int) =~= m@);
    }
    r
}

/// Copy an address; the copy carries the same script.
pub fn clone_address(a: &Address) -> (r: Address)
    ensures
        r.script_pubkey@ == a.script_pubkey@,
        wf_address(*a) ==> wf_address(r),
{
    Address { script_pubkey: crate::clause::clone_bytes(&a.script_pubkey) }
}

/// Copy an output.  The copy is well-formed when the original is, pays
/// the same amount to the same script, and keeps the metadata.
pub fn clone_output(o: &Output) -> (r: Output)
    ensures
        r.amount == o.amount,
        r.contract.address.script_pubkey@ == o.contract.address.script_pubkey@,
        wf_output(*o) ==> wf_output(r),
        r.metadata@ == o.metadata@,
    decreases o,
{
    Output {
        amount: o.amount,
        contract: clone_compiled(&o.contract),
        metadata: clone_metadata(&o.metadata),
    }
}

/// Copy an output list, preserving amounts, scripts and well-formedness.
pub fn clone_outputs(os: &Vec<Output>) -> (r: Vec<Output>)
    ensures
        similar_outputs(r@, os@),
        r@.len() == os@.len(),
        (forall|i: int| 0 <= i < os@.len() ==> wf_output(#[trigger] os@[i]))
            ==> (forall|i: int| 0 <= i < r@.len() ==> wf_output(#[trigger] r@[i])),
    decreases os,
{
    let mut r: Vec<Output> = Vec::new();
    let mut i: usize = 0;
    while i < os.len()
        invariant
            0 <= i <= os@.len(),
            r@.len() == i,
            forall|j: int| 0 <= j < i ==> (#[trigger] r@[j]).amount == os@[j].amount
                && r@[j].contract.address.script_pubkey@
                    == os@[j].contract.address.script_pubkey@
                && (wf_output(os@[j]) ==> wf_output(r@[j])),
        decreases os@.len() - i,
    {
        r.push(clone_output(&os[i]));
        i += 1;
    }
    r
}

/// Copy a template.  The copy commits to the same covenant hash.
pub fn clone_template(t: &Template) -> (r: Template)
    ensures
        ctv_hash(r) == ctv_hash(*t),
        wf_template(*t) ==> wf_template(r),
        r.sequences@ == t.sequences@,
        r.lock_time == t.lock_time,
        r.outputs@.len() == t.outputs@.len(),
        sum_outputs(r.outputs@) == sum_outputs(t.outputs@),
        similar_outputs(r.outputs@, t.outputs@),
    decreases t,
{
    let sequences = clone_u32s(&t.sequences);
    let outputs = clone_outputs(&t.outputs);
    let label = match &t.label {
        Some(l) => Some(l.clone()),
        None => None,
    };
    let r = Template {
        sequences,
        lock_time: t.lock_time,
        outputs,
        label,
        metadata: clone_metadata(&t.metadata),
    };
    proof {
        lemma_similar_outputs(r.outputs@, t.outputs@);
    }
    r
}

/// Copy a list of sequence values.
pub fn clone_u32s(v: &Vec<u32>) -> (r: Vec<u32>)
    ensures
        r@ == v@,
{
    let mut r: Vec<u32> = Vec::new();
    let mut i: usize = 0;
    while i < v.len()
        invariant
            0 <= i <= v@.len(),
            r@ == v@.take(i as int),
        decreases v@.len() - i,
    {
        r.push(v[i]);
        proof {
            assert(r@ =~= v@.take(i + 1));
        }
        i += 1;
    }
    proof {
        assert(v@.take(v@.len() as int) =~= v@);
    }
    r
}

/// Copy a compiled node.  The copy is well-formed when the original is
/// and stands at the same address.
pub fn clone_compiled(c: &Compiled) -> (r: Compiled)
    ensures
        r.address.script_pubkey@ == c.address.script_pubkey@,
        r.policy@ == c.policy@,
        r.amount_range == c.amount_range,
        wf_compiled(*c) ==> wf_compiled(r),
    decreases c,
{
    let ghost orig = *c;
    let mut known_children: Vec<(Vec<u8>, Template)> = Vec::new();
    let mut i: usize = 0;
    while i < c.known_children.len()
        invariant
            0 <= i <= c.known_children@.len(),
            known_children@.len() == i,
            forall|j: int| 0 <= j < i ==> (#[trigger] known_children@[j]).0@
                == c.known_children@[j].0@
                && ctv_hash(known_children@[j].1) == ctv_hash(c.known_children@[j].1)
                && (wf_template(c.known_children@[j].1) ==> wf_template(known_children@[j].1))
                && sum_outputs(known_children@[j].1.outputs@)
                    == sum_outputs(c.known_children@[j].1.outputs@),
        decreases c.known_children@.len() - i,
    {
        let entry = &c.known_children[i];
        known_children.push((crate::clause::clone_bytes(&entry.0), clone_template(&entry.1)));
        i += 1;
    }
    let r = Compiled {
        address: clone_address(&c.address),
        policy: c.policy.deep_clone(),
        amount_range: c.amount_range,
        known_children,
        metadata: clone_metadata(&c.metadata),
        descriptors: clone_strings(&c.descriptors),
    };
    r
}

/// Copy a list of descriptor strings.
pub fn clone_strings(v: &Vec<String>) -> (r: Vec<String>)
    ensures
        r@ == v@,
{
    let mut r: Vec<String> = Vec::new();
    let mut i: usize = 0;
    while i < v.len()
        invariant
            0 <= i <= v@.len(),
            r@ == v@.take(i as int),
        decreases v@.len() - i,
    {
        r.push(v[i].clone());
        proof {
            assert(r@ =~= v@.take(i + 1));
        }
        i += 1;
    }
    proof {
        assert(v@.take(v@.len() as int) =~= v@);
    }
    r
}

/// Output sums only grow as the list is extended.
pub proof fn lemma_sum_outputs_monotone(os: Seq<Output>, i: int, j: int)
    requires
        0 <= i <= j <= os.len(),
    ensures
        sum_outputs(os.take(i)) <= sum_outputs(os.take(j)),
    decreases j - i,
{
    if i < j {
        lemma_sum_outputs_monotone(os, i, j - 1);
        assert(os.take(j).drop_last() =~= os.take(j - 1));
    }
}

} // verus!
