//! Lowering of a normalized clause to its script policy artifact: a
//! canonical serialization, a feasibility check on time locks, and the
//! derived witness-program address.
use vstd::prelude::*;
use crate::clause::{Clause, ClauseS, lemma_view_children};
use crate::hash::{sha256_of, sha256, u32_le, push_u32_le};
use crate::template::{Address, wf_address};
use crate::context::{CompilationError, ErrorKind, clone_path};

verus! {

/// Threshold below which an absolute lock is a height, above a time.
pub const LOCKTIME_THRESHOLD: u32 = 500000000;

/// Whether a relative lock value is time-based.
pub open spec fn older_is_time(n: int) -> bool {
    n / 0x400000 % 2 == 1
}

/// Whether an absolute lock value is time-based.
pub open spec fn after_is_time(n: int) -> bool {
    n >= 500000000
}

/// A conjunction cannot require both a height-based and a time-based
/// lock of the same kind: no spending transaction satisfies both, so
/// the policy is not expressible.
pub open spec fn mixed_locks(xs: Seq<ClauseS>) -> bool {
    ||| exists|i: int, j: int| 0 <= i < xs.len() && 0 <= j < xs.len()
        && (#[trigger] xs[i]) is Older && (#[trigger] xs[j]) is Older
        && older_is_time(xs[i]->Older_0) != older_is_time(xs[j]->Older_0)
    ||| exists|i: int, j: int| 0 <= i < xs.len() && 0 <= j < xs.len()
        && (#[trigger] xs[i]) is After && (#[trigger] xs[j]) is After
        && after_is_time(xs[i]->After_0) != after_is_time(xs[j]->After_0)
}

/// Whether the clause holds a time-lock conflict anywhere.
pub open spec fn tl_conflict(c: ClauseS) -> bool
    decreases c,
{
    match c {
        ClauseS::And(xs) => mixed_locks(xs) || any_conflict(xs),
        ClauseS::Or(xs) => any_conflict(xs),
        ClauseS::Threshold(k, xs) => (k >= 2 && mixed_locks(xs)) || any_conflict(xs),
        _ => false,
    }
}

/// Whether some clause of the list holds a time-lock conflict.
pub open spec fn any_conflict(xs: Seq<ClauseS>) -> bool
    decreases xs,
{
    if xs.len() == 0 {
        false
    } else {
        any_conflict(xs.drop_last()) || tl_conflict(xs.last())
    }
}

/// Canonical byte serialization of a clause: a one-byte tag, then
/// length-prefixed payloads, children in order.
pub open spec fn ser_clause(c: ClauseS) -> Seq<u8>
    decreases c,
{
    match c {
        ClauseS::Trivial => seq![0u8],
        ClauseS::Unsatisfiable => seq![1u8],
        ClauseS::Key(k) => seq![2u8] + u32_le((k.len() % 0x1_0000_0000) as u32) + k,
        ClauseS::Hash(h) => seq![3u8] + u32_le((h.len() % 0x1_0000_0000) as u32) + h,
        ClauseS::Older(n) => seq![4u8] + u32_le(n as u32),
        ClauseS::After(n) => seq![5u8] + u32_le(n as u32),
        ClauseS::Ctv(h) => seq![6u8] + u32_le((h.len() % 0x1_0000_0000) as u32) + h,
        ClauseS::Threshold(k, xs) => seq![7u8] + u32_le((k % 0x1_0000_0000) as u32)
            + u32_le((xs.len() % 0x1_0000_0000) as u32) + ser_clauses(xs),
        ClauseS::And(xs) => seq![8u8] + u32_le((xs.len() % 0x1_0000_0000) as u32)
            + ser_clauses(xs),
        ClauseS::Or(xs) => seq![9u8] + u32_le((xs.len() % 0x1_0000_0000) as u32)
            + ser_clauses(xs),
    }
}

/// Concatenated serializations of a clause list.
pub open spec fn ser_clauses(xs: Seq<ClauseS>) -> Seq<u8>
    decreases xs,
{
    if xs.len() == 0 {
        Seq::empty()
    } else {
        ser_clauses(xs.drop_last()) + ser_clause(xs.last())
    }
}

/// The deterministic witness program enforcing a policy: a version-zero
/// witness script commitment to the policy's canonical serialization.
pub open spec fn policy_script(c: ClauseS) -> Seq<u8> {
    seq![0u8, 32u8] + sha256_of(ser_clause(c))
}

/// Append the canonical serialization of `c`.
fn write_clause(out: &mut Vec<u8>, c: &Clause)
    ensures
        final(out)@ == old(out)@ + ser_clause(c@),
    decreases c,
{
    match c {
        Clause::Trivial => {
            out.push(0);
            proof {
                assert(out@ =~= old(out)@ + ser_clause(c@));
            }
        },
        Clause::Unsatisfiable => {
            out.push(1);
            proof {
                assert(out@ =~= old(out)@ + ser_clause(c@));
            }
        },
        Clause::Key(k) => {
            out.push(2);
            push_u32_le(out, ((k.len() as u64) % 0x1_0000_0000) as u32);
            let mut i: usize = 0;
            while i < k.len()
                invariant
                    0 <= i <= k@.len(),
                    out@ == old(out)@ + seq![2u8] + u32_le((k@.len() % 0x1_0000_0000) as u32) + k@.take(i as int),
                decreases k@.len() - i,
            {
                out.push(k[i]);
                proof {
                    assert(k@.take(i + 1) =~= k@.take(i as int).push(k@[i as int]));
                    assert(out@ =~= old(out)@ + seq![2u8] + u32_le((k@.len() % 0x1_0000_0000) as u32)
                        + k@.take(i + 1));
                }
                i += 1;
            }
            proof {
                assert(k@.take(k@.len() as int) =~= k@);
                assert(out@ =~= old(out)@ + ser_clause(c@));
            }
        },
        Clause::Hash(h) => {
            out.push(3);
            push_u32_le(out, ((h.len() as u64) % 0x1_0000_0000) as u32);
            let mut i: usize = 0;
            while i < h.len()
                invariant
                    0 <= i <= h@.len(),
                    out@ == old(out)@ + seq![3u8] + u32_le((h@.len() % 0x1_0000_0000) as u32) + h@.take(i as int),
                decreases h@.len() - i,
            {
                out.push(h[i]);
                proof {
                    assert(h@.take(i + 1) =~= h@.take(i as int).push(h@[i as int]));
                    assert(out@ =~= old(out)@ + seq![3u8] + u32_le((h@.len() % 0x1_0000_0000) as u32)
                        + h@.take(i + 1));
                }
                i += 1;
            }
            proof {
                assert(h@.take(h@.len() as int) =~= h@);
                assert(out@ =~= old(out)@ + ser_clause(c@));
            }
        },
        Clause::Older(n) => {
            out.push(4);
            push_u32_le(out, *n);
            proof {
                assert(out@ =~= old(out)@ + ser_clause(c@));
            }
        },
        Clause::After(n) => {
            out.push(5);
            push_u32_le(out, *n);
            proof {
                assert(out@ =~= old(out)@ + ser_clause(c@));
            }
        },
        Clause::Ctv(h) => {
            out.push(6);
            push_u32_le(out, ((h.len() as u64) % 0x1_0000_0000) as u32);
            let mut i: usize = 0;
            while i < h.len()
                invariant
                    0 <= i <= h@.len(),
                    out@ == old(out)@ + seq![6u8] + u32_le((h@.len() % 0x1_0000_0000) as u32) + h@.take(i as int),
                decreases h@.len() - i,
            {
                out.push(h[i]);
                proof {
                    assert(h@.take(i + 1) =~= h@.take(i as int).push(h@[i as int]));
                    assert(out@ =~= old(out)@ + seq![6u8] + u32_le((h@.len() % 0x1_0000_0000) as u32)
                        + h@.take(i + 1));
                }
                i += 1;
            }
            proof {
                assert(h@.take(h@.len() as int) =~= h@);
                assert(out@ =~= old(out)@ + ser_clause(c@));
            }
        },
        Clause::Threshold(k, xs) => {
            out.push(7);
            push_u32_le(out, (*k % 0x1_0000_0000) as u32);
            push_u32_le(out, ((xs.len() as u64) % 0x1_0000_0000) as u32);
            write_clauses(out, xs);
            proof {
                lemma_view_children(xs@);
                assert(out@ =~= old(out)@ + ser_clause(c@));
            }
        },
        Clause::And(xs) => {
            out.push(8);
            push_u32_le(out, ((xs.len() as u64) % 0x1_0000_0000) as u32);
            write_clauses(out, xs);
            proof {
                lemma_view_children(xs@);
                assert(out@ =~= old(out)@ + ser_clause(c@));
            }
        },
        Clause::Or(xs) => {
            out.push(9);
            push_u32_le(out, ((xs.len() as u64) % 0x1_0000_0000) as u32);
            write_clauses(out, xs);
            proof {
                lemma_view_children(xs@);
                assert(out@ =~= old(out)@ + ser_clause(c@));
            }
        },
    }
}

/// Append the serializations of the children, in order.
fn write_clauses(out: &mut Vec<u8>, xs: &Vec<Clause>)
    ensures
        final(out)@ == old(out)@ + ser_clauses(Clause::view_children(xs@)),
    decreases xs,
{
    proof {
        lemma_view_children(xs@);
    }
    let ghost vs = Clause::view_children(xs@);
    let mut i: usize = 0;
    while i < xs.len()
        invariant
            0 <= i <= xs@.len(),
            vs == Clause::view_children(xs@),
            vs.len() == xs@.len(),
            forall|j: int| 0 <= j < xs@.len() ==> vs[j] == #[trigger] xs@[j]@,
            out@ == old(out)@ + ser_clauses(vs.take(i as int)),
        decreases xs@.len() - i,
    {
        write_clause(out, &xs[i]);
        proof {
            assert(vs.take(i + 1).drop_last() =~= vs.take(i as int));
            assert(vs.take(i + 1).last() == vs[i as int]);
            assert(out@ =~= old(out)@ + ser_clauses(vs.take(i + 1)));
        }
        i += 1;
    }
    proof {
        assert(vs.take(vs.len() as int) =~= vs);
    }
}

/// Whether the direct children mix incompatible lock kinds.
fn mixed_locks_exec(xs: &Vec<Clause>) -> (r: bool)
    ensures
        r == mixed_locks(Clause::view_children(xs@)),
{
    proof {
        lemma_view_children(xs@);
    }
    let ghost vs = Clause::view_children(xs@);
    let mut seen_older_height: bool = false;
    let mut seen_older_time: bool = false;
    let mut seen_after_height: bool = false;
    let mut seen_after_time: bool = false;
    let mut i: usize = 0;
    while i < xs.len()
        invariant
            0 <= i <= xs@.len(),
            vs == Clause::view_children(xs@),
            vs.len() == xs@.len(),
            forall|j: int| 0 <= j < xs@.len() ==> vs[j] == #[trigger] xs@[j]@,
            seen_older_height == exists|j: int| 0 <= j < i && (#[trigger] vs[j]) is Older
                && !older_is_time(vs[j]->Older_0),
            seen_older_time == exists|j: int| 0 <= j < i && (#[trigger] vs[j]) is Older
                && older_is_time(vs[j]->Older_0),
            seen_after_height == exists|j: int| 0 <= j < i && (#[trigger] vs[j]) is After
                && !after_is_time(vs[j]->After_0),
            seen_after_time == exists|j: int| 0 <= j < i && (#[trigger] vs[j]) is After
                && after_is_time(vs[j]->After_0),
        decreases xs@.len() - i,
    {
        let ci = &xs[i];
        proof {
            assert(ci@ == vs[i as int]);
        }
        match ci {
            Clause::Older(n) => {
                let nv = *n;
                proof {
                    assert(((nv & 0x400000) != 0) == ((nv / 0x400000) % 2 == 1))
                        by (bit_vector);
                    assert(older_is_time(nv as int) == ((nv / 0x400000) % 2 == 1));
                }
                if nv & 0x400000 != 0 {
                    proof {
                        assert(vs[i as int] is Older && older_is_time(vs[i as int]->Older_0));
                    }
                    seen_older_time = true;
                } else {
                    proof {
                        assert(vs[i as int] is Older && !older_is_time(vs[i as int]->Older_0));
                    }
                    seen_older_height = true;
                }
            },
            Clause::After(n) => {
                if *n >= LOCKTIME_THRESHOLD {
                    proof {
                        assert(vs[i as int] is After && after_is_time(vs[i as int]->After_0));
                    }
                    seen_after_time = true;
                } else {
                    proof {
                        assert(vs[i as int] is After && !after_is_time(vs[i as int]->After_0));
                    }
                    seen_after_height = true;
                }
            },
            _ => {},
        }
        i += 1;
    }
    (seen_older_height && seen_older_time) || (seen_after_height && seen_after_time)
}

/// Whether the clause holds a time-lock conflict anywhere.
fn tl_conflict_exec(c: &Clause) -> (r: bool)
    ensures
        r == tl_conflict(c@),
    decreases c,
{
    match c {
        Clause::And(xs) => mixed_locks_exec(xs) || any_conflict_exec(xs),
        Clause::Or(xs) => any_conflict_exec(xs),
        Clause::Threshold(k, xs) => (*k >= 2 && mixed_locks_exec(xs)) || any_conflict_exec(xs),
        _ => false,
    }
}

/// Whether some clause of the list holds a time-lock conflict.
fn any_conflict_exec(xs: &Vec<Clause>) -> (r: bool)
    ensures
        r == any_conflict(Clause::view_children(xs@)),
    decreases xs,
{
    proof {
        lemma_view_children(xs@);
    }
    let ghost vs = Clause::view_children(xs@);
    let mut i: usize = 0;
    while i < xs.len()
        invariant
            0 <= i <= xs@.len(),
            vs == Clause::view_children(xs@),
            vs.len() == xs@.len(),
            forall|j: int| 0 <= j < xs@.len() ==> vs[j] == #[trigger] xs@[j]@,
            !any_conflict(vs.take(i as int)),
        decreases xs@.len() - i,
    {
        proof {
            assert(vs.take(i + 1).drop_last() =~= vs.take(i as int));
            assert(vs.take(i + 1).last() == vs[i as int]);
        }
        if tl_conflict_exec(&xs[i]) {
            proof {
                lemma_any_conflict_extend(vs, i + 1);
            }
            return true;
        }
        i += 1;
    }
    proof {
        assert(vs.take(vs.len() as int) =~= vs);
    }
    false
}

/// A conflict in a prefix is a conflict in the whole list.
pub proof fn lemma_any_conflict_extend(xs: Seq<ClauseS>, i: int)
    requires
        0 <= i <= xs.len(),
        any_conflict(xs.take(i)),
    ensures
        any_conflict(xs),
    decreases xs.len() - i,
{
    if i < xs.len() {
        assert(xs.take(i + 1).drop_last() =~= xs.take(i));
        lemma_any_conflict_extend(xs, i + 1);
    } else {
        assert(xs.take(i) =~= xs);
    }
}

/// Lower a normalized clause to its policy artifact: the deterministic
/// witness-program address over its canonical serialization.  Fails with
/// `PolicyCompilation` exactly when the clause holds a time-lock
/// conflict.
pub fn compile_to_policy(c: &Clause, path: &Vec<String>) -> (r: Result<
    Address,
    CompilationError,
>)
    ensures
        match r {
            Ok(a) => !tl_conflict(c@) && a.script_pubkey@ == policy_script(c@) && wf_address(a),
            Err(e) => tl_conflict(c@) && e.kind == ErrorKind::PolicyCompilation,
        },
{
    if tl_conflict_exec(c) {
        return Err(CompilationError::at(
            ErrorKind::PolicyCompilation,
            clone_path(path),
            "conflicting lock kinds in one conjunction".to_string(),
        ));
    }
    let mut bytes: Vec<u8> = Vec::new();
    write_clause(&mut bytes, c);
    let digest = sha256(&bytes);
    let mut script_pubkey: Vec<u8> = Vec::new();
    script_pubkey.push(0);
    script_pubkey.push(32);
    let mut d = digest;
    script_pubkey.append(&mut d);
    proof {
        assert(bytes@ =~= ser_clause(c@));
        assert(script_pubkey@ =~= policy_script(c@));
    }
    Ok(Address { script_pubkey })
}

} // verus!
