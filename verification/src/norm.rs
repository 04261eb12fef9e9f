//! Normalization of clauses: flattening of nested combinators, removal of
//! identity elements, absorption, duplicate removal, and threshold rewriting.
use vstd::prelude::*;
use crate::clause::{Clause, ClauseS, Witness, sat, count_sat, all_sat, any_sat, lemma_count_sat, lemma_view_children, clone_clauses, contains_clause, clone_bytes};

verus! {

/// Pointwise normalization of a sequence of clauses.
pub open spec fn norm_seq(xs: Seq<ClauseS>) -> Seq<ClauseS>
    decreases xs,
{
    if xs.len() == 0 {
        Seq::empty()
    } else {
        norm_seq(xs.drop_last()).push(norm(xs.last()))
    }
}

/// Splice the children of nested `And`s one level up and drop `Trivial`
/// conjuncts.
pub open spec fn flat_and(xs: Seq<ClauseS>) -> Seq<ClauseS>
    decreases xs,
{
    if xs.len() == 0 {
        Seq::empty()
    } else {
        let rest = flat_and(xs.drop_last());
        match xs.last() {
            ClauseS::Trivial => rest,
            ClauseS::And(ys) => rest + ys,
            _ => rest.push(xs.last()),
        }
    }
}

/// Splice the children of nested `Or`s one level up and drop
/// `Unsatisfiable` disjuncts.
pub open spec fn flat_or(xs: Seq<ClauseS>) -> Seq<ClauseS>
    decreases xs,
{
    if xs.len() == 0 {
        Seq::empty()
    } else {
        let rest = flat_or(xs.drop_last());
        match xs.last() {
            ClauseS::Unsatisfiable => rest,
            ClauseS::Or(ys) => rest + ys,
            _ => rest.push(xs.last()),
        }
    }
}

/// Keep the first occurrence of each clause, by structural equality.
pub open spec fn dedup(xs: Seq<ClauseS>) -> Seq<ClauseS>
    decreases xs,
{
    if xs.len() == 0 {
        Seq::empty()
    } else {
        let rest = dedup(xs.drop_last());
        if rest.contains(xs.last()) {
            rest
        } else {
            rest.push(xs.last())
        }
    }
}

/// Rebuild a conjunction: absorb `Unsatisfiable`, unwrap the empty and the
/// singleton list.
pub open spec fn mk_and(xs: Seq<ClauseS>) -> ClauseS {
    if xs.contains(ClauseS::Unsatisfiable) {
        ClauseS::Unsatisfiable
    } else if xs.len() == 0 {
        ClauseS::Trivial
    } else if xs.len() == 1 {
        xs[0]
    } else {
        ClauseS::And(xs)
    }
}

/// Rebuild a disjunction: absorb `Trivial`, unwrap the empty and the
/// singleton list.
pub open spec fn mk_or(xs: Seq<ClauseS>) -> ClauseS {
    if xs.contains(ClauseS::Trivial) {
        ClauseS::Trivial
    } else if xs.len() == 0 {
        ClauseS::Unsatisfiable
    } else if xs.len() == 1 {
        xs[0]
    } else {
        ClauseS::Or(xs)
    }
}

/// The normal form of a clause.  Children are normalized first; `And` and
/// `Or` lists are then flattened, deduplicated and rebuilt; a threshold
/// over all (resp. one) of its children becomes a conjunction
/// (resp. disjunction).  A proper threshold (one that demands more than
/// one but fewer than all of its children) keeps its child list as
/// declared: splicing a nested threshold into it would change the
/// required count, so only the degenerate forms are rewritten.
pub open spec fn norm(c: ClauseS) -> ClauseS
    decreases c,
{
    match c {
        ClauseS::And(xs) => mk_and(dedup(flat_and(norm_seq(xs)))),
        ClauseS::Or(xs) => mk_or(dedup(flat_or(norm_seq(xs)))),
        ClauseS::Threshold(k, xs) => {
            let ys = norm_seq(xs);
            if k <= 0 {
                ClauseS::Trivial
            } else if k > ys.len() {
                ClauseS::Unsatisfiable
            } else if k == ys.len() {
                mk_and(dedup(flat_and(ys)))
            } else if k == 1 {
                mk_or(dedup(flat_or(ys)))
            } else {
                ClauseS::Threshold(k, ys)
            }
        },
        _ => c,
    }
}

/// No two clauses of the sequence are structurally equal.
pub open spec fn no_dups(xs: Seq<ClauseS>) -> bool {
    forall|i: int, j: int| 0 <= i < j < xs.len() ==> xs[i] != xs[j]
}

/// Shape of an acceptable `And` child: not itself an `And`, and not an
/// identity or absorbing element.
pub open spec fn and_child_shape(c: ClauseS) -> bool {
    &&& !(c is And)
    &&& c != ClauseS::Trivial
    &&& c != ClauseS::Unsatisfiable
}

/// Shape of an acceptable `Or` child: not itself an `Or`, and not an
/// identity or absorbing element.
pub open spec fn or_child_shape(c: ClauseS) -> bool {
    &&& !(c is Or)
    &&& c != ClauseS::Trivial
    &&& c != ClauseS::Unsatisfiable
}

/// Normal form: flattened, duplicate-free, no identity or absorbing
/// elements, no degenerate combinators.
pub open spec fn is_normal(c: ClauseS) -> bool
    decreases c,
{
    match c {
        ClauseS::And(xs) => {
            &&& xs.len() >= 2
            &&& no_dups(xs)
            &&& forall|i: int| 0 <= i < xs.len() ==> is_normal(#[trigger] xs[i])
            &&& forall|i: int| 0 <= i < xs.len() ==> and_child_shape(#[trigger] xs[i])
        },
        ClauseS::Or(xs) => {
            &&& xs.len() >= 2
            &&& no_dups(xs)
            &&& forall|i: int| 0 <= i < xs.len() ==> is_normal(#[trigger] xs[i])
            &&& forall|i: int| 0 <= i < xs.len() ==> or_child_shape(#[trigger] xs[i])
        },
        ClauseS::Threshold(k, xs) => {
            &&& 2 <= k
            &&& k < xs.len()
            &&& forall|i: int| 0 <= i < xs.len() ==> is_normal(#[trigger] xs[i])
        },
        _ => true,
    }
}

/// `norm_seq` normalizes each element pointwise.
pub proof fn lemma_norm_seq(xs: Seq<ClauseS>)
    ensures
        norm_seq(xs).len() == xs.len(),
        forall|i: int| 0 <= i < xs.len() ==> norm_seq(xs)[i] == norm(#[trigger] xs[i]),
    decreases xs.len(),
{
    if xs.len() > 0 {
        lemma_norm_seq(xs.drop_last());
        assert forall|i: int| 0 <= i < xs.len() implies norm_seq(xs)[i] == norm(#[trigger] xs[i]) by {
            if i < xs.len() - 1 {
                assert(xs.drop_last()[i] == xs[i]);
            } else {
                assert(xs[i] == xs.last());
            }
        }
    }
}

/// Every element of a flattened conjunction list is normal, is not an
/// `And`, and is not `Trivial`, provided the input elements are normal.
pub proof fn lemma_flat_and_elems(xs: Seq<ClauseS>)
    requires
        forall|i: int| 0 <= i < xs.len() ==> is_normal(#[trigger] xs[i]),
    ensures
        forall|i: int| 0 <= i < flat_and(xs).len()
            ==> is_normal(#[trigger] flat_and(xs)[i]) && !(flat_and(xs)[i] is And)
                && flat_and(xs)[i] != ClauseS::Trivial,
    decreases xs.len(),
{
    if xs.len() > 0 {
        assert(forall|i: int| 0 <= i < xs.len() - 1 ==> xs.drop_last()[i] == #[trigger] xs[i]);
        lemma_flat_and_elems(xs.drop_last());
        let rest = flat_and(xs.drop_last());
        assert(xs.last() == xs[xs.len() - 1]);
        assert(is_normal(xs.last()));
        match xs.last() {
            ClauseS::Trivial => {},
            ClauseS::And(ys) => {
                assert forall|i: int| 0 <= i < (rest + ys).len() implies
                    is_normal(#[trigger] (rest + ys)[i]) && !((rest + ys)[i] is And)
                        && (rest + ys)[i] != ClauseS::Trivial by {
                    if i >= rest.len() {
                        assert((rest + ys)[i] == ys[i - rest.len()]);
                        assert(and_child_shape(ys[i - rest.len()]));
                    }
                }
            },
            _ => {},
        }
    }
}

/// Every element of a flattened disjunction list is normal, is not an
/// `Or`, and is not `Unsatisfiable`, provided the input elements are normal.
pub proof fn lemma_flat_or_elems(xs: Seq<ClauseS>)
    requires
        forall|i: int| 0 <= i < xs.len() ==> is_normal(#[trigger] xs[i]),
    ensures
        forall|i: int| 0 <= i < flat_or(xs).len()
            ==> is_normal(#[trigger] flat_or(xs)[i]) && !(flat_or(xs)[i] is Or)
                && flat_or(xs)[i] != ClauseS::Unsatisfiable,
    decreases xs.len(),
{
    if xs.len() > 0 {
        assert(forall|i: int| 0 <= i < xs.len() - 1 ==> xs.drop_last()[i] == #[trigger] xs[i]);
        lemma_flat_or_elems(xs.drop_last());
        let rest = flat_or(xs.drop_last());
        assert(xs.last() == xs[xs.len() - 1]);
        assert(is_normal(xs.last()));
        match xs.last() {
            ClauseS::Unsatisfiable => {},
            ClauseS::Or(ys) => {
                assert forall|i: int| 0 <= i < (rest + ys).len() implies
                    is_normal(#[trigger] (rest + ys)[i]) && !((rest + ys)[i] is Or)
                        && (rest + ys)[i] != ClauseS::Unsatisfiable by {
                    if i >= rest.len() {
                        assert((rest + ys)[i] == ys[i - rest.len()]);
                        assert(or_child_shape(ys[i - rest.len()]));
                    }
                }
            },
            _ => {},
        }
    }
}

/// Deduplication keeps exactly the distinct elements and yields a
/// duplicate-free list.
pub proof fn lemma_dedup(xs: Seq<ClauseS>)
    ensures
        forall|x: ClauseS| dedup(xs).contains(x) == xs.contains(x),
        no_dups(dedup(xs)),
        forall|i: int| 0 <= i < dedup(xs).len() ==> xs.contains(#[trigger] dedup(xs)[i]),
    decreases xs.len(),
{
    if xs.len() > 0 {
        lemma_dedup(xs.drop_last());
        let rest = dedup(xs.drop_last());
        assert forall|x: ClauseS| dedup(xs).contains(x) == xs.contains(x) by {
            if xs.contains(x) {
                let i = choose|i: int| 0 <= i < xs.len() && xs[i] == x;
                if i < xs.len() - 1 {
                    assert(xs.drop_last()[i] == x);
                    assert(xs.drop_last().contains(x));
                    assert(rest.contains(x));
                    if !rest.contains(xs.last()) {
                        let j = choose|j: int| 0 <= j < rest.len() && rest[j] == x;
                        assert(rest.push(xs.last())[j] == x);
                    }
                } else {
                    if rest.contains(xs.last()) {
                        assert(dedup(xs) == rest);
                    } else {
                        assert(rest.push(xs.last())[rest.len() as int] == x);
                    }
                }
            }
            if dedup(xs).contains(x) {
                let i = choose|i: int| 0 <= i < dedup(xs).len() && dedup(xs)[i] == x;
                if rest.contains(xs.last()) {
                    assert(xs.drop_last().contains(x));
                    let j = choose|j: int| 0 <= j < xs.len() - 1 && xs.drop_last()[j] == x;
                    assert(xs[j] == x);
                } else {
                    if i < rest.len() {
                        assert(rest[i] == x);
                        assert(xs.drop_last().contains(x));
                        let j = choose|j: int| 0 <= j < xs.len() - 1 && xs.drop_last()[j] == x;
                        assert(xs[j] == x);
                    } else {
                        assert(x == xs.last());
                        assert(xs[xs.len() - 1] == x);
                    }
                }
            }
        }
        if !rest.contains(xs.last()) {
            assert forall|i: int, j: int| 0 <= i < j < dedup(xs).len() implies
                dedup(xs)[i] != dedup(xs)[j] by {
                if j < rest.len() {
                    assert(dedup(xs)[i] == rest[i] && dedup(xs)[j] == rest[j]);
                } else {
                    assert(dedup(xs)[j] == xs.last());
                    assert(dedup(xs)[i] == rest[i]);
                    assert(rest.contains(rest[i]));
                }
            }
        }
        assert forall|i: int| 0 <= i < dedup(xs).len() implies
            xs.contains(#[trigger] dedup(xs)[i]) by {
            assert(dedup(xs).contains(dedup(xs)[i]));
        }
    }
}

/// `mk_and` of a list of normal, non-`And`, non-`Trivial`, duplicate-free
/// clauses is normal.
pub proof fn lemma_mk_and_normal(xs: Seq<ClauseS>)
    requires
        no_dups(xs),
        forall|i: int| 0 <= i < xs.len()
            ==> is_normal(#[trigger] xs[i]) && !(xs[i] is And) && xs[i] != ClauseS::Trivial,
    ensures
        is_normal(mk_and(xs)),
{
    if xs.contains(ClauseS::Unsatisfiable) || xs.len() <= 1 {
    } else {
        assert forall|i: int| 0 <= i < xs.len() implies and_child_shape(#[trigger] xs[i]) by {
            assert(!xs.contains(ClauseS::Unsatisfiable));
            if xs[i] == ClauseS::Unsatisfiable {
                assert(xs.contains(ClauseS::Unsatisfiable));
            }
        }
    }
}

/// `mk_or` of a list of normal, non-`Or`, non-`Unsatisfiable`,
/// duplicate-free clauses is normal.
pub proof fn lemma_mk_or_normal(xs: Seq<ClauseS>)
    requires
        no_dups(xs),
        forall|i: int| 0 <= i < xs.len()
            ==> is_normal(#[trigger] xs[i]) && !(xs[i] is Or) && xs[i] != ClauseS::Unsatisfiable,
    ensures
        is_normal(mk_or(xs)),
{
    if xs.contains(ClauseS::Trivial) || xs.len() <= 1 {
    } else {
        assert forall|i: int| 0 <= i < xs.len() implies or_child_shape(#[trigger] xs[i]) by {
            assert(!xs.contains(ClauseS::Trivial));
            if xs[i] == ClauseS::Trivial {
                assert(xs.contains(ClauseS::Trivial));
            }
        }
    }
}

/// The conjunction pipeline (flatten, deduplicate, rebuild) yields a
/// normal clause when the inputs are normal.
pub proof fn lemma_and_pipeline_normal(ys: Seq<ClauseS>)
    requires
        forall|i: int| 0 <= i < ys.len() ==> is_normal(#[trigger] ys[i]),
    ensures
        is_normal(mk_and(dedup(flat_and(ys)))),
{
    lemma_flat_and_elems(ys);
    lemma_dedup(flat_and(ys));
    let d = dedup(flat_and(ys));
    assert forall|i: int| 0 <= i < d.len() implies
        is_normal(#[trigger] d[i]) && !(d[i] is And) && d[i] != ClauseS::Trivial by {
        assert(flat_and(ys).contains(d[i]));
        let j = choose|j: int| 0 <= j < flat_and(ys).len() && flat_and(ys)[j] == d[i];
        assert(is_normal(flat_and(ys)[j]));
    }
    lemma_mk_and_normal(d);
}

/// The disjunction pipeline yields a normal clause when the inputs are
/// normal.
pub proof fn lemma_or_pipeline_normal(ys: Seq<ClauseS>)
    requires
        forall|i: int| 0 <= i < ys.len() ==> is_normal(#[trigger] ys[i]),
    ensures
        is_normal(mk_or(dedup(flat_or(ys)))),
{
    lemma_flat_or_elems(ys);
    lemma_dedup(flat_or(ys));
    let d = dedup(flat_or(ys));
    assert forall|i: int| 0 <= i < d.len() implies
        is_normal(#[trigger] d[i]) && !(d[i] is Or) && d[i] != ClauseS::Unsatisfiable by {
        assert(flat_or(ys).contains(d[i]));
        let j = choose|j: int| 0 <= j < flat_or(ys).len() && flat_or(ys)[j] == d[i];
        assert(is_normal(flat_or(ys)[j]));
    }
    lemma_mk_or_normal(d);
}

/// Normalization always yields a normal clause.
pub proof fn lemma_norm_normal(c: ClauseS)
    ensures
        is_normal(norm(c)),
    decreases c,
{
    match c {
        ClauseS::And(xs) => {
            lemma_norm_seq_normal(xs);
            lemma_norm_seq(xs);
            lemma_and_pipeline_normal(norm_seq(xs));
        },
        ClauseS::Or(xs) => {
            lemma_norm_seq_normal(xs);
            lemma_norm_seq(xs);
            lemma_or_pipeline_normal(norm_seq(xs));
        },
        ClauseS::Threshold(k, xs) => {
            lemma_norm_seq_normal(xs);
            lemma_norm_seq(xs);
            let ys = norm_seq(xs);
            if k <= 0 {
            } else if k > ys.len() {
            } else if k == ys.len() {
                lemma_and_pipeline_normal(ys);
            } else if k == 1 {
                lemma_or_pipeline_normal(ys);
            }
        },
        _ => {},
    }
}

/// Every element of a pointwise-normalized sequence is normal.
pub proof fn lemma_norm_seq_normal(xs: Seq<ClauseS>)
    ensures
        forall|i: int| 0 <= i < norm_seq(xs).len() ==> is_normal(#[trigger] norm_seq(xs)[i]),
    decreases xs,
{
    if xs.len() > 0 {
        lemma_norm_seq_normal(xs.drop_last());
        lemma_norm_normal(xs.last());
        assert forall|i: int| 0 <= i < norm_seq(xs).len() implies
            is_normal(#[trigger] norm_seq(xs)[i]) by {
            if i < norm_seq(xs).len() - 1 {
                assert(norm_seq(xs)[i] == norm_seq(xs.drop_last())[i]);
            } else {
                assert(norm_seq(xs)[i] == norm(xs.last()));
            }
        }
    }
}

/// Flattening a list with no `And` and no `Trivial` elements changes
/// nothing.
pub proof fn lemma_flat_and_id(xs: Seq<ClauseS>)
    requires
        forall|i: int| 0 <= i < xs.len()
            ==> !((#[trigger] xs[i]) is And) && xs[i] != ClauseS::Trivial,
    ensures
        flat_and(xs) == xs,
    decreases xs.len(),
{
    if xs.len() > 0 {
        assert(forall|i: int| 0 <= i < xs.len() - 1 ==> xs.drop_last()[i] == #[trigger] xs[i]);
        lemma_flat_and_id(xs.drop_last());
        assert(xs.last() == xs[xs.len() - 1]);
        assert(flat_and(xs) =~= xs);
    }
}

/// Flattening a list with no `Or` and no `Unsatisfiable` elements changes
/// nothing.
pub proof fn lemma_flat_or_id(xs: Seq<ClauseS>)
    requires
        forall|i: int| 0 <= i < xs.len()
            ==> !((#[trigger] xs[i]) is Or) && xs[i] != ClauseS::Unsatisfiable,
    ensures
        flat_or(xs) == xs,
    decreases xs.len(),
{
    if xs.len() > 0 {
        assert(forall|i: int| 0 <= i < xs.len() - 1 ==> xs.drop_last()[i] == #[trigger] xs[i]);
        lemma_flat_or_id(xs.drop_last());
        assert(xs.last() == xs[xs.len() - 1]);
        assert(flat_or(xs) =~= xs);
    }
}

/// Deduplicating a duplicate-free list changes nothing.
pub proof fn lemma_dedup_id(xs: Seq<ClauseS>)
    requires
        no_dups(xs),
    ensures
        dedup(xs) == xs,
    decreases xs.len(),
{
    if xs.len() > 0 {
        assert(forall|i: int, j: int| 0 <= i < j < xs.len() - 1
            ==> xs.drop_last()[i] != xs.drop_last()[j]) by {
            assert(forall|i: int| 0 <= i < xs.len() - 1 ==> xs.drop_last()[i] == #[trigger] xs[i]);
        }
        lemma_dedup_id(xs.drop_last());
        if xs.drop_last().contains(xs.last()) {
            let j = choose|j: int| 0 <= j < xs.len() - 1 && xs.drop_last()[j] == xs.last();
            assert(xs[j] == xs[xs.len() - 1]);
            assert(false);
        }
        assert(dedup(xs) =~= xs);
    }
}

/// Normalizing an already-normal clause changes nothing.
pub proof fn lemma_norm_of_normal(c: ClauseS)
    requires
        is_normal(c),
    ensures
        norm(c) == c,
    decreases c,
{
    match c {
        ClauseS::And(xs) => {
            lemma_norm_seq_of_normal(xs);
            lemma_flat_and_id(xs);
            lemma_dedup_id(xs);
            assert(!xs.contains(ClauseS::Unsatisfiable)) by {
                if xs.contains(ClauseS::Unsatisfiable) {
                    let i = choose|i: int| 0 <= i < xs.len() && xs[i] == ClauseS::Unsatisfiable;
                    assert(and_child_shape(xs[i]));
                }
            }
        },
        ClauseS::Or(xs) => {
            lemma_norm_seq_of_normal(xs);
            lemma_flat_or_id(xs);
            lemma_dedup_id(xs);
            assert(!xs.contains(ClauseS::Trivial)) by {
                if xs.contains(ClauseS::Trivial) {
                    let i = choose|i: int| 0 <= i < xs.len() && xs[i] == ClauseS::Trivial;
                    assert(or_child_shape(xs[i]));
                }
            }
        },
        ClauseS::Threshold(k, xs) => {
            lemma_norm_seq_of_normal(xs);
        },
        _ => {},
    }
}

/// Pointwise normalization of a sequence of normal clauses changes
/// nothing.
pub proof fn lemma_norm_seq_of_normal(xs: Seq<ClauseS>)
    requires
        forall|i: int| 0 <= i < xs.len() ==> is_normal(#[trigger] xs[i]),
    ensures
        norm_seq(xs) == xs,
    decreases xs,
{
    if xs.len() > 0 {
        assert(forall|i: int| 0 <= i < xs.len() - 1 ==> xs.drop_last()[i] == #[trigger] xs[i]);
        lemma_norm_seq_of_normal(xs.drop_last());
        assert(is_normal(xs[xs.len() - 1]));
        lemma_norm_of_normal(xs.last());
        assert(norm_seq(xs) =~= xs);
    }
}

/// A disjunction over one key guard normalizes to the bare key clause.
pub proof fn lemma_norm_or_single_key(k: Seq<u8>)
    ensures
        norm(ClauseS::Or(seq![ClauseS::Key(k)])) == ClauseS::Key(k),
{
    let kc = ClauseS::Key(k);
    let s1 = seq![kc];
    assert(s1.drop_last() =~= Seq::<ClauseS>::empty());
    assert(s1.last() == kc);
    assert(norm_seq(Seq::<ClauseS>::empty()) =~= Seq::<ClauseS>::empty());
    assert(norm(kc) == kc);
    assert(norm_seq(s1) =~= s1);
    assert(flat_or(Seq::<ClauseS>::empty()) =~= Seq::<ClauseS>::empty());
    assert(flat_or(s1) =~= s1);
    assert(dedup(Seq::<ClauseS>::empty()) =~= Seq::<ClauseS>::empty());
    assert(!Seq::<ClauseS>::empty().contains(kc));
    assert(dedup(s1) =~= s1);
    assert(!s1.contains(ClauseS::Trivial)) by {
        if s1.contains(ClauseS::Trivial) {
            let i = choose|i: int| 0 <= i < s1.len() && s1[i] == ClauseS::Trivial;
        }
    }
    assert(mk_or(s1) == kc);
}

/// Normalization is idempotent: a second pass is the identity.
pub proof fn lemma_normalize_idempotent(c: ClauseS)
    ensures
        norm(norm(c)) == norm(c),
{
    lemma_norm_normal(c);
    lemma_norm_of_normal(norm(c));
}

/// `all_sat` and `any_sat` distribute over concatenation.
pub proof fn lemma_sat_concat(a: Seq<ClauseS>, b: Seq<ClauseS>, w: Witness)
    ensures
        all_sat(a + b, w) == (all_sat(a, w) && all_sat(b, w)),
        any_sat(a + b, w) == (any_sat(a, w) || any_sat(b, w)),
{
    assert(forall|i: int| 0 <= i < a.len() ==> (a + b)[i] == #[trigger] a[i]);
    assert(forall|i: int| 0 <= i < b.len() ==> (a + b)[i + a.len()] == #[trigger] b[i]);
    if all_sat(a + b, w) {
        assert forall|i: int| 0 <= i < b.len() implies sat(#[trigger] b[i], w) by {
            assert(sat((a + b)[i + a.len()], w));
        }
    }
    if any_sat(a + b, w) {
        let i = choose|i: int| 0 <= i < (a + b).len() && sat((a + b)[i], w);
        if i < a.len() {
            assert(sat(a[i], w));
        } else {
            assert(sat(b[i - a.len()], w));
        }
    }
    if any_sat(b, w) {
        let i = choose|i: int| 0 <= i < b.len() && sat(b[i], w);
        assert(sat((a + b)[i + a.len()], w));
    }
}

/// Flattening preserves conjunction satisfaction.
pub proof fn lemma_flat_and_sat(xs: Seq<ClauseS>, w: Witness)
    ensures
        all_sat(flat_and(xs), w) == all_sat(xs, w),
    decreases xs.len(),
{
    if xs.len() > 0 {
        assert(forall|i: int| 0 <= i < xs.len() - 1 ==> xs.drop_last()[i] == #[trigger] xs[i]);
        lemma_flat_and_sat(xs.drop_last(), w);
        let rest = flat_and(xs.drop_last());
        assert(xs.last() == xs[xs.len() - 1]);
        assert(all_sat(xs, w) == (all_sat(xs.drop_last(), w) && sat(xs.last(), w))) by {
            if all_sat(xs.drop_last(), w) && sat(xs.last(), w) {
                assert forall|i: int| 0 <= i < xs.len() implies sat(#[trigger] xs[i], w) by {
                    if i < xs.len() - 1 {
                        assert(sat(xs.drop_last()[i], w));
                    }
                }
            }
        }
        match xs.last() {
            ClauseS::Trivial => {},
            ClauseS::And(ys) => {
                lemma_count_sat(ys, w);
                lemma_sat_concat(rest, ys, w);
            },
            _ => {
                assert(rest.push(xs.last()) =~= rest + seq![xs.last()]);
                lemma_sat_concat(rest, seq![xs.last()], w);
                assert(all_sat(seq![xs.last()], w) == sat(xs.last(), w)) by {
                    assert(seq![xs.last()][0] == xs.last());
                }
            },
        }
    }
}

/// Flattening preserves disjunction satisfaction.
pub proof fn lemma_flat_or_sat(xs: Seq<ClauseS>, w: Witness)
    ensures
        any_sat(flat_or(xs), w) == any_sat(xs, w),
    decreases xs.len(),
{
    if xs.len() > 0 {
        assert(forall|i: int| 0 <= i < xs.len() - 1 ==> xs.drop_last()[i] == #[trigger] xs[i]);
        lemma_flat_or_sat(xs.drop_last(), w);
        let rest = flat_or(xs.drop_last());
        assert(xs.last() == xs[xs.len() - 1]);
        assert(any_sat(xs, w) == (any_sat(xs.drop_last(), w) || sat(xs.last(), w))) by {
            if any_sat(xs, w) {
                let i = choose|i: int| 0 <= i < xs.len() && sat(xs[i], w);
                if i < xs.len() - 1 {
                    assert(sat(xs.drop_last()[i], w));
                }
            }
            if any_sat(xs.drop_last(), w) {
                let i = choose|i: int| 0 <= i < xs.len() - 1 && sat(xs.drop_last()[i], w);
                assert(sat(xs[i], w));
            }
        }
        match xs.last() {
            ClauseS::Unsatisfiable => {},
            ClauseS::Or(ys) => {
                lemma_count_sat(ys, w);
                lemma_sat_concat(rest, ys, w);
            },
            _ => {
                assert(rest.push(xs.last()) =~= rest + seq![xs.last()]);
                lemma_sat_concat(rest, seq![xs.last()], w);
                assert(any_sat(seq![xs.last()], w) == sat(xs.last(), w)) by {
                    assert(seq![xs.last()][0] == xs.last());
                }
            },
        }
    }
}

/// Deduplication preserves conjunction and disjunction satisfaction.
pub proof fn lemma_dedup_sat(xs: Seq<ClauseS>, w: Witness)
    ensures
        all_sat(dedup(xs), w) == all_sat(xs, w),
        any_sat(dedup(xs), w) == any_sat(xs, w),
{
    lemma_dedup(xs);
    let d = dedup(xs);
    if all_sat(d, w) {
        assert forall|i: int| 0 <= i < xs.len() implies sat(#[trigger] xs[i], w) by {
            assert(xs.contains(xs[i]));
            assert(d.contains(xs[i]));
            let j = choose|j: int| 0 <= j < d.len() && d[j] == xs[i];
            assert(sat(d[j], w));
        }
    }
    if all_sat(xs, w) {
        assert forall|i: int| 0 <= i < d.len() implies sat(#[trigger] d[i], w) by {
            assert(d.contains(d[i]));
            assert(xs.contains(d[i]));
            let j = choose|j: int| 0 <= j < xs.len() && xs[j] == d[i];
            assert(sat(xs[j], w));
        }
    }
    if any_sat(d, w) {
        let i = choose|i: int| 0 <= i < d.len() && sat(d[i], w);
        assert(d.contains(d[i]));
        assert(xs.contains(d[i]));
        let j = choose|j: int| 0 <= j < xs.len() && xs[j] == d[i];
        assert(sat(xs[j], w));
    }
    if any_sat(xs, w) {
        let i = choose|i: int| 0 <= i < xs.len() && sat(xs[i], w);
        assert(xs.contains(xs[i]));
        assert(d.contains(xs[i]));
        let j = choose|j: int| 0 <= j < d.len() && d[j] == xs[i];
        assert(sat(d[j], w));
    }
}

/// `mk_and` means "all children satisfied"; `mk_or` means "some child
/// satisfied".
pub proof fn lemma_mk_sat(xs: Seq<ClauseS>, w: Witness)
    ensures
        sat(mk_and(xs), w) == all_sat(xs, w),
        sat(mk_or(xs), w) == any_sat(xs, w),
{
    lemma_count_sat(xs, w);
    if xs.contains(ClauseS::Unsatisfiable) {
        let i = choose|i: int| 0 <= i < xs.len() && xs[i] == ClauseS::Unsatisfiable;
        assert(!sat(xs[i], w));
    }
    if xs.contains(ClauseS::Trivial) {
        let i = choose|i: int| 0 <= i < xs.len() && xs[i] == ClauseS::Trivial;
        assert(sat(xs[i], w));
    }
    if xs.len() == 1 {
        assert(all_sat(xs, w) == sat(xs[0], w)) by {
            if sat(xs[0], w) {
                assert(forall|i: int| 0 <= i < 1 ==> #[trigger] xs[i] == xs[0]);
            }
        }
        assert(any_sat(xs, w) == sat(xs[0], w)) by {
            if sat(xs[0], w) {
                assert(0 <= 0 < xs.len() && sat(xs[0], w));
            }
        }
    }
}

/// Pointwise normalization preserves the satisfaction of each element and
/// the satisfied count.
pub proof fn lemma_norm_seq_sat(xs: Seq<ClauseS>, w: Witness)
    ensures
        forall|i: int| 0 <= i < xs.len()
            ==> sat(norm_seq(xs)[i], w) == sat(#[trigger] xs[i], w),
        count_sat(norm_seq(xs), w) == count_sat(xs, w),
    decreases xs,
{
    lemma_norm_seq(xs);
    if xs.len() > 0 {
        lemma_norm_seq_sat(xs.drop_last(), w);
        lemma_norm_sat(xs.last(), w);
        assert forall|i: int| 0 <= i < xs.len() implies
            sat(norm_seq(xs)[i], w) == sat(#[trigger] xs[i], w) by {
            if i < xs.len() - 1 {
                assert(norm_seq(xs)[i] == norm_seq(xs.drop_last())[i]);
                assert(xs.drop_last()[i] == xs[i]);
            } else {
                assert(norm_seq(xs)[i] == norm(xs.last()));
            }
        }
        assert(norm_seq(xs).drop_last() =~= norm_seq(xs.drop_last()));
        assert(norm_seq(xs).last() == norm(xs.last()));
    }
}

/// Normalization preserves the witness semantics: a witness satisfies the
/// normal form exactly when it satisfies the original clause.
pub proof fn lemma_norm_sat(c: ClauseS, w: Witness)
    ensures
        sat(norm(c), w) == sat(c, w),
    decreases c,
{
    match c {
        ClauseS::And(xs) => {
            lemma_norm_seq_sat(xs, w);
            lemma_norm_seq(xs);
            let ys = norm_seq(xs);
            lemma_count_sat(xs, w);
            lemma_count_sat(ys, w);
            assert(all_sat(ys, w) == all_sat(xs, w)) by {
                if all_sat(ys, w) {
                    assert forall|i: int| 0 <= i < xs.len() implies sat(#[trigger] xs[i], w) by {
                        assert(sat(ys[i], w));
                    }
                }
                if all_sat(xs, w) {
                    assert forall|i: int| 0 <= i < ys.len() implies sat(#[trigger] ys[i], w) by {
                        assert(sat(xs[i], w));
                    }
                }
            }
            lemma_flat_and_sat(ys, w);
            lemma_dedup_sat(flat_and(ys), w);
            lemma_mk_sat(dedup(flat_and(ys)), w);
        },
        ClauseS::Or(xs) => {
            lemma_norm_seq_sat(xs, w);
            lemma_norm_seq(xs);
            let ys = norm_seq(xs);
            lemma_count_sat(xs, w);
            lemma_count_sat(ys, w);
            assert(any_sat(ys, w) == any_sat(xs, w)) by {
                if any_sat(ys, w) {
                    let i = choose|i: int| 0 <= i < ys.len() && sat(ys[i], w);
                    assert(sat(xs[i], w));
                }
                if any_sat(xs, w) {
                    let i = choose|i: int| 0 <= i < xs.len() && sat(xs[i], w);
                    assert(sat(ys[i], w));
                }
            }
            lemma_flat_or_sat(ys, w);
            lemma_dedup_sat(flat_or(ys), w);
            lemma_mk_sat(dedup(flat_or(ys)), w);
        },
        ClauseS::Threshold(k, xs) => {
            lemma_norm_seq_sat(xs, w);
            lemma_norm_seq(xs);
            let ys = norm_seq(xs);
            lemma_count_sat(xs, w);
            lemma_count_sat(ys, w);
            assert(all_sat(ys, w) == all_sat(xs, w)) by {
                if all_sat(ys, w) {
                    assert forall|i: int| 0 <= i < xs.len() implies sat(#[trigger] xs[i], w) by {
                        assert(sat(ys[i], w));
                    }
                }
                if all_sat(xs, w) {
                    assert forall|i: int| 0 <= i < ys.len() implies sat(#[trigger] ys[i], w) by {
                        assert(sat(xs[i], w));
                    }
                }
            }
            assert(any_sat(ys, w) == any_sat(xs, w)) by {
                if any_sat(ys, w) {
                    let i = choose|i: int| 0 <= i < ys.len() && sat(ys[i], w);
                    assert(sat(xs[i], w));
                }
                if any_sat(xs, w) {
                    let i = choose|i: int| 0 <= i < xs.len() && sat(xs[i], w);
                    assert(sat(ys[i], w));
                }
            }
            if k <= 0 {
            } else if k > ys.len() {
            } else if k == ys.len() {
                lemma_flat_and_sat(ys, w);
                lemma_dedup_sat(flat_and(ys), w);
                lemma_mk_sat(dedup(flat_and(ys)), w);
            } else if k == 1 {
                lemma_flat_or_sat(ys, w);
                lemma_dedup_sat(flat_or(ys), w);
                lemma_mk_sat(dedup(flat_or(ys)), w);
            }
        },
        _ => {},
    }
}

/// Modelling distributes over list concatenation.
pub proof fn lemma_view_children_concat(a: Seq<Clause>, b: Seq<Clause>)
    ensures
        Clause::view_children(a + b) == Clause::view_children(a) + Clause::view_children(b),
{
    lemma_view_children(a);
    lemma_view_children(b);
    lemma_view_children(a + b);
    assert forall|i: int| 0 <= i < a.len() + b.len() implies Clause::view_children(a + b)[i]
        == (Clause::view_children(a) + Clause::view_children(b))[i] by {
        if i < a.len() {
            assert((a + b)[i] == a[i]);
            assert(Clause::view_children(a + b)[i] == (a + b)[i].view());
            assert(Clause::view_children(a)[i] == a[i].view());
        } else {
            assert((a + b)[i] == b[i - a.len()]);
            assert(Clause::view_children(a + b)[i] == (a + b)[i].view());
            assert(Clause::view_children(b)[i - a.len()] == b[i - a.len()].view());
        }
    }
    assert(Clause::view_children(a + b)
        =~= Clause::view_children(a) + Clause::view_children(b));
}

/// Modelling a list with one element appended appends the element's model.
pub proof fn lemma_view_children_push(a: Seq<Clause>, x: Clause)
    ensures
        Clause::view_children(a.push(x)) == Clause::view_children(a).push(x.view()),
{
    assert(a.push(x).drop_last() =~= a);
    assert(a.push(x).last() == x);
}

/// Normalize each child in order.
fn normalize_children(xs: &Vec<Clause>) -> (r: Vec<Clause>)
    ensures
        Clause::view_children(r@) == norm_seq(Clause::view_children(xs@)),
        r@.len() == xs@.len(),
    decreases xs,
{
    proof {
        lemma_view_children(xs@);
    }
    let ghost vs = Clause::view_children(xs@);
    let mut r: Vec<Clause> = Vec::new();
    let mut i: usize = 0;
    while i < xs.len()
        invariant
            0 <= i <= xs.len(),
            r@.len() == i,
            vs == Clause::view_children(xs@),
            vs.len() == xs@.len(),
            forall|j: int| 0 <= j < xs@.len() ==> vs[j] == #[trigger] xs@[j]@,
            Clause::view_children(r@) == norm_seq(vs.take(i as int)),
        decreases xs.len() - i,
    {
        let ghost r_old = r@;
        let y = xs[i].normalize();
        r.push(y);
        proof {
            lemma_view_children_push(r_old, y);
            assert(vs.take(i + 1).drop_last() =~= vs.take(i as int));
            assert(vs.take(i + 1).last() == vs[i as int]);
        }
        i += 1;
    }
    proof {
        assert(vs.take(vs.len() as int) =~= vs);
    }
    r
}

/// Flatten one level of nested conjunctions, dropping `Trivial`.
fn flatten_and_exec(ys: &Vec<Clause>) -> (r: Vec<Clause>)
    ensures
        Clause::view_children(r@) == flat_and(Clause::view_children(ys@)),
{
    proof {
        lemma_view_children(ys@);
    }
    let ghost vs = Clause::view_children(ys@);
    let mut r: Vec<Clause> = Vec::new();
    let mut i: usize = 0;
    while i < ys.len()
        invariant
            0 <= i <= ys.len(),
            vs == Clause::view_children(ys@),
            vs.len() == ys@.len(),
            forall|j: int| 0 <= j < ys@.len() ==> vs[j] == #[trigger] ys@[j]@,
            Clause::view_children(r@) == flat_and(vs.take(i as int)),
        decreases ys.len() - i,
    {
        proof {
            assert(vs.take(i + 1).drop_last() =~= vs.take(i as int));
            assert(vs.take(i + 1).last() == vs[i as int]);
        }
        let ghost r_old = r@;
        let ci = &ys[i];
        proof {
            assert(ci@ == vs[i as int]);
        }
        match ci {
            Clause::Trivial => {
                proof {
                    assert(vs[i as int] == ClauseS::Trivial);
                }
            },
            Clause::And(zs) => {
                let mut ws = clone_clauses(zs);
                let ghost ws_view = ws@;
                proof {
                    assert(vs[i as int] == ClauseS::And(Clause::view_children(zs@)));
                }
                r.append(&mut ws);
                proof {
                    lemma_view_children_concat(r_old, ws_view);
                }
            },
            _ => {
                proof {
                    assert(vs[i as int] != ClauseS::Trivial && !(vs[i as int] is And));
                }
                let y = ys[i].deep_clone();
                r.push(y);
                proof {
                    lemma_view_children_push(r_old, y);
                }
            },
        }
        i += 1;
    }
    proof {
        assert(vs.take(vs.len() as int) =~= vs);
    }
    r
}

/// Flatten one level of nested disjunctions, dropping `Unsatisfiable`.
fn flatten_or_exec(ys: &Vec<Clause>) -> (r: Vec<Clause>)
    ensures
        Clause::view_children(r@) == flat_or(Clause::view_children(ys@)),
{
    proof {
        lemma_view_children(ys@);
    }
    let ghost vs = Clause::view_children(ys@);
    let mut r: Vec<Clause> = Vec::new();
    let mut i: usize = 0;
    while i < ys.len()
        invariant
            0 <= i <= ys.len(),
            vs == Clause::view_children(ys@),
            vs.len() == ys@.len(),
            forall|j: int| 0 <= j < ys@.len() ==> vs[j] == #[trigger] ys@[j]@,
            Clause::view_children(r@) == flat_or(vs.take(i as int)),
        decreases ys.len() - i,
    {
        proof {
            assert(vs.take(i + 1).drop_last() =~= vs.take(i as int));
            assert(vs.take(i + 1).last() == vs[i as int]);
        }
        let ghost r_old = r@;
        let ci = &ys[i];
        proof {
            assert(ci@ == vs[i as int]);
        }
        match ci {
            Clause::Unsatisfiable => {
                proof {
                    assert(vs[i as int] == ClauseS::Unsatisfiable);
                }
            },
            Clause::Or(zs) => {
                let mut ws = clone_clauses(zs);
                let ghost ws_view = ws@;
                proof {
                    assert(vs[i as int] == ClauseS::Or(Clause::view_children(zs@)));
                }
                r.append(&mut ws);
                proof {
                    lemma_view_children_concat(r_old, ws_view);
                }
            },
            _ => {
                proof {
                    assert(vs[i as int] != ClauseS::Unsatisfiable && !(vs[i as int] is Or));
                }
                let y = ys[i].deep_clone();
                r.push(y);
                proof {
                    lemma_view_children_push(r_old, y);
                }
            },
        }
        i += 1;
    }
    proof {
        assert(vs.take(vs.len() as int) =~= vs);
    }
    r
}

/// Keep the first occurrence of each clause.
fn dedup_exec(v: Vec<Clause>) -> (r: Vec<Clause>)
    ensures
        Clause::view_children(r@) == dedup(Clause::view_children(v@)),
{
    proof {
        lemma_view_children(v@);
    }
    let ghost vs = Clause::view_children(v@);
    let mut r: Vec<Clause> = Vec::new();
    let mut i: usize = 0;
    while i < v.len()
        invariant
            0 <= i <= v.len(),
            vs == Clause::view_children(v@),
            vs.len() == v@.len(),
            forall|j: int| 0 <= j < v@.len() ==> vs[j] == #[trigger] v@[j]@,
            Clause::view_children(r@) == dedup(vs.take(i as int)),
        decreases v.len() - i,
    {
        proof {
            assert(vs.take(i + 1).drop_last() =~= vs.take(i as int));
            assert(vs.take(i + 1).last() == vs[i as int]);
        }
        let ghost r_old = r@;
        if !contains_clause(&r, &v[i]) {
            let y = v[i].deep_clone();
            r.push(y);
            proof {
                lemma_view_children_push(r_old, y);
            }
        }
        i += 1;
    }
    proof {
        assert(vs.take(vs.len() as int) =~= vs);
    }
    r
}

/// Whether the list holds an `Unsatisfiable` clause.
fn has_unsat(v: &Vec<Clause>) -> (r: bool)
    ensures
        r == Clause::view_children(v@).contains(ClauseS::Unsatisfiable),
{
    proof {
        lemma_view_children(v@);
    }
    let ghost vs = Clause::view_children(v@);
    let mut i: usize = 0;
    while i < v.len()
        invariant
            0 <= i <= v.len(),
            vs == Clause::view_children(v@),
            vs.len() == v@.len(),
            forall|j: int| 0 <= j < v@.len() ==> vs[j] == #[trigger] v@[j]@,
            forall|j: int| 0 <= j < i ==> vs[j] != ClauseS::Unsatisfiable,
        decreases v.len() - i,
    {
        let ci = &v[i];
        proof {
            assert(ci@ == vs[i as int]);
        }
        match ci {
            Clause::Unsatisfiable => {
                proof {
                    assert(vs[i as int] == ClauseS::Unsatisfiable);
                }
                return true;
            },
            _ => {},
        }
        i += 1;
    }
    proof {
        if vs.contains(ClauseS::Unsatisfiable) {
            let j = choose|j: int| 0 <= j < vs.len() && vs[j] == ClauseS::Unsatisfiable;
        }
    }
    false
}

/// Whether the list holds a `Trivial` clause.
fn has_trivial(v: &Vec<Clause>) -> (r: bool)
    ensures
        r == Clause::view_children(v@).contains(ClauseS::Trivial),
{
    proof {
        lemma_view_children(v@);
    }
    let ghost vs = Clause::view_children(v@);
    let mut i: usize = 0;
    while i < v.len()
        invariant
            0 <= i <= v.len(),
            vs == Clause::view_children(v@),
            vs.len() == v@.len(),
            forall|j: int| 0 <= j < v@.len() ==> vs[j] == #[trigger] v@[j]@,
            forall|j: int| 0 <= j < i ==> vs[j] != ClauseS::Trivial,
        decreases v.len() - i,
    {
        let ci = &v[i];
        proof {
            assert(ci@ == vs[i as int]);
        }
        match ci {
            Clause::Trivial => {
                proof {
                    assert(vs[i as int] == ClauseS::Trivial);
                }
                return true;
            },
            _ => {},
        }
        i += 1;
    }
    proof {
        if vs.contains(ClauseS::Trivial) {
            let j = choose|j: int| 0 <= j < vs.len() && vs[j] == ClauseS::Trivial;
        }
    }
    false
}

/// Rebuild a conjunction from its flattened, deduplicated children.
fn mk_and_exec(mut v: Vec<Clause>) -> (r: Clause)
    ensures
        r@ == mk_and(Clause::view_children(v@)),
{
    let ghost v0 = v@;
    proof {
        lemma_view_children(v0);
    }
    if has_unsat(&v) {
        Clause::Unsatisfiable
    } else if v.len() == 0 {
        Clause::Trivial
    } else if v.len() == 1 {
        let x = v.pop().unwrap();
        proof {
            assert(x == v0[0]);
            assert(Clause::view_children(v0)[0] == v0[0]@);
        }
        x
    } else {
        Clause::And(v)
    }
}

/// Rebuild a disjunction from its flattened, deduplicated children.
fn mk_or_exec(mut v: Vec<Clause>) -> (r: Clause)
    ensures
        r@ == mk_or(Clause::view_children(v@)),
{
    let ghost v0 = v@;
    proof {
        lemma_view_children(v0);
    }
    if has_trivial(&v) {
        Clause::Trivial
    } else if v.len() == 0 {
        Clause::Unsatisfiable
    } else if v.len() == 1 {
        let x = v.pop().unwrap();
        proof {
            assert(x == v0[0]);
            assert(Clause::view_children(v0)[0] == v0[0]@);
        }
        x
    } else {
        Clause::Or(v)
    }
}

impl Clause {
    /// Rewrite this clause to its normal form.  The result models
    /// `norm` of the model, so it is normal, semantically equivalent,
    /// and a fixed point of further normalization.
    pub fn normalize(&self) -> (r: Clause)
        ensures
            r@ == norm(self@),
        decreases self,
    {
        match self {
            Clause::Trivial => Clause::Trivial,
            Clause::Unsatisfiable => Clause::Unsatisfiable,
            Clause::Key(k) => Clause::Key(clone_bytes(k)),
            Clause::Hash(h) => Clause::Hash(clone_bytes(h)),
            Clause::Older(n) => Clause::Older(*n),
            Clause::After(n) => Clause::After(*n),
            Clause::Ctv(h) => Clause::Ctv(clone_bytes(h)),
            Clause::And(xs) => {
                let ys = normalize_children(xs);
                let flat = flatten_and_exec(&ys);
                mk_and_exec(dedup_exec(flat))
            },
            Clause::Or(xs) => {
                let ys = normalize_children(xs);
                let flat = flatten_or_exec(&ys);
                mk_or_exec(dedup_exec(flat))
            },
            Clause::Threshold(k, xs) => {
                let ys = normalize_children(xs);
                proof {
                    lemma_view_children(ys@);
                    lemma_norm_seq(Clause::view_children(xs@));
                }
                if *k == 0 {
                    Clause::Trivial
                } else if (*k as u128) > (ys.len() as u128) {
                    Clause::Unsatisfiable
                } else if (*k as u128) == (ys.len() as u128) {
                    let flat = flatten_and_exec(&ys);
                    mk_and_exec(dedup_exec(flat))
                } else if *k == 1 {
                    let flat = flatten_or_exec(&ys);
                    mk_or_exec(dedup_exec(flat))
                } else {
                    Clause::Threshold(*k, ys)
                }
            },
        }
    }
}

} // verus!
