//! The clause algebra: symbolic spending conditions and their normalization.
use vstd::prelude::*;

verus! {

/// A spending condition, as a finite tree of combinators over
/// cryptographic and time-lock leaves.
#[derive(Debug)]
pub enum Clause {
    /// Always satisfiable: the identity of `And`.
    Trivial,
    /// Never satisfiable: the identity of `Or`.
    Unsatisfiable,
    /// Signature by the given public key (33-byte compressed encoding).
    Key(Vec<u8>),
    /// Reveal of a preimage of the given SHA-256 image.
    Hash(Vec<u8>),
    /// Relative time lock: the spending input's sequence must commit
    /// to at least this relative age.
    Older(u32),
    /// Absolute time lock on the spending transaction.
    After(u32),
    /// Covenant commitment: the spending transaction must hash to
    /// exactly this 32-byte value.
    Ctv(Vec<u8>),
    /// At least `k` of the children are satisfied.
    Threshold(u64, Vec<Clause>),
    /// All children satisfied.
    And(Vec<Clause>),
    /// At least one child satisfied.
    Or(Vec<Clause>),
}

/// The mathematical model of a clause tree.
pub ghost enum ClauseS {
    Trivial,
    Unsatisfiable,
    Key(Seq<u8>),
    Hash(Seq<u8>),
    Older(int),
    After(int),
    Ctv(Seq<u8>),
    Threshold(int, Seq<ClauseS>),
    And(Seq<ClauseS>),
    Or(Seq<ClauseS>),
}

impl Clause {
    /// The model of this clause.
    pub open spec fn view(self) -> ClauseS
        decreases self,
    {
        match self {
            Clause::Trivial => ClauseS::Trivial,
            Clause::Unsatisfiable => ClauseS::Unsatisfiable,
            Clause::Key(k) => ClauseS::Key(k@),
            Clause::Hash(h) => ClauseS::Hash(h@),
            Clause::Older(n) => ClauseS::Older(n as int),
            Clause::After(n) => ClauseS::After(n as int),
            Clause::Ctv(h) => ClauseS::Ctv(h@),
            Clause::Threshold(k, xs) => ClauseS::Threshold(k as int, Self::view_children(xs@)),
            Clause::And(xs) => ClauseS::And(Self::view_children(xs@)),
            Clause::Or(xs) => ClauseS::Or(Self::view_children(xs@)),
        }
    }

    /// The models of a sequence of child clauses, in order.
    pub open spec fn view_children(xs: Seq<Clause>) -> Seq<ClauseS>
        decreases xs,
    {
        if xs.len() == 0 {
            Seq::empty()
        } else {
            Self::view_children(xs.drop_last()).push(xs.last().view())
        }
    }
}

/// `view_children` models each child pointwise.
pub proof fn lemma_view_children(xs: Seq<Clause>)
    ensures
        Clause::view_children(xs).len() == xs.len(),
        forall|i: int| 0 <= i < xs.len() ==> Clause::view_children(xs)[i] == #[trigger] xs[i].view(),
    decreases xs.len(),
{
    if xs.len() > 0 {
        lemma_view_children(xs.drop_last());
        assert forall|i: int| 0 <= i < xs.len() implies Clause::view_children(xs)[i]
            == #[trigger] xs[i].view() by {
            if i < xs.len() - 1 {
                assert(xs.drop_last()[i] == xs[i]);
            } else {
                assert(xs[i] == xs.last());
            }
        }
    }
}

/// A witness assignment: everything the chain could present when spending.
pub ghost struct Witness {
    /// Keys for which a valid signature is present.
    pub keys: Set<Seq<u8>>,
    /// Hash images whose preimage is revealed.
    pub preimages: Set<Seq<u8>>,
    /// Relative age of the spent output when the spend confirms.
    pub rel_age: int,
    /// Absolute lock time of the spending transaction.
    pub abs_time: int,
    /// Covenant commitment hash of the spending transaction.
    pub tx_hash: Seq<u8>,
}

/// Whether witness `w` satisfies clause `c`.
pub open spec fn sat(c: ClauseS, w: Witness) -> bool
    decreases c,
{
    match c {
        ClauseS::Trivial => true,
        ClauseS::Unsatisfiable => false,
        ClauseS::Key(k) => w.keys.contains(k),
        ClauseS::Hash(h) => w.preimages.contains(h),
        ClauseS::Older(n) => n <= w.rel_age,
        ClauseS::After(n) => n <= w.abs_time,
        ClauseS::Ctv(h) => w.tx_hash == h,
        ClauseS::Threshold(k, xs) => count_sat(xs, w) >= k,
        ClauseS::And(xs) => count_sat(xs, w) == xs.len(),
        ClauseS::Or(xs) => count_sat(xs, w) >= 1,
    }
}

/// How many clauses of `xs` the witness `w` satisfies.
pub open spec fn count_sat(xs: Seq<ClauseS>, w: Witness) -> int
    decreases xs,
{
    if xs.len() == 0 {
        0
    } else {
        count_sat(xs.drop_last(), w) + if sat(xs.last(), w) {
            1int
        } else {
            0int
        }
    }
}

/// All clauses of `xs` are satisfied by `w`.
pub open spec fn all_sat(xs: Seq<ClauseS>, w: Witness) -> bool {
    forall|i: int| 0 <= i < xs.len() ==> sat(xs[i], w)
}

/// Some clause of `xs` is satisfied by `w`.
pub open spec fn any_sat(xs: Seq<ClauseS>, w: Witness) -> bool {
    exists|i: int| 0 <= i < xs.len() && sat(xs[i], w)
}

/// `count_sat` is bounded by the length and characterizes `all_sat` and `any_sat`.
pub proof fn lemma_count_sat(xs: Seq<ClauseS>, w: Witness)
    ensures
        0 <= count_sat(xs, w) <= xs.len(),
        (count_sat(xs, w) == xs.len()) == all_sat(xs, w),
        (count_sat(xs, w) >= 1) == any_sat(xs, w),
    decreases xs.len(),
{
    if xs.len() > 0 {
        lemma_count_sat(xs.drop_last(), w);
        assert(forall|i: int| 0 <= i < xs.len() - 1 ==> xs.drop_last()[i] == #[trigger] xs[i]);
        assert(xs.last() == xs[xs.len() - 1]);
        if count_sat(xs, w) == xs.len() {
            assert(all_sat(xs, w));
        }
        if all_sat(xs, w) {
            assert(sat(xs[xs.len() - 1], w));
            assert(all_sat(xs.drop_last(), w));
        }
        if count_sat(xs, w) >= 1 {
            if sat(xs.last(), w) {
                assert(sat(xs[xs.len() - 1], w));
            }
        }
        if any_sat(xs, w) {
            let i = choose|i: int| 0 <= i < xs.len() && sat(xs[i], w);
            if i < xs.len() - 1 {
                assert(sat(xs.drop_last()[i], w));
            }
        }
    }
}

/// The byte strings of a list of byte vectors.
pub open spec fn views_of(v: Seq<Vec<u8>>) -> Seq<Seq<u8>> {
    v.map_values(|k: Vec<u8>| k@)
}

/// Everything a spending transaction could present, as plain data.
#[derive(Debug)]
pub struct WitnessData {
    /// Keys for which a valid signature is present.
    pub keys: Vec<Vec<u8>>,
    /// Hash images whose preimage is revealed.
    pub preimages: Vec<Vec<u8>>,
    /// Relative age of the spent output when the spend confirms.
    pub rel_age: u32,
    /// Absolute lock time of the spending transaction.
    pub abs_time: u32,
    /// Covenant commitment hash of the spending transaction.
    pub tx_hash: Vec<u8>,
}

impl WitnessData {
    /// The witness assignment this data stands for.
    pub open spec fn view(self) -> Witness {
        Witness {
            keys: views_of(self.keys@).to_set(),
            preimages: views_of(self.preimages@).to_set(),
            rel_age: self.rel_age as int,
            abs_time: self.abs_time as int,
            tx_hash: self.tx_hash@,
        }
    }
}

/// Whether some byte string of `v` equals `x`.
fn contains_bytes(v: &Vec<Vec<u8>>, x: &Vec<u8>) -> (r: bool)
    ensures
        r == views_of(v@).to_set().contains(x@),
{
    let ghost vs = views_of(v@);
    let mut i: usize = 0;
    while i < v.len()
        invariant
            0 <= i <= v@.len(),
            vs == views_of(v@),
            vs.len() == v@.len(),
            forall|j: int| 0 <= j < i ==> vs[j] != x@,
        decreases v@.len() - i,
    {
        if bytes_eq(&v[i], x) {
            proof {
                assert(vs[i as int] == x@);
            }
            return true;
        }
        proof {
            assert(vs[i as int] == v@[i as int]@);
        }
        i += 1;
    }
    proof {
        if vs.to_set().contains(x@) {
            let j = choose|j: int| 0 <= j < vs.len() && vs[j] == x@;
        }
    }
    false
}

impl Clause {
    /// Whether the witness satisfies this clause: the executable form of
    /// the satisfaction semantics.
    pub fn satisfied_by(&self, w: &WitnessData) -> (r: bool)
        ensures
            r == sat(self@, w@),
        decreases self,
    {
        match self {
            Clause::Trivial => {
                proof {
                    assert(sat(self@, w@));
                }
                true
            },
            Clause::Unsatisfiable => {
                proof {
                    assert(!sat(self@, w@));
                }
                false
            },
            Clause::Key(k) => {
                let r = contains_bytes(&w.keys, k);
                proof {
                    assert(sat(self@, w@) == w@.keys.contains(k@));
                    assert(r == sat(self@, w@));
                }
                r
            },
            Clause::Hash(h) => {
                let r = contains_bytes(&w.preimages, h);
                proof {
                    assert(r == sat(self@, w@));
                }
                r
            },
            Clause::Older(n) => {
                let r = *n <= w.rel_age;
                proof {
                    assert(r == sat(self@, w@));
                }
                r
            },
            Clause::After(n) => {
                let r = *n <= w.abs_time;
                proof {
                    assert(r == sat(self@, w@));
                }
                r
            },
            Clause::Ctv(h) => {
                let r = bytes_eq(&w.tx_hash, h);
                proof {
                    assert(r == sat(self@, w@));
                }
                r
            },
            Clause::Threshold(k, xs) => {
                let c = count_satisfied(xs, w);
                let r = (c as u64) >= *k;
                proof {
                    assert(r == sat(self@, w@));
                }
                r
            },
            Clause::And(xs) => {
                let c = count_satisfied(xs, w);
                let r = c == xs.len();
                proof {
                    assert(Clause::view_children(xs@).len() == xs@.len()) by {
                        lemma_view_children(xs@);
                    }
                    assert(r == sat(self@, w@));
                }
                r
            },
            Clause::Or(xs) => {
                let c = count_satisfied(xs, w);
                let r = c >= 1;
                proof {
                    assert(r == sat(self@, w@));
                }
                r
            },
        }
    }
}

/// How many clauses of the list the witness satisfies.
fn count_satisfied(xs: &Vec<Clause>, w: &WitnessData) -> (r: usize)
    ensures
        r == count_sat(Clause::view_children(xs@), w@),
        r <= xs@.len(),
    decreases xs,
{
    proof {
        lemma_view_children(xs@);
    }
    let ghost vs = Clause::view_children(xs@);
    let mut count: usize = 0;
    let mut i: usize = 0;
    while i < xs.len()
        invariant
            0 <= i <= xs@.len(),
            vs == Clause::view_children(xs@),
            vs.len() == xs@.len(),
            forall|j: int| 0 <= j < xs@.len() ==> vs[j] == #[trigger] xs@[j]@,
            count == count_sat(vs.take(i as int), w@),
            count <= i,
        decreases xs@.len() - i,
    {
        proof {
            assert(vs.take(i + 1).drop_last() =~= vs.take(i as int));
            assert(vs.take(i + 1).last() == vs[i as int]);
        }
        if xs[i].satisfied_by(w) {
            count += 1;
        }
        i += 1;
    }
    proof {
        assert(vs.take(vs.len() as int) =~= vs);
    }
    count
}

/// Structural equality of byte vectors.
pub fn bytes_eq(a: &Vec<u8>, b: &Vec<u8>) -> (r: bool)
    ensures
        r == (a@ == b@),
{
    if a.len() != b.len() {
        return false;
    }
    let mut i: usize = 0;
    while i < a.len()
        invariant
            0 <= i <= a.len(),
            a.len() == b.len(),
            forall|j: int| 0 <= j < i ==> a@[j] == b@[j],
        decreases a.len() - i,
    {
        if a[i] != b[i] {
            return false;
        }
        i += 1;
    }
    proof {
        assert(a@ =~= b@);
    }
    true
}

/// Copy of a byte vector.
pub fn clone_bytes(v: &Vec<u8>) -> (r: Vec<u8>)
    ensures
        r@ == v@,
{
    let r = v.clone();
    proof {
        assert(r@ =~= v@);
    }
    r
}

impl Clause {
    /// Deep copy; the copy models the same clause.
    pub fn deep_clone(&self) -> (r: Clause)
        ensures
            r@ == self@,
        decreases self,
    {
        match self {
            Clause::Trivial => Clause::Trivial,
            Clause::Unsatisfiable => Clause::Unsatisfiable,
            Clause::Key(k) => Clause::Key(clone_bytes(k)),
            Clause::Hash(h) => Clause::Hash(clone_bytes(h)),
            Clause::Older(n) => Clause::Older(*n),
            Clause::After(n) => Clause::After(*n),
            Clause::Ctv(h) => Clause::Ctv(clone_bytes(h)),
            Clause::Threshold(k, xs) => Clause::Threshold(*k, clone_clauses(xs)),
            Clause::And(xs) => Clause::And(clone_clauses(xs)),
            Clause::Or(xs) => Clause::Or(clone_clauses(xs)),
        }
    }

    /// Structural equality; true exactly when the models are equal.
    pub fn structural_eq(&self, other: &Clause) -> (r: bool)
        ensures
            r == (self@ == other@),
        decreases self,
    {
        match (self, other) {
            (Clause::Trivial, Clause::Trivial) => true,
            (Clause::Unsatisfiable, Clause::Unsatisfiable) => true,
            (Clause::Key(a), Clause::Key(b)) => bytes_eq(a, b),
            (Clause::Hash(a), Clause::Hash(b)) => bytes_eq(a, b),
            (Clause::Older(a), Clause::Older(b)) => a == b,
            (Clause::After(a), Clause::After(b)) => a == b,
            (Clause::Ctv(a), Clause::Ctv(b)) => bytes_eq(a, b),
            (Clause::Threshold(k, xs), Clause::Threshold(l, ys)) => k == l && eq_clauses(xs, ys),
            (Clause::And(xs), Clause::And(ys)) => eq_clauses(xs, ys),
            (Clause::Or(xs), Clause::Or(ys)) => eq_clauses(xs, ys),
            _ => false,
        }
    }
}

/// Deep copy of a clause list; the models agree pointwise.
pub fn clone_clauses(xs: &Vec<Clause>) -> (r: Vec<Clause>)
    ensures
        Clause::view_children(r@) == Clause::view_children(xs@),
        r@.len() == xs@.len(),
    decreases xs,
{
    let mut r: Vec<Clause> = Vec::new();
    let mut i: usize = 0;
    while i < xs.len()
        invariant
            0 <= i <= xs.len(),
            r@.len() == i,
            forall|j: int| 0 <= j < i ==> r@[j]@ == #[trigger] xs@[j]@,
        decreases xs.len() - i,
    {
        r.push(xs[i].deep_clone());
        i += 1;
    }
    proof {
        lemma_view_children(r@);
        lemma_view_children(xs@);
        assert forall|j: int| 0 <= j < xs@.len() implies Clause::view_children(r@)[j]
            == Clause::view_children(xs@)[j] by {
            assert(r@[j]@ == xs@[j]@);
        }
        assert(Clause::view_children(r@) =~= Clause::view_children(xs@));
    }
    r
}

/// Structural equality of clause lists; true exactly when the model
/// sequences are equal.
pub fn eq_clauses(xs: &Vec<Clause>, ys: &Vec<Clause>) -> (r: bool)
    ensures
        r == (Clause::view_children(xs@) == Clause::view_children(ys@)),
    decreases xs,
{
    proof {
        lemma_view_children(xs@);
        lemma_view_children(ys@);
    }
    if xs.len() != ys.len() {
        return false;
    }
    let mut i: usize = 0;
    while i < xs.len()
        invariant
            0 <= i <= xs.len(),
            xs.len() == ys.len(),
            Clause::view_children(xs@).len() == xs@.len(),
            Clause::view_children(ys@).len() == ys@.len(),
            forall|j: int| 0 <= j < xs.len()
                ==> Clause::view_children(xs@)[j] == #[trigger] xs@[j]@,
            forall|j: int| 0 <= j < ys.len()
                ==> Clause::view_children(ys@)[j] == #[trigger] ys@[j]@,
            forall|j: int| 0 <= j < i ==> xs@[j]@ == #[trigger] ys@[j]@,
        decreases xs.len() - i,
    {
        if !xs[i].structural_eq(&ys[i]) {
            proof {
                assert(Clause::view_children(xs@)[i as int] != Clause::view_children(ys@)[i as int]);
            }
            return false;
        }
        i += 1;
    }
    proof {
        assert forall|j: int| 0 <= j < xs@.len() implies Clause::view_children(xs@)[j]
            == Clause::view_children(ys@)[j] by {
            assert(xs@[j]@ == ys@[j]@);
        }
        assert(Clause::view_children(xs@) =~= Clause::view_children(ys@));
    }
    true
}

/// Whether some clause of `v` is structurally equal to `x`.
pub fn contains_clause(v: &Vec<Clause>, x: &Clause) -> (r: bool)
    ensures
        r == Clause::view_children(v@).contains(x@),
{
    proof {
        lemma_view_children(v@);
    }
    let mut i: usize = 0;
    while i < v.len()
        invariant
            0 <= i <= v.len(),
            Clause::view_children(v@).len() == v@.len(),
            forall|j: int| 0 <= j < v.len()
                ==> Clause::view_children(v@)[j] == #[trigger] v@[j]@,
            forall|j: int| 0 <= j < i ==> v@[j]@ != x@,
        decreases v.len() - i,
    {
        if v[i].structural_eq(x) {
            proof {
                assert(Clause::view_children(v@)[i as int] == x@);
            }
            return true;
        }
        i += 1;
    }
    proof {
        if Clause::view_children(v@).contains(x@) {
            let j = choose|j: int|
                0 <= j < v@.len() && Clause::view_children(v@)[j] == x@;
            assert(v@[j]@ == x@);
        }
    }
    false
}

} // verus!
