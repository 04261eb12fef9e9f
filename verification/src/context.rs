//! Compilation contexts: the funds, path identity and recursion budget
//! carried through one compilation, and the structured errors that abort
//! it.
use vstd::prelude::*;

verus! {

/// The reason a compilation failed.
#[derive(Clone, Copy, PartialEq, Eq, Structural, Debug)]
pub enum ErrorKind {
    /// Generic abort requested by a contract.
    TerminateCompilation,
    /// An output asked for more than the context had left.
    AmountExceeded,
    /// A template's outputs exceed the funds that reach it.
    AmountNotConserved,
    /// A relative lock was re-set to a different value.
    SequenceConflict,
    /// The absolute lock was re-set to a different value.
    LockTimeConflict,
    /// The policy cannot be lowered to the target script form.
    PolicyCompilation,
    /// Two committed templates hash to the same value.
    DuplicateCommitment,
    /// The assembled policy admits no spending path.
    NoSpendPaths,
    /// The recursion budget was exhausted.
    DepthExceeded,
    /// A template was declared without outputs.
    EmptyTemplate,
    /// An external lookup the contract depends on is missing.
    OracleUnavailable,
}

/// A structural compilation error: the violated invariant and the path
/// of the failing subcontract.
#[derive(Debug)]
pub struct CompilationError {
    /// Machine-readable tag.
    pub kind: ErrorKind,
    /// Edge tags from the root to the failing subcontract.
    pub path: Vec<String>,
    /// Human-readable explanation.
    pub detail: String,
}

impl CompilationError {
    /// Build an error at the given context path.
    pub fn at(kind: ErrorKind, path: Vec<String>, detail: String) -> (r: CompilationError)
        ensures
            r.kind == kind,
            r.path == path,
            r.detail == detail,
    {
        CompilationError { kind, path, detail }
    }
}

/// Copy a list of path tags.
pub fn clone_path(p: &Vec<String>) -> (r: Vec<String>)
    ensures
        r@ == p@,
{
    let mut r: Vec<String> = Vec::new();
    let mut i: usize = 0;
    while i < p.len()
        invariant
            0 <= i <= p@.len(),
            r@ == p@.take(i as int),
        decreases p@.len() - i,
    {
        r.push(p[i].clone());
        proof {
            assert(p@.take(i + 1).drop_last() =~= p@.take(i as int));
            assert(p@.take(i + 1).last() == p@[i as int]);
            assert(r@ =~= p@.take(i + 1));
        }
        i += 1;
    }
    proof {
        assert(p@.take(p@.len() as int) =~= p@);
    }
    r
}

/// The ephemeral state a compilation node runs under.
#[derive(Debug)]
pub struct Context {
    /// Satoshis not yet assigned at this node.
    pub available_amount: u64,
    /// Edge tags from the root, for error breadcrumbs.
    pub path: Vec<String>,
    /// Remaining recursion depth; descending past zero aborts.
    pub depth_budget: u64,
    /// Cooperative cancellation flag, checked at fork points.
    pub cancelled: bool,
}

impl Context {
    /// A fresh root context.
    pub fn new(available_amount: u64, depth_budget: u64) -> (r: Context)
        ensures
            r.available_amount == available_amount,
            r.depth_budget == depth_budget,
            r.path@.len() == 0,
            !r.cancelled,
    {
        Context { available_amount, path: Vec::new(), depth_budget, cancelled: false }
    }

    /// Funds still unassigned at this node.
    pub fn available(&self) -> (r: u64)
        ensures
            r == self.available_amount,
    {
        self.available_amount
    }

    /// Split off a child context carrying `amount`, extending the path by
    /// `tag` and spending one level of recursion budget.  The parent
    /// keeps the remainder.  Fails exactly when cancellation was
    /// observed, the amount is not available, or the budget is spent.
    pub fn fork(&mut self, amount: u64, tag: String) -> (r: Result<Context, CompilationError>)
        ensures
            match r {
                Ok(c) => {
                    &&& !old(self).cancelled
                    &&& amount <= old(self).available_amount
                    &&& old(self).depth_budget >= 1
                    &&& c.available_amount == amount
                    &&& c.depth_budget == old(self).depth_budget - 1
                    &&& c.path@ == old(self).path@.push(tag)
                    &&& c.cancelled == old(self).cancelled
                    &&& final(self).available_amount == old(self).available_amount - amount
                    &&& final(self).depth_budget == old(self).depth_budget
                    &&& final(self).path@ == old(self).path@
                    &&& final(self).cancelled == old(self).cancelled
                },
                Err(e) => {
                    &&& *final(self) == *old(self)
                    &&& (old(self).cancelled ==> e.kind == ErrorKind::TerminateCompilation)
                    &&& (!old(self).cancelled && amount > old(self).available_amount
                        ==> e.kind == ErrorKind::AmountExceeded)
                    &&& (!old(self).cancelled && amount <= old(self).available_amount
                        && old(self).depth_budget == 0 ==> e.kind == ErrorKind::DepthExceeded)
                    &&& (old(self).cancelled || amount > old(self).available_amount
                        || old(self).depth_budget == 0)
                },
            },
    {
        if self.cancelled {
            return Err(CompilationError::at(
                ErrorKind::TerminateCompilation,
                clone_path(&self.path),
                "compilation cancelled".to_string(),
            ));
        }
        if amount > self.available_amount {
            return Err(CompilationError::at(
                ErrorKind::AmountExceeded,
                clone_path(&self.path),
                "amount exceeds available funds".to_string(),
            ));
        }
        if self.depth_budget == 0 {
            return Err(CompilationError::at(
                ErrorKind::DepthExceeded,
                clone_path(&self.path),
                "recursion budget exhausted".to_string(),
            ));
        }
        let mut child_path = clone_path(&self.path);
        child_path.push(tag);
        self.available_amount = self.available_amount - amount;
        Ok(Context {
            available_amount: amount,
            path: child_path,
            depth_budget: self.depth_budget - 1,
            cancelled: self.cancelled,
        })
    }
}

} // verus!
