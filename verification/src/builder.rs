//! The template builder: accumulates outputs, locks and labels for one
//! candidate child transaction, then freezes it and computes its
//! covenant commitment hash.
use vstd::prelude::*;
use crate::context::{CompilationError, ErrorKind, clone_path};
use crate::template::{Output, Template, Compiled, template_hash, ctv_hash,
    sum_outputs, wf_output, wf_compiled, wf_template, NO_SEQUENCE};

verus! {

/// An in-progress template.  No operation has a visible effect until
/// `finalize`, which consumes the builder.
#[derive(Debug)]
pub struct Builder {
    /// Satoshis this candidate transaction may distribute.
    pub funding: u64,
    /// Satoshis not yet assigned to an output.
    pub remaining: u64,
    /// Requested relative locks; `None` means "no relative lock".
    pub sequences: Vec<Option<u32>>,
    /// Requested absolute lock, if any.
    pub lock_time: Option<u32>,
    /// Outputs added so far.
    pub outputs: Vec<Output>,
    /// Optional human tag.
    pub label: Option<String>,
    /// Free-form annotations.
    pub metadata: Vec<(String, String)>,
    /// Breadcrumb path for errors.
    pub path: Vec<String>,
}

/// Builder invariant: assigned and unassigned funds always add up to the
/// funding, every output is well-formed, and the lists stay within the
/// serializable bounds.
pub open spec fn wf_builder(b: Builder) -> bool {
    &&& b.remaining <= b.funding
    &&& sum_outputs(b.outputs@) == b.funding - b.remaining
    &&& forall|i: int| 0 <= i < b.outputs@.len() ==> wf_output(#[trigger] b.outputs@[i])
    &&& b.outputs@.len() <= 65535
    &&& 1 <= b.sequences@.len() <= 65535
}

/// The final per-input sequence values: requested locks where set, the
/// "no relative lock" marker elsewhere.
pub open spec fn resolved_sequences(ss: Seq<Option<u32>>) -> Seq<u32> {
    Seq::new(ss.len(), |i: int| match ss[i] {
        Some(v) => v,
        None => NO_SEQUENCE,
    })
}

impl Builder {
    /// Start a template that may distribute `funding` satoshis.  Input 0,
    /// the covenant input, starts with no relative lock.
    pub fn new(funding: u64, path: Vec<String>) -> (r: Builder)
        ensures
            wf_builder(r),
            r.funding == funding,
            r.remaining == funding,
            r.outputs@.len() == 0,
            r.sequences@ =~= seq![None::<u32>],
            r.lock_time is None,
            r.label is None,
            r.path == path,
    {
        let mut sequences: Vec<Option<u32>> = Vec::new();
        sequences.push(None);
        Builder {
            funding,
            remaining: funding,
            sequences,
            lock_time: None,
            outputs: Vec::new(),
            label: None,
            metadata: Vec::new(),
            path,
        }
    }

    /// Append an output paying `amount` to an already-compiled contract.
    /// Fails with `AmountExceeded` when the amount is not available in
    /// this template's budget.
    pub fn add_output(
        self,
        amount: u64,
        contract: Compiled,
        metadata: Option<Vec<(String, String)>>,
    ) -> (r: Result<Builder, CompilationError>)
        requires
            wf_builder(self),
            wf_compiled(contract),
        ensures
            match r {
                Ok(b) => {
                    &&& wf_builder(b)
                    &&& amount <= self.remaining
                    &&& self.outputs@.len() < 65535
                    &&& b.funding == self.funding
                    &&& b.remaining == self.remaining - amount
                    &&& b.outputs@.len() == self.outputs@.len() + 1
                    &&& b.outputs@.last().amount == amount
                    &&& b.outputs@.last().contract == contract
                    &&& b.outputs@.drop_last() == self.outputs@
                    &&& b.sequences@ == self.sequences@
                    &&& b.lock_time == self.lock_time
                    &&& b.label == self.label
                    &&& b.path == self.path
                },
                Err(e) => e.kind == ErrorKind::AmountExceeded && amount > self.remaining
                    || e.kind == ErrorKind::TerminateCompilation && self.outputs@.len() >= 65535,
            },
    {
        if self.outputs.len() >= 65535 {
            return Err(CompilationError::at(
                ErrorKind::TerminateCompilation,
                clone_path(&self.path),
                "too many outputs for one template".to_string(),
            ));
        }
        if amount > self.remaining {
            return Err(CompilationError::at(
                ErrorKind::AmountExceeded,
                clone_path(&self.path),
                "amount exceeds available funds".to_string(),
            ));
        }
        let m = match metadata {
            Some(m) => m,
            None => Vec::new(),
        };
        let mut this = self;
        this.remaining = this.remaining - amount;
        let ghost before = this.outputs@;
        this.outputs.push(Output { amount, contract, metadata: m });
        proof {
            assert(this.outputs@.drop_last() =~= before);
        }
        Ok(this)
    }

    /// Record a relative lock for input `idx`; missing inputs up to `idx`
    /// are created without a lock.  Re-setting an input to a different
    /// value fails with `SequenceConflict`.
    pub fn set_sequence(self, idx: usize, value: u32) -> (r: Result<
        Builder,
        CompilationError,
    >)
        requires
            wf_builder(self),
            idx < 65535,
        ensures
            match r {
                Ok(b) => {
                    &&& wf_builder(b)
                    &&& b.sequences@.len() >= idx + 1
                    &&& b.sequences@[idx as int] == Some(value)
                    &&& forall|i: int| 0 <= i < b.sequences@.len() && i != idx
                        ==> b.sequences@[i] == if i < self.sequences@.len() {
                            self.sequences@[i]
                        } else {
                            None::<u32>
                        }
                    &&& b.sequences@.len() == if idx + 1 > self.sequences@.len() {
                        idx + 1
                    } else {
                        self.sequences@.len() as int
                    }
                    &&& (idx < self.sequences@.len()
                        ==> (self.sequences@[idx as int] is None
                            || self.sequences@[idx as int] == Some(value)))
                    &&& b.funding == self.funding
                    &&& b.remaining == self.remaining
                    &&& b.outputs@ == self.outputs@
                    &&& b.lock_time == self.lock_time
                    &&& b.label == self.label
                    &&& b.path == self.path
                },
                Err(e) => {
                    &&& e.kind == ErrorKind::SequenceConflict
                    &&& idx < self.sequences@.len()
                    &&& !(self.sequences@[idx as int] is None)
                    &&& self.sequences@[idx as int] != Some(value)
                },
            },
    {
        let mut this = self;
        let ghost ss0 = this.sequences@;
        while this.sequences.len() < idx + 1
            invariant
                1 <= this.sequences@.len() <= 65535,
                idx < 65535,
                ss0.len() <= this.sequences@.len(),
                this.sequences@.len() <= idx + 1 || this.sequences@.len() == ss0.len(),
                this.sequences@.len() >= idx + 1 ==> this.sequences@.len()
                    == if idx + 1 > ss0.len() { idx + 1 } else { ss0.len() as int },
                forall|j: int| 0 <= j < ss0.len() ==> this.sequences@[j] == ss0[j],
                forall|j: int| ss0.len() <= j < this.sequences@.len()
                    ==> this.sequences@[j] == None::<u32>,
                this == (Builder { sequences: this.sequences, ..self }),
            decreases idx + 1 - this.sequences@.len(),
        {
            this.sequences.push(None);
        }
        let prev = this.sequences[idx];
        match prev {
            Some(v) => {
                if v != value {
                    return Err(CompilationError::at(
                        ErrorKind::SequenceConflict,
                        clone_path(&this.path),
                        "input sequence re-set to a different value".to_string(),
                    ));
                }
            },
            None => {},
        }
        this.sequences.set(idx, Some(value));
        Ok(this)
    }

    /// Record the absolute lock time; re-setting it to a different value
    /// fails with `LockTimeConflict`.
    pub fn set_lock_time(self, value: u32) -> (r: Result<Builder, CompilationError>)
        requires
            wf_builder(self),
        ensures
            match r {
                Ok(b) => {
                    &&& wf_builder(b)
                    &&& b.lock_time == Some(value)
                    &&& (self.lock_time is None || self.lock_time == Some(value))
                    &&& b.funding == self.funding
                    &&& b.remaining == self.remaining
                    &&& b.outputs@ == self.outputs@
                    &&& b.sequences@ == self.sequences@
                    &&& b.label == self.label
                    &&& b.path == self.path
                },
                Err(e) => {
                    &&& e.kind == ErrorKind::LockTimeConflict
                    &&& !(self.lock_time is None)
                    &&& self.lock_time != Some(value)
                },
            },
    {
        match self.lock_time {
            Some(v) => {
                if v != value {
                    return Err(CompilationError::at(
                        ErrorKind::LockTimeConflict,
                        clone_path(&self.path),
                        "lock time re-set to a different value".to_string(),
                    ));
                }
            },
            None => {},
        }
        let mut this = self;
        this.lock_time = Some(value);
        Ok(this)
    }

    /// Attach a human-readable tag.
    pub fn set_label(self, label: String) -> (r: Builder)
        ensures
            r == (Builder { label: Some(label), ..self }),
    {
        let mut this = self;
        this.label = Some(label);
        this
    }

    /// Attach a free-form annotation.
    pub fn set_metadata(self, key: String, value: String) -> (r: Builder)
        ensures
            r.metadata@ == self.metadata@.push((key, value)),
            r == (Builder { metadata: r.metadata, ..self }),
    {
        let mut this = self;
        this.metadata.push((key, value));
        this
    }

    /// Freeze the builder into a template and compute its covenant
    /// commitment hash.  Fails with `EmptyTemplate` exactly when no
    /// output was added.
    pub fn finalize(self) -> (r: Result<(Template, Vec<u8>), CompilationError>)
        requires
            wf_builder(self),
        ensures
            match r {
                Ok(p) => {
                    &&& self.outputs@.len() >= 1
                    &&& p.1@ == ctv_hash(p.0)
                    &&& p.1@.len() == 32
                    &&& wf_template(p.0)
                    &&& p.0.outputs@ == self.outputs@
                    &&& sum_outputs(p.0.outputs@) == self.funding - self.remaining
                    &&& sum_outputs(p.0.outputs@) <= self.funding
                    &&& p.0.sequences@ == resolved_sequences(self.sequences@)
                    &&& p.0.lock_time == (match self.lock_time {
                        Some(v) => v,
                        None => 0u32,
                    })
                    &&& p.0.label == self.label
                    &&& p.0.metadata@ == self.metadata@
                },
                Err(e) => e.kind == ErrorKind::EmptyTemplate && self.outputs@.len() == 0,
            },
    {
        if self.outputs.len() == 0 {
            return Err(CompilationError::at(
                ErrorKind::EmptyTemplate,
                clone_path(&self.path),
                "template has no outputs".to_string(),
            ));
        }
        let mut sequences: Vec<u32> = Vec::new();
        let mut i: usize = 0;
        while i < self.sequences.len()
            invariant
                0 <= i <= self.sequences@.len(),
                sequences@.len() == i,
                forall|j: int| 0 <= j < i ==> sequences@[j] == resolved_sequences(
                    self.sequences@,
                )[j],
            decreases self.sequences@.len() - i,
        {
            match self.sequences[i] {
                Some(v) => sequences.push(v),
                None => sequences.push(NO_SEQUENCE),
            }
            i += 1;
        }
        proof {
            assert(sequences@ =~= resolved_sequences(self.sequences@));
        }
        let lock_time = match self.lock_time {
            Some(v) => v,
            None => 0,
        };
        let t = Template {
            sequences,
            lock_time,
            outputs: self.outputs,
            label: self.label,
            metadata: self.metadata,
        };
        let h = template_hash(&t);
        Ok((t, h))
    }
}

} // verus!
