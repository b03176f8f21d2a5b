//! The persistent counter store.
//!
//! A [`Counter`] owns a signed in-memory value together with the paths of the
//! two files it is persisted in: a primary file rewritten on every mutation
//! and a backup file refreshed periodically. The library holds the decisions
//! of the store: how a value read from disk is adopted during startup
//! recovery, how mutations change the value, and which bytes a snapshot
//! writes. The caller performs the file reads and writes themselves and hands
//! the outcomes in as [`ReadOutcome`] values.

use vstd::prelude::*;

use crate::numeral::{
    dec_repr, int_literal_val, parse_i32, parses_to_i32, trim_ascii, trimmed, i32_to_dec,
    lemma_dec_repr_round_trip,
};

verus! {

/// What a full read of one of the counter's files produced: the file's bytes,
/// or a failure (the file could not be opened or read).
pub enum ReadOutcome {
    Failure,
    Content(Vec<u8>),
}

/// The read produced bytes that, after trimming surrounding whitespace, are a
/// decimal literal in `i32` range.
pub open spec fn read_parses(r: ReadOutcome) -> bool {
    match r {
        ReadOutcome::Failure => false,
        ReadOutcome::Content(b) => parses_to_i32(trimmed(b@)),
    }
}

/// The value carried by a read whose content parses.
pub open spec fn read_value(r: ReadOutcome) -> int {
    match r {
        ReadOutcome::Failure => 0,
        ReadOutcome::Content(b) => int_literal_val(trimmed(b@)),
    }
}

/// A counter persisted in a primary and a backup file.
pub struct Counter {
    value: i32,
    /// Path of the primary file, rewritten on every mutation.
    pub file_path: String,
    /// Path of the backup file, refreshed by the periodic backup.
    pub backup_path: String,
}

impl Counter {
    /// The current in-memory value.
    pub closed spec fn spec_value(&self) -> int {
        self.value as int
    }

    /// The primary file's path.
    pub closed spec fn spec_file_path(&self) -> Seq<char> {
        self.file_path@
    }

    /// The backup file's path.
    pub closed spec fn spec_backup_path(&self) -> Seq<char> {
        self.backup_path@
    }

    /// Both file paths are unchanged.
    pub open spec fn same_paths(&self, other: &Counter) -> bool {
        self.spec_file_path() == other.spec_file_path() && self.spec_backup_path()
            == other.spec_backup_path()
    }

    /// Create a store over the given file paths. Touches no file; the
    /// in-memory value starts at the default of zero.
    pub fn new(file_path: &str, backup_path: &str) -> (c: Counter)
        ensures
            c.spec_value() == 0,
            c.spec_file_path() == file_path@,
            c.spec_backup_path() == backup_path@,
    {
        Counter { value: 0, file_path: file_path.to_owned(), backup_path: backup_path.to_owned() }
    }

    /// Read the current value.
    pub fn get(&self) -> (v: i32)
        ensures
            v as int == self.spec_value(),
    {
        self.value
    }

    /// Add one to the in-memory value. The caller then persists the new
    /// value to the primary file.
    pub fn increment(&mut self)
        requires
            old(self).spec_value() < i32::MAX,
        ensures
            final(self).spec_value() == old(self).spec_value() + 1,
            final(self).same_paths(old(self)),
    {
        self.value = self.value + 1;
    }

    /// Subtract one from the in-memory value. The caller then persists the
    /// new value to the primary file.
    pub fn decrement(&mut self)
        requires
            old(self).spec_value() > i32::MIN,
        ensures
            final(self).spec_value() == old(self).spec_value() - 1,
            final(self).same_paths(old(self)),
    {
        self.value = self.value - 1;
    }

    /// The bytes a snapshot of the store writes to disk: the canonical
    /// decimal representation of the current value. Used for both the
    /// primary-file save and the backup. Depends on the value alone, so
    /// repeated snapshots with no intervening mutation are byte-identical,
    /// and each parses back to the value it was taken from.
    pub fn value_bytes(&self) -> (out: Vec<u8>)
        ensures
            out@ == dec_repr(self.spec_value()),
            parses_to_i32(out@),
            int_literal_val(out@) == self.spec_value(),
    {
        proof {
            lemma_dec_repr_round_trip(self.spec_value());
        }
        i32_to_dec(self.value)
    }

    /// First step of startup recovery: adopt the primary file's content if
    /// it reads and parses as an integer. On any failure the value is left
    /// untouched and recovery falls through to the backup file.
    pub fn adopt_primary(&mut self, read: &ReadOutcome) -> (ok: bool)
        ensures
            ok == read_parses(*read),
            final(self).spec_value() == if read_parses(*read) {
                read_value(*read)
            } else {
                old(self).spec_value()
            },
            final(self).same_paths(old(self)),
    {
        match read {
            ReadOutcome::Failure => false,
            ReadOutcome::Content(b) => {
                let t = trim_ascii(b.as_slice());
                match parse_i32(t.as_slice()) {
                    Some(v) => {
                        self.value = v;
                        true
                    },
                    None => false,
                }
            },
        }
    }

    /// Last step of startup recovery: adopt the backup file's content if it
    /// reads and parses as an integer, otherwise fall back to the default of
    /// zero. Returns whether a stored value was recovered; either way the
    /// caller then writes the resulting value through to the primary file.
    pub fn adopt_backup(&mut self, read: &ReadOutcome) -> (found: bool)
        ensures
            found == read_parses(*read),
            final(self).spec_value() == if read_parses(*read) {
                read_value(*read)
            } else {
                0
            },
            final(self).same_paths(old(self)),
    {
        match read {
            ReadOutcome::Failure => {
                self.value = 0;
                false
            },
            ReadOutcome::Content(b) => {
                let t = trim_ascii(b.as_slice());
                match parse_i32(t.as_slice()) {
                    Some(v) => {
                        self.value = v;
                        true
                    },
                    None => {
                        self.value = 0;
                        false
                    },
                }
            },
        }
    }
}

/// One mutation of the counter, as serialized by the store's lock.
pub enum CounterOp {
    Increment,
    Decrement,
}

/// How one operation changes the value.
pub open spec fn op_delta(op: CounterOp) -> int {
    match op {
        CounterOp::Increment => 1,
        CounterOp::Decrement => -1,
    }
}

/// The value after a serialized history of operations is applied in order.
pub open spec fn apply_ops(init: int, ops: Seq<CounterOp>) -> int
    decreases ops.len(),
{
    if ops.len() == 0 {
        init
    } else {
        apply_ops(init, ops.drop_last()) + op_delta(ops.last())
    }
}

/// Number of increments in a history.
pub open spec fn count_incs(ops: Seq<CounterOp>) -> int
    decreases ops.len(),
{
    if ops.len() == 0 {
        0
    } else {
        count_incs(ops.drop_last()) + if ops.last() is Increment {
            1int
        } else {
            0int
        }
    }
}

/// Number of decrements in a history.
pub open spec fn count_decs(ops: Seq<CounterOp>) -> int
    decreases ops.len(),
{
    if ops.len() == 0 {
        0
    } else {
        count_decs(ops.drop_last()) + if ops.last() is Decrement {
            1int
        } else {
            0int
        }
    }
}

/// Law: the counter's mutations are linearizable by counting. Whatever order
/// the lock serializes a history of increments and decrements into, the final
/// value is the initial value plus the number of increments minus the number
/// of decrements — it depends only on how many operations of each kind ran,
/// not on their interleaving.
pub proof fn lemma_apply_ops_linearizable(init: int, ops: Seq<CounterOp>)
    ensures
        apply_ops(init, ops) == init + count_incs(ops) - count_decs(ops),
    decreases ops.len(),
{
    if ops.len() > 0 {
        lemma_apply_ops_linearizable(init, ops.drop_last());
    }
}

/// Law: an increment followed by a decrement returns the counter to its
/// starting value, and the intermediate value is one above it.
pub proof fn lemma_increment_decrement_round_trip(init: int)
    ensures
        apply_ops(init, seq![CounterOp::Increment]) == init + 1,
        apply_ops(init, seq![CounterOp::Increment, CounterOp::Decrement]) == init,
{
    let one = seq![CounterOp::Increment];
    let two = seq![CounterOp::Increment, CounterOp::Decrement];
    assert(apply_ops(init, Seq::<CounterOp>::empty()) == init);
    assert(one.drop_last() =~= Seq::<CounterOp>::empty());
    assert(apply_ops(init, one) == init + 1);
    assert(two.drop_last() =~= one);
    assert(apply_ops(init, two) == apply_ops(init, one) + op_delta(CounterOp::Decrement));
}

/// Law: a backup is idempotent at the store's side. The snapshot bytes are a
/// function of the in-memory value alone — repeated backups with no
/// intervening mutation write the identical content — and that content is a
/// well-formed literal that parses back to the value, so the backup file ends
/// up equal to the in-memory value.
pub proof fn lemma_backup_snapshot_faithful(v: int)
    requires
        i32::MIN <= v <= i32::MAX,
    ensures
        parses_to_i32(dec_repr(v)),
        int_literal_val(dec_repr(v)) == v,
{
    lemma_dec_repr_round_trip(v);
}

} // verus!
