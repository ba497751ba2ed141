//! Writes to the device's key-value storage, as values.
use vstd::prelude::*;

verus! {

broadcast use vstd::string::group_string_axioms;

/// A write to the storage.
#[derive(Debug)]
pub enum NvsOp {
    Store { namespace: &'static str, key: &'static str, value: String },
    Remove { namespace: &'static str, key: &'static str },
}

/// What a write is.
pub enum NvsModel {
    Store { namespace: Seq<char>, key: Seq<char>, value: Seq<char> },
    Remove { namespace: Seq<char>, key: Seq<char> },
}

impl View for NvsOp {
    type V = NvsModel;

    open spec fn view(&self) -> NvsModel {
        match *self {
            NvsOp::Store { namespace, key, value } => NvsModel::Store {
                namespace: namespace@,
                key: key@,
                value: value@,
            },
            NvsOp::Remove { namespace, key } => NvsModel::Remove {
                namespace: namespace@,
                key: key@,
            },
        }
    }
}

/// What is stored: the text of each key in each namespace.
pub type Stored = Map<(Seq<char>, Seq<char>), Seq<char>>;

/// The models of a vector's writes.
pub open spec fn op_models(ops: Seq<NvsOp>) -> Seq<NvsModel> {
    ops.map_values(|o: NvsOp| o@)
}

/// What is stored after a write that succeeded.
pub open spec fn after_op(stored: Stored, op: NvsModel) -> Stored {
    match op {
        NvsModel::Store { namespace, key, value } => stored.insert((namespace, key), value),
        NvsModel::Remove { namespace, key } => stored.remove((namespace, key)),
    }
}

/// What is stored after writes that all succeeded.
pub open spec fn after_ops(stored: Stored, ops: Seq<NvsModel>) -> Stored
    decreases ops.len(),
{
    if ops.len() == 0 {
        stored
    } else {
        after_op(after_ops(stored, ops.drop_last()), ops.last())
    }
}

/// A write to store `value`.
pub fn store(namespace: &'static str, key: &'static str, value: &str) -> (r: NvsOp)
    ensures
        r@ == (NvsModel::Store { namespace: namespace@, key: key@, value: value@ }),
{
    NvsOp::Store { namespace, key, value: value.to_owned() }
}

/// A write to remove a key.
pub fn remove(namespace: &'static str, key: &'static str) -> (r: NvsOp)
    ensures
        r@ == (NvsModel::Remove { namespace: namespace@, key: key@ }),
{
    NvsOp::Remove { namespace, key }
}

// ---------------------------------------------------------------------------
// Laws
// ---------------------------------------------------------------------------

/// The key that a write is about.
pub open spec fn key_of(op: NvsModel) -> (Seq<char>, Seq<char>) {
    match op {
        NvsModel::Store { namespace, key, value } => (namespace, key),
        NvsModel::Remove { namespace, key } => (namespace, key),
    }
}

/// What a write leaves of its key.
pub open spec fn left_by(op: NvsModel, stored: Stored) -> bool {
    match op {
        NvsModel::Store { namespace, key, value } => stored.contains_pair((namespace, key), value),
        NvsModel::Remove { namespace, key } => !stored.contains_key((namespace, key)),
    }
}

/// A key is as the last write about it left it.
pub proof fn lemma_last_write_stays(stored: Stored, ops: Seq<NvsModel>, i: int)
    requires
        0 <= i < ops.len(),
        forall|j: int| i < j < ops.len() ==> key_of(#[trigger] ops[j]) != key_of(ops[i]),
    ensures
        left_by(ops[i], after_ops(stored, ops)),
    decreases ops.len(),
{
    if i < ops.len() - 1 {
        let rest = ops.drop_last();
        assert forall|j: int| i < j < rest.len() implies key_of(#[trigger] rest[j]) != key_of(
            rest[i],
        ) by {
            assert(rest[j] == ops[j]);
        }
        lemma_last_write_stays(stored, rest, i);
        assert(key_of(ops[ops.len() - 1]) != key_of(ops[i]));
    }
}

/// A key that no write is about stays as it was.
pub proof fn lemma_others_stay(stored: Stored, ops: Seq<NvsModel>, key: (Seq<char>, Seq<char>))
    requires
        forall|j: int| 0 <= j < ops.len() ==> key_of(#[trigger] ops[j]) != key,
    ensures
        after_ops(stored, ops).contains_key(key) == stored.contains_key(key),
        stored.contains_key(key) ==> after_ops(stored, ops)[key] == stored[key],
    decreases ops.len(),
{
    if ops.len() > 0 {
        let rest = ops.drop_last();
        assert forall|j: int| 0 <= j < rest.len() implies key_of(#[trigger] rest[j]) != key by {
            assert(rest[j] == ops[j]);
        }
        lemma_others_stay(stored, rest, key);
        assert(key_of(ops[ops.len() - 1]) != key);
    }
}

} // verus!
