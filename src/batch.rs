use crate::codec::{KeyCodec, ValueCodec};
use crate::error::{Error, Result};
use crate::store::{encode_entry, error_message, Contents};
use core::marker::PhantomData;
use vstd::prelude::*;

verus! {

/// One pending write of a batch, in encoded form.
#[derive(Debug)]
pub enum BatchOp {
    /// Store the value bytes under the key bytes.
    Put(Vec<u8>, Vec<u8>),
    /// Remove the key bytes.
    Delete(Vec<u8>),
}

/// A pending write as plain bytes.
pub enum OpView {
    Put(Seq<u8>, Seq<u8>),
    Delete(Seq<u8>),
}

impl View for BatchOp {
    type V = OpView;

    open spec fn view(&self) -> OpView {
        match self {
            BatchOp::Put(k, v) => OpView::Put(k@, v@),
            BatchOp::Delete(k) => OpView::Delete(k@),
        }
    }
}

/// The contents of a namespace after a batch's writes are applied to `m`, in
/// the order they were added. The engine applies them all at once or none.
pub open spec fn apply_ops(m: Contents, ops: Seq<OpView>) -> Contents
    decreases ops.len(),
{
    if ops.len() == 0 {
        m
    } else {
        let before = apply_ops(m, ops.drop_last());
        match ops.last() {
            OpView::Put(k, v) => before.insert(k, v),
            OpView::Delete(k) => before.remove(k),
        }
    }
}

/// The key that a pending write touches.
pub open spec fn op_key(op: OpView) -> Seq<u8> {
    match op {
        OpView::Put(k, _) => k,
        OpView::Delete(k) => k,
    }
}

/// A batch of writes against one namespace, applied by the engine atomically
/// on commit. Until then it has no effect on the store.
pub struct RocksMapBatch<K, V, KC, VC> {
    /// The namespace the batch writes to; `None` is the default one.
    pub cf_name: Option<String>,
    /// The pending writes, in the order they were added.
    pub ops: Vec<BatchOp>,
    /// Ties the batch to its key and value types and codecs.
    pub codecs: PhantomData<(K, V, KC, VC)>,
}

impl<K: View, V: View, KC: KeyCodec<K>, VC: ValueCodec<V>> RocksMapBatch<K, V, KC, VC> {
    /// The pending writes as plain bytes.
    pub open spec fn ops_view(&self) -> Seq<OpView> {
        self.ops@.map_values(|op: BatchOp| op@)
    }

    /// An empty batch for the namespace `cf_name`.
    pub fn new(cf_name: Option<String>) -> (r: Self)
        ensures
            r.cf_name == cf_name,
            r.ops_view() == Seq::<OpView>::empty(),
    {
        RocksMapBatch { cf_name, ops: Vec::new(), codecs: PhantomData }
    }

    /// Adds a put of `value` under `key`. On an encoding error nothing is added.
    pub fn put(&mut self, key: &K, value: &V) -> (r: Result<()>)
        ensures
            final(self).cf_name == old(self).cf_name,
            match r {
                Ok(()) => final(self).ops_view() == old(self).ops_view().push(
                    OpView::Put(KC::encode_spec(key@), VC::encode_spec(value@)),
                ) && KC::encodable(key@) && VC::encodable(value@),
                Err(e) => final(self).ops_view() == old(self).ops_view() && e is Serialization,
            },
            KC::encodable(key@) && VC::encodable(value@) ==> r is Ok,
    {
        let (kb, vb) = encode_entry::<K, V, KC, VC>(key, value)?;
        let ghost before = self.ops@;
        self.ops.push(BatchOp::Put(kb, vb));
        assert(self.ops@.map_values(|op: BatchOp| op@) =~= before.map_values(|op: BatchOp| op@).push(
            self.ops@.last()@,
        ));
        Ok(())
    }

    /// Adds a delete of `key`. On an encoding error nothing is added.
    pub fn delete(&mut self, key: &K) -> (r: Result<()>)
        ensures
            final(self).cf_name == old(self).cf_name,
            match r {
                Ok(()) => final(self).ops_view() == old(self).ops_view().push(
                    OpView::Delete(KC::encode_spec(key@)),
                ),
                Err(e) => final(self).ops_view() == old(self).ops_view() && e is Serialization,
            },
            KC::encodable(key@) ==> r is Ok,
    {
        let kb = match KC::encode(key) {
            Ok(b) => b,
            Err(e) => {
                return Err(Error::Serialization(error_message(e)));
            },
        };
        let ghost before = self.ops@;
        self.ops.push(BatchOp::Delete(kb));
        assert(self.ops@.map_values(|op: BatchOp| op@) =~= before.map_values(|op: BatchOp| op@).push(
            self.ops@.last()@,
        ));
        Ok(())
    }

    /// Discards every pending write; the batch stays usable.
    pub fn clear(&mut self)
        ensures
            final(self).cf_name == old(self).cf_name,
            final(self).ops_view() == Seq::<OpView>::empty(),
    {
        self.ops = Vec::new();
        assert(self.ops@.map_values(|op: BatchOp| op@) =~= Seq::<OpView>::empty());
    }
}

/// No write after the one at `i` touches its key.
pub open spec fn last_touch(ops: Seq<OpView>, i: int) -> bool {
    forall|j: int| i < j < ops.len() ==> op_key(#[trigger] ops[j]) != op_key(ops[i])
}

/// No write of the batch touches `k`.
pub open spec fn untouched(ops: Seq<OpView>, k: Seq<u8>) -> bool {
    forall|j: int| 0 <= j < ops.len() ==> op_key(#[trigger] ops[j]) != k
}

/// Once a batch is committed, every one of its writes is visible: a key
/// that the batch last put maps to the value of that put, and a key that it
/// last deleted is absent. Keys that the batch does not touch keep their
/// values.
pub proof fn lemma_batch_all_visible(m: Contents, ops: Seq<OpView>)
    ensures
        forall|i: int|
            0 <= i < ops.len() && #[trigger] ops[i] is Put && last_touch(ops, i) ==> apply_ops(
                m,
                ops,
            ).contains_key(ops[i]->Put_0) && apply_ops(m, ops)[ops[i]->Put_0] == ops[i]->Put_1,
        forall|i: int|
            0 <= i < ops.len() && #[trigger] ops[i] is Delete && last_touch(ops, i) ==> !apply_ops(
                m,
                ops,
            ).contains_key(ops[i]->Delete_0),
        forall|k: Seq<u8>|
            #[trigger] untouched(ops, k) ==> apply_ops(m, ops).contains_key(k) == m.contains_key(k)
                && apply_ops(m, ops)[k] == m[k],
    decreases ops.len(),
{
    if ops.len() > 0 {
        let rest = ops.drop_last();
        lemma_batch_all_visible(m, rest);
        assert forall|i: int| 0 <= i < rest.len() && last_touch(ops, i) implies last_touch(rest, i) by {
            assert forall|j: int| i < j < rest.len() implies op_key(#[trigger] rest[j]) != op_key(rest[i]) by {
                assert(rest[j] == ops[j]);
            }
        }
        assert forall|k: Seq<u8>| #[trigger] untouched(ops, k) implies untouched(rest, k) by {
            assert forall|j: int| 0 <= j < rest.len() implies op_key(#[trigger] rest[j]) != k by {
                assert(rest[j] == ops[j]);
            }
        }
        assert forall|i: int|
            0 <= i < ops.len() && #[trigger] ops[i] is Put && last_touch(ops, i) implies apply_ops(
                m,
                ops,
            ).contains_key(ops[i]->Put_0) && apply_ops(m, ops)[ops[i]->Put_0] == ops[i]->Put_1 by {
            if i < rest.len() {
                assert(rest[i] == ops[i]);
                assert(op_key(ops[ops.len() - 1]) != op_key(ops[i]));
            }
        }
        assert forall|i: int|
            0 <= i < ops.len() && #[trigger] ops[i] is Delete && last_touch(ops, i) implies !apply_ops(
                m,
                ops,
            ).contains_key(ops[i]->Delete_0) by {
            if i < rest.len() {
                assert(rest[i] == ops[i]);
                assert(op_key(ops[ops.len() - 1]) != op_key(ops[i]));
            }
        }
    }
}

} // verus!
