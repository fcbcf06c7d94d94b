//! What those are told who watch keys.

use crate::bytes::copy_bytes;
use crate::versionstamp::Versionstamp;
use crate::views::seq_view;
use vstd::prelude::*;

verus! {

/// That a key has changed, and the version that changed it.
#[derive(Debug, PartialEq, Eq)]
pub struct KeyUpdate {
    pub key: Vec<u8>,
    pub versionstamp: Versionstamp,
}

/// What a `KeyUpdate` stands for.
pub struct Update {
    pub key: Seq<u8>,
    pub versionstamp: Seq<u8>,
}

impl View for KeyUpdate {
    type V = Update;

    open spec fn view(&self) -> Update {
        Update { key: self.key@, versionstamp: self.versionstamp@ }
    }
}

/// That keys have changed, in their order.
pub open spec fn updates_of(keys: Seq<Seq<u8>>, versionstamp: Seq<u8>) -> Seq<Update> {
    Seq::new(keys.len(), |i: int| Update { key: keys[i], versionstamp })
}

/// That a key has changed, after other updates.
pub(crate) fn push_update(updates: &mut Vec<KeyUpdate>, key: &Vec<u8>, versionstamp: Versionstamp)
    ensures
        seq_view(final(updates)@) == seq_view(old(updates)@).push(
            Update { key: key@, versionstamp: versionstamp@ },
        ),
{
    updates.push(KeyUpdate { key: copy_bytes(key), versionstamp });
    assert(seq_view(updates@) =~= seq_view(old(updates)@).push(
        Update { key: key@, versionstamp: versionstamp@ },
    ));
}

/// That keys have changed.
pub(crate) fn key_updates(keys: &Vec<Vec<u8>>, versionstamp: Versionstamp) -> (updates: Vec<
    KeyUpdate,
>)
    ensures
        seq_view(updates@) == updates_of(seq_view(keys@), versionstamp@),
{
    let mut updates: Vec<KeyUpdate> = Vec::new();
    let mut i: usize = 0;
    while i < keys.len()
        invariant
            i <= keys@.len(),
            seq_view(updates@) =~= updates_of(seq_view(keys@), versionstamp@).take(i as int),
        decreases keys@.len() - i,
    {
        push_update(&mut updates, &keys[i], versionstamp);
        i = i + 1;
    }
    updates
}

} // verus!
