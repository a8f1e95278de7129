//! Properties that relate several operations of the library.
use vstd::prelude::*;
use crate::block::{BlockHeader, receipts_view};
use crate::ledger::main_name;
use crate::store::{flatten, flatten_upto, lookup, BranchView, EntryView, VersionedStore, VsVersion, VersionLogView};
use crate::rewind::{end_of_block, read_at_height};

verus! {

/// A header's hash depends only on its height, proposer, timestamp, Merkle
/// root, previous hash and receipts: two headers that agree on those hash alike.
pub proof fn header_hash_determinism(a: &BlockHeader, b: &BlockHeader)
    requires
        a.height == b.height,
        a.proposer@ == b.proposer@,
        a.timestamp == b.timestamp,
        a.tx_merkle.root_hash@ == b.tx_merkle.root_hash@,
        a.prev_hash@ == b.prev_hash@,
        receipts_view(a.receipts@) == receipts_view(b.receipts@),
    ensures
        a.spec_hash() == b.spec_hash(),
{
}

/// Whatever changes only branch `b` (as every write, version and fork
/// operation on DeliverTx or CheckTx does) leaves every read on Main as it was.
pub proof fn branch_isolation(before: VersionedStore, after: VersionedStore, b: Seq<u8>)
    requires
        after.same_except(&before, b),
        b != main_name(),
        before.has(main_name()),
    ensures
        after.has(main_name()),
        forall|k: Seq<u8>| #[trigger] after.read(main_name(), k) == before.read(main_name(), k),
{
}

/// Merging a child that was forked from its parent's current tip leaves the
/// parent reading exactly what the child read: the child's effects, and only
/// those, appear on the parent.
pub proof fn merge_shows_child(parent: BranchView, child: BranchView, k: Seq<u8>)
    requires
        child.base == parent.history(),
    ensures
        lookup((BranchView { versions: parent.versions + child.versions, ..parent }).history(), k)
            == child.read(k),
{
    crate::store::lemma_flatten_append(parent.versions, child.versions);
    assert((BranchView { versions: parent.versions + child.versions, ..parent }).history() =~= child.history());
}

/// A version created and then popped leaves the branch as it was, so every
/// read returns what it returned before.
pub proof fn create_then_pop(b: BranchView, v: VsVersion, k: Seq<u8>)
    ensures
        ({
            let created = BranchView { versions: b.versions.push(VersionLogView { id: v, writes: Seq::empty() }), ..b };
            let popped = BranchView { versions: created.versions.drop_last(), ..created };
            popped == b && popped.read(k) == b.read(k) && created.read(k) == b.read(k)
        }),
{
    let created = BranchView { versions: b.versions.push(VersionLogView { id: v, writes: Seq::empty() }), ..b };
    assert(created.versions.drop_last() =~= b.versions);
    crate::store::lemma_new_version_history(b, v);
}

/// After a write on a branch with a version, the key written reads the new
/// value and every other key reads as before.
pub proof fn read_after_put(b: BranchView, key: Seq<u8>, value: EntryView, k: Seq<u8>)
    requires
        b.versions.len() > 0,
    ensures
        b.put(key, value).read(k) == if k == key { Some(value) } else { b.read(k) },
{
    crate::store::lemma_put_history(b, key, value);
    crate::store::lemma_lookup_push(b.history(), (key, value), k);
}

proof fn lemma_upto_all(vs: Seq<VersionLogView>, at: VsVersion)
    requires
        forall|i: int| 0 <= i < vs.len() ==> (#[trigger] vs[i]).id.spec_le(at),
    ensures
        flatten_upto(vs, at) == flatten(vs),
    decreases vs.len(),
{
    if vs.len() > 0 {
        lemma_upto_all(vs.drop_last(), at);
    }
}

proof fn lemma_upto_none(vs: Seq<VersionLogView>, at: VsVersion)
    requires
        forall|i: int| 0 <= i < vs.len() ==> !(#[trigger] vs[i]).id.spec_le(at),
    ensures
        flatten_upto(vs, at).len() == 0,
    decreases vs.len(),
{
    if vs.len() > 0 {
        lemma_upto_none(vs.drop_last(), at);
    }
}

/// Rewinding to a height that no version of Main lies beyond reads what Main
/// reads at its tip.
pub proof fn rewind_to_tip(store: VersionedStore, h: u64, k: Seq<u8>)
    requires
        forall|i: int| 0 <= i < store.branch(crate::ledger::main_name()).versions.len()
            ==> (#[trigger] store.branch(crate::ledger::main_name()).versions[i]).id.spec_le(end_of_block(h)),
    ensures
        read_at_height(store, h, k) == store.read(crate::ledger::main_name(), k),
{
    lemma_upto_all(store.branch(crate::ledger::main_name()).versions, end_of_block(h));
}

/// The versions of Main written after block `h` (later heights, appended
/// after those of `h`) do not change what a rewind to `h` reads: the view at
/// the end of `h` is that of the versions up to it.
pub proof fn rewind_ignores_later_blocks(m: BranchView, later: Seq<VersionLogView>, h: u64, k: Seq<u8>)
    requires
        forall|i: int| 0 <= i < later.len() ==> (#[trigger] later[i]).id.block_height > h,
    ensures
        lookup(m.base + flatten_upto(m.versions + later, end_of_block(h)), k)
            == lookup(m.base + flatten_upto(m.versions, end_of_block(h)), k),
{
    lemma_upto_append(m.versions, later, end_of_block(h));
    lemma_upto_none(later, end_of_block(h));
    assert(flatten_upto(m.versions, end_of_block(h)) + flatten_upto(later, end_of_block(h))
        =~= flatten_upto(m.versions, end_of_block(h)));
}

proof fn lemma_upto_append(a: Seq<VersionLogView>, b: Seq<VersionLogView>, at: VsVersion)
    ensures
        flatten_upto(a + b, at) == flatten_upto(a, at) + flatten_upto(b, at),
    decreases b.len(),
{
    if b.len() == 0 {
        assert(a + b =~= a);
        assert(flatten_upto(a, at) + flatten_upto(b, at) =~= flatten_upto(a, at));
    } else {
        lemma_upto_append(a, b.drop_last(), at);
        assert((a + b).drop_last() =~= a + b.drop_last());
        assert((a + b).last() == b.last());
        assert(flatten_upto(a + b, at) =~= flatten_upto(a, at) + flatten_upto(b, at));
    }
}

} // verus!
