//! A versioned, branchable key-value store.
//!
//! Each branch holds the history it inherited when it was forked (its base) and
//! an ordered stack of its own versions, each a log of writes. Reads walk the
//! whole history and return the latest write of a key.
use vstd::prelude::*;
use crate::bytes::{bytes_eq, copy_bytes};
use crate::u256::U256;

verus! {

/// A version marker: a block height, then the position of a transaction in
/// that block (0 for block-level effects).
#[derive(Clone, Copy, Debug, PartialEq, Eq, Structural)]
pub struct VsVersion {
    pub block_height: u64,
    pub tx_position: u64,
}

impl VsVersion {
    /// The order of versions: by height, then by position.
    pub open spec fn spec_le(self, o: VsVersion) -> bool {
        self.block_height < o.block_height || (self.block_height == o.block_height && self.tx_position <= o.tx_position)
    }

    pub fn new(block_height: u64, tx_position: u64) -> (r: VsVersion)
        ensures
            r == (VsVersion { block_height, tx_position }),
    {
        VsVersion { block_height, tx_position }
    }

    /// The version `(0, 0)`.
    pub fn default() -> (r: VsVersion)
        ensures
            r == (VsVersion { block_height: 0, tx_position: 0 }),
    {
        VsVersion { block_height: 0, tx_position: 0 }
    }

    pub fn le(&self, o: &VsVersion) -> (r: bool)
        ensures
            r == self.spec_le(*o),
    {
        self.block_height < o.block_height || (self.block_height == o.block_height && self.tx_position <= o.tx_position)
    }
}

/// An account: absent accounts read as zero nonce, zero balance, no code.
pub struct OvrAccount {
    pub nonce: U256,
    pub balance: U256,
    pub code: Vec<u8>,
}

pub struct OvrAccountView {
    pub nonce: U256,
    pub balance: U256,
    pub code: Seq<u8>,
}

impl View for OvrAccount {
    type V = OvrAccountView;

    open spec fn view(&self) -> OvrAccountView {
        OvrAccountView { nonce: self.nonce, balance: self.balance, code: self.code@ }
    }
}

impl OvrAccount {
    /// An account holding only a balance.
    pub fn from_balance(balance: U256) -> (r: OvrAccount)
        ensures
            r.nonce.value() == 0,
            r.balance == balance,
            r.code@.len() == 0,
    {
        OvrAccount { nonce: U256::zero(), balance, code: Vec::new() }
    }

    pub fn copy(&self) -> (r: OvrAccount)
        ensures
            r@ == self@,
    {
        OvrAccount { nonce: self.nonce, balance: self.balance, code: copy_bytes(&self.code) }
    }
}

/// A stored value: an account, or one 32-byte word of contract storage.
pub enum Entry {
    Account(OvrAccount),
    Word(Vec<u8>),
}

pub enum EntryView {
    Account(OvrAccountView),
    Word(Seq<u8>),
}

impl View for Entry {
    type V = EntryView;

    open spec fn view(&self) -> EntryView {
        match self {
            Entry::Account(a) => EntryView::Account(a@),
            Entry::Word(w) => EntryView::Word(w@),
        }
    }
}

impl Entry {
    pub fn copy(&self) -> (r: Entry)
        ensures
            r@ == self@,
    {
        match self {
            Entry::Account(a) => Entry::Account(a.copy()),
            Entry::Word(w) => Entry::Word(copy_bytes(w)),
        }
    }
}

/// One write: a key and the value stored under it.
pub struct Write {
    pub key: Vec<u8>,
    pub value: Entry,
}

impl View for Write {
    type V = (Seq<u8>, EntryView);

    open spec fn view(&self) -> (Seq<u8>, EntryView) {
        (self.key@, self.value@)
    }
}

impl Write {
    pub fn copy(&self) -> (r: Write)
        ensures
            r@ == self@,
    {
        Write { key: copy_bytes(&self.key), value: self.value.copy() }
    }
}

/// The writes of one version.
pub struct VersionLog {
    pub id: VsVersion,
    pub writes: Vec<Write>,
}

pub struct VersionLogView {
    pub id: VsVersion,
    pub writes: Seq<(Seq<u8>, EntryView)>,
}

impl View for VersionLog {
    type V = VersionLogView;

    open spec fn view(&self) -> VersionLogView {
        VersionLogView { id: self.id, writes: self.writes@.map_values(|w: Write| w@) }
    }
}

/// A named branch.
pub struct Branch {
    pub name: Vec<u8>,
    pub parent: Option<Vec<u8>>,
    pub fork_len: usize,
    pub base: Vec<Write>,
    pub versions: Vec<VersionLog>,
}

pub struct BranchView {
    pub name: Seq<u8>,
    /// The branch it was forked from, if any.
    pub parent: Option<Seq<u8>>,
    /// How many versions of its own the parent had when this branch was forked.
    pub fork_len: nat,
    /// The history inherited at the fork.
    pub base: Seq<(Seq<u8>, EntryView)>,
    /// The versions of this branch, oldest first.
    pub versions: Seq<VersionLogView>,
}

impl View for Branch {
    type V = BranchView;

    open spec fn view(&self) -> BranchView {
        BranchView {
            name: self.name@,
            parent: match self.parent {
                Some(p) => Some(p@),
                None => None,
            },
            fork_len: self.fork_len as nat,
            base: self.base@.map_values(|w: Write| w@),
            versions: self.versions@.map_values(|v: VersionLog| v@),
        }
    }
}

/// The views of a sequence of writes.
pub open spec fn writes_view(ws: Seq<Write>) -> Seq<(Seq<u8>, EntryView)> {
    ws.map_values(|w: Write| w@)
}

/// The view of an optional value.
pub open spec fn opt_view(o: Option<Entry>) -> Option<EntryView> {
    match o {
        Some(e) => Some(e@),
        None => None,
    }
}

/// The latest write of `key` in `log`.
pub open spec fn lookup(log: Seq<(Seq<u8>, EntryView)>, key: Seq<u8>) -> Option<EntryView>
    decreases log.len(),
{
    if log.len() == 0 {
        None
    } else if log.last().0 == key {
        Some(log.last().1)
    } else {
        lookup(log.drop_last(), key)
    }
}

/// The writes of all versions, in order.
pub open spec fn flatten(vs: Seq<VersionLogView>) -> Seq<(Seq<u8>, EntryView)>
    decreases vs.len(),
{
    if vs.len() == 0 {
        Seq::empty()
    } else {
        flatten(vs.drop_last()) + vs.last().writes
    }
}

/// The writes of the versions at or before `at`, in order.
pub open spec fn flatten_upto(vs: Seq<VersionLogView>, at: VsVersion) -> Seq<(Seq<u8>, EntryView)>
    decreases vs.len(),
{
    if vs.len() == 0 {
        Seq::empty()
    } else if vs.last().id.spec_le(at) {
        flatten_upto(vs.drop_last(), at) + vs.last().writes
    } else {
        flatten_upto(vs.drop_last(), at)
    }
}

impl BranchView {
    /// Everything written on this branch, inherited history first.
    pub open spec fn history(self) -> Seq<(Seq<u8>, EntryView)> {
        self.base + flatten(self.versions)
    }

    /// The value a read of `key` returns at the tip of this branch.
    pub open spec fn read(self, key: Seq<u8>) -> Option<EntryView> {
        lookup(self.history(), key)
    }

    /// The history that a child forked at `at` inherits (`None`: the tip).
    pub open spec fn visible(self, at: Option<VsVersion>) -> Seq<(Seq<u8>, EntryView)> {
        match at {
            Some(v) => self.base + flatten_upto(self.versions, v),
            None => self.history(),
        }
    }

    /// This branch after writing `value` under `key` in its latest version.
    pub open spec fn put(self, key: Seq<u8>, value: EntryView) -> BranchView {
        let last = self.versions.last();
        BranchView {
            versions: self.versions.update(
                self.versions.len() - 1,
                VersionLogView { id: last.id, writes: last.writes.push((key, value)) },
            ),
            ..self
        }
    }

    pub open spec fn has_version(self, v: VsVersion) -> bool {
        exists|i: int| 0 <= i < self.versions.len() && self.versions[i].id == v
    }

    /// Whether a version of `child` has an id that one of this branch's
    /// versions after index `from` has.
    pub open spec fn collides(self, child: BranchView, from: nat) -> bool {
        exists|i: int, j: int|
            from <= i < self.versions.len() && 0 <= j < child.versions.len()
                && self.versions[i].id == child.versions[j].id
    }
}

/// Why a store operation was refused; a refused operation changes nothing.
#[derive(Clone, Copy, Debug, PartialEq, Eq, Structural)]
pub enum StoreError {
    NoSuchBranch,
    BranchExists,
    VersionExists,
    NoVersion,
    NoParent,
    VersionCollision,
}

pub struct VersionedStore {
    branches: Vec<Branch>,
    default: Vec<u8>,
}

impl VersionedStore {
    /// The branch that operations without an explicit one use.
    pub closed spec fn default_name(&self) -> Seq<u8> {
        self.default@
    }

    pub closed spec fn branches(&self) -> Seq<BranchView> {
        self.branches@.map_values(|b: Branch| b@)
    }

    /// Branch names are unique.
    pub closed spec fn wf(&self) -> bool {
        forall|i: int, j: int|
            0 <= i < j < self.branches@.len() ==> self.branches@[i].name@ != self.branches@[j].name@
    }

    pub open spec fn has(&self, name: Seq<u8>) -> bool {
        exists|i: int| 0 <= i < self.branches().len() && (#[trigger] self.branches()[i]).name == name
    }

    /// The branch named `name` (meaningful where `has(name)`).
    pub open spec fn branch(&self, name: Seq<u8>) -> BranchView {
        self.branches()[choose|i: int|
            0 <= i < self.branches().len() && (#[trigger] self.branches()[i]).name == name]
    }

    /// Reading `key` at the tip of branch `name`.
    pub open spec fn read(&self, name: Seq<u8>, key: Seq<u8>) -> Option<EntryView> {
        self.branch(name).read(key)
    }

    /// Every branch but `name` is as in `o`.
    pub open spec fn same_except(&self, o: &VersionedStore, name: Seq<u8>) -> bool {
        forall|n: Seq<u8>|
            n != name ==> (self.has(n) == o.has(n) && (o.has(n) ==> self.branch(n) == o.branch(n)))
    }

    /// Every branch is as in `o`.
    pub open spec fn same(&self, o: &VersionedStore) -> bool {
        forall|n: Seq<u8>|
            (self.has(n) == o.has(n) && (o.has(n) ==> self.branch(n) == o.branch(n)))
    }

    pub fn new() -> (r: VersionedStore)
        ensures
            r.wf(),
            forall|n: Seq<u8>| !r.has(n),
    {
        VersionedStore { branches: Vec::new(), default: Vec::new() }
    }

    proof fn lemma_index(&self, i: int)
        requires
            self.wf(),
            0 <= i < self.branches@.len(),
        ensures
            self.has(self.branches@[i].name@),
            self.branch(self.branches@[i].name@) == self.branches@[i]@,
    {
        let name = self.branches@[i].name@;
        assert(self.branches()[i].name == name);
        let k = choose|k: int| 0 <= k < self.branches().len() && (#[trigger] self.branches()[k]).name == name;
        assert(self.branches()[k].name == self.branches@[k].name@);
        assert(k == i);
    }

    fn find(&self, name: &Vec<u8>) -> (r: Option<usize>)
        requires
            self.wf(),
        ensures
            r is None <==> !self.has(name@),
            r matches Some(i) ==> i < self.branches@.len() && self.branches@[i as int].name@ == name@
                && self.branch(name@) == self.branches@[i as int]@,
    {
        let mut i: usize = 0;
        while i < self.branches.len()
            invariant
                self.wf(),
                i <= self.branches@.len(),
                forall|j: int| 0 <= j < i ==> self.branches@[j].name@ != name@,
            decreases self.branches.len() - i,
        {
            if bytes_eq(&self.branches[i].name, name) {
                proof {
                    self.lemma_index(i as int);
                }
                return Some(i);
            }
            i += 1;
        }
        assert forall|j: int| 0 <= j < self.branches().len() implies
            (#[trigger] self.branches()[j]).name != name@ by {
            assert(self.branches()[j].name == self.branches@[j].name@);
        }
        None
    }

    /// The branches and the default branch's name, as a snapshot saves them.
    pub fn parts(&self) -> (r: (&Vec<Branch>, &Vec<u8>))
        ensures
            r.0@.map_values(|b: Branch| b@) == self.branches(),
            r.1@ == self.default_name(),
    {
        (&self.branches, &self.default)
    }

    /// A store rebuilt from saved parts; `None` where two branches share a name.
    pub fn from_parts(branches: Vec<Branch>, default: Vec<u8>) -> (r: Option<VersionedStore>)
        ensures
            r is None <==> exists|i: int, j: int| 0 <= i < j < branches@.len() && branches@[i].name@ == branches@[j].name@,
            r matches Some(s) ==> s.wf() && s.branches() == branches@.map_values(|b: Branch| b@)
                && s.default_name() == default@,
    {
        let s = VersionedStore { branches, default };
        if s.check_wf() {
            Some(s)
        } else {
            None
        }
    }

    /// Whether the branch names are unique.
    pub fn check_wf(&self) -> (r: bool)
        ensures
            r == self.wf(),
    {
        let n = self.branches.len();
        let mut i: usize = 0;
        while i < n
            invariant
                n == self.branches@.len(),
                i <= n,
                forall|a: int, b: int| 0 <= a < b < n && a < i ==> self.branches@[a].name@ != self.branches@[b].name@,
            decreases n - i,
        {
            let mut j: usize = i + 1;
            while j < n
                invariant
                    n == self.branches@.len(),
                    i < n,
                    i + 1 <= j <= n,
                    forall|a: int, b: int| 0 <= a < b < n && a < i ==> self.branches@[a].name@ != self.branches@[b].name@,
                    forall|b: int| i < b < j ==> self.branches@[i as int].name@ != self.branches@[b].name@,
                decreases n - j,
            {
                if bytes_eq(&self.branches[i].name, &self.branches[j].name) {
                    return false;
                }
                j += 1;
            }
            i += 1;
        }
        true
    }

    pub fn has_branch(&self, name: &Vec<u8>) -> (r: bool)
        requires
            self.wf(),
        ensures
            r == self.has(name@),
    {
        self.find(name).is_some()
    }

    /// Makes `name` the default branch.
    pub fn branch_set_default(&mut self, name: &Vec<u8>) -> (r: Result<(), StoreError>)
        requires
            old(self).wf(),
        ensures
            final(self).wf(),
            r is Ok <==> old(self).has(name@),
            r is Err ==> *final(self) == *old(self),
            r is Ok ==> final(self).default_name() == name@ && final(self).same(old(self)),
    {
        if self.find(name).is_none() {
            return Err(StoreError::NoSuchBranch);
        }
        let ghost before = *self;
        self.default = copy_bytes(name);
        proof {
            assert(self.branches() == before.branches());
        }
        Ok(())
    }

    /// Reads `key` at the tip of the default branch.
    pub fn get(&self, key: &Vec<u8>) -> (r: Result<Option<Entry>, StoreError>)
        requires
            self.wf(),
        ensures
            !self.has(self.default_name()) <==> r is Err,
            r matches Ok(o) ==> opt_view(o) == self.read(self.default_name(), key@),
    {
        self.get_on(&self.default, key)
    }

    /// Writes `value` under `key` in the latest version of the default branch.
    pub fn put(&mut self, key: &Vec<u8>, value: Entry) -> (r: Result<(), StoreError>)
        requires
            old(self).wf(),
        ensures
            final(self).wf(),
            final(self).default_name() == old(self).default_name(),
            r is Ok <==> old(self).has(old(self).default_name())
                && old(self).branch(old(self).default_name()).versions.len() > 0,
            r is Err ==> *final(self) == *old(self),
            r is Ok ==> final(self).same_except(old(self), old(self).default_name())
                && final(self).branch(old(self).default_name())
                    == old(self).branch(old(self).default_name()).put(key@, value@),
    {
        let name = copy_bytes(&self.default);
        self.put_on(&name, key, value)
    }

    proof fn lemma_update(old: &VersionedStore, new: &VersionedStore, i: int)
        requires
            old.wf(),
            0 <= i < old.branches@.len(),
            new.branches@.len() == old.branches@.len(),
            forall|j: int| 0 <= j < old.branches@.len() && j != i ==> new.branches@[j] == old.branches@[j],
            new.branches@[i].name@ == old.branches@[i].name@,
        ensures
            new.wf(),
            new.same_except(old, old.branches@[i].name@),
            new.has(old.branches@[i].name@),
            new.branch(old.branches@[i].name@) == new.branches@[i]@,
    {
        let name = old.branches@[i].name@;
        assert forall|a: int, b: int| 0 <= a < b < new.branches@.len() implies
            new.branches@[a].name@ != new.branches@[b].name@ by {
            assert(old.branches@[a].name@ != old.branches@[b].name@);
        }
        new.lemma_index(i);
        assert forall|n: Seq<u8>| n != name implies
            (new.has(n) == old.has(n) && (old.has(n) ==> new.branch(n) == old.branch(n))) by {
            if old.has(n) {
                let j = choose|j: int| 0 <= j < old.branches().len() && (#[trigger] old.branches()[j]).name == n;
                assert(old.branches()[j].name == old.branches@[j].name@);
                old.lemma_index(j);
                new.lemma_index(j);
            }
            if new.has(n) {
                let j = choose|j: int| 0 <= j < new.branches().len() && (#[trigger] new.branches()[j]).name == n;
                assert(new.branches()[j].name == new.branches@[j].name@);
                new.lemma_index(j);
                old.lemma_index(j);
            }
        }
    }

    proof fn lemma_push(old: &VersionedStore, new: &VersionedStore)
        requires
            old.wf(),
            new.branches@.len() == old.branches@.len() + 1,
            forall|j: int| 0 <= j < old.branches@.len() ==> new.branches@[j] == old.branches@[j],
            !old.has(new.branches@.last().name@),
        ensures
            new.wf(),
            new.same_except(old, new.branches@.last().name@),
            new.has(new.branches@.last().name@),
            new.branch(new.branches@.last().name@) == new.branches@.last()@,
    {
        let i = old.branches@.len() as int;
        let name = new.branches@[i].name@;
        assert forall|a: int, b: int| 0 <= a < b < new.branches@.len() implies
            new.branches@[a].name@ != new.branches@[b].name@ by {
            if b == i {
                assert(old.branches()[a].name == old.branches@[a].name@);
            } else {
                assert(old.branches@[a].name@ != old.branches@[b].name@);
            }
        }
        new.lemma_index(i);
        assert forall|n: Seq<u8>| n != name implies
            (new.has(n) == old.has(n) && (old.has(n) ==> new.branch(n) == old.branch(n))) by {
            if old.has(n) {
                let j = choose|j: int| 0 <= j < old.branches().len() && (#[trigger] old.branches()[j]).name == n;
                assert(old.branches()[j].name == old.branches@[j].name@);
                old.lemma_index(j);
                new.lemma_index(j);
            }
            if new.has(n) {
                let j = choose|j: int| 0 <= j < new.branches().len() && (#[trigger] new.branches()[j]).name == n;
                assert(new.branches()[j].name == new.branches@[j].name@);
                new.lemma_index(j);
                if j < i {
                    old.lemma_index(j);
                }
            }
        }
    }

    proof fn lemma_remove(old: &VersionedStore, new: &VersionedStore, i: int)
        requires
            old.wf(),
            0 <= i < old.branches@.len(),
            new.branches@ == old.branches@.remove(i),
        ensures
            new.wf(),
            new.same_except(old, old.branches@[i].name@),
            !new.has(old.branches@[i].name@),
    {
        let name = old.branches@[i].name@;
        assert forall|a: int, b: int| 0 <= a < b < new.branches@.len() implies
            new.branches@[a].name@ != new.branches@[b].name@ by {
            if a < i {
                if b < i {
                    assert(old.branches@[a].name@ != old.branches@[b].name@);
                } else {
                    assert(old.branches@[a].name@ != old.branches@[b + 1].name@);
                }
            } else {
                assert(old.branches@[a + 1].name@ != old.branches@[b + 1].name@);
            }
        }
        assert forall|n: Seq<u8>| n != name implies
            (new.has(n) == old.has(n) && (old.has(n) ==> new.branch(n) == old.branch(n))) by {
            if old.has(n) {
                let j = choose|j: int| 0 <= j < old.branches().len() && (#[trigger] old.branches()[j]).name == n;
                assert(old.branches()[j].name == old.branches@[j].name@);
                old.lemma_index(j);
                assert(j != i);
                if j < i {
                    new.lemma_index(j);
                } else {
                    new.lemma_index(j - 1);
                }
            }
            if new.has(n) {
                let j = choose|j: int| 0 <= j < new.branches().len() && (#[trigger] new.branches()[j]).name == n;
                assert(new.branches()[j].name == new.branches@[j].name@);
                new.lemma_index(j);
                if j < i {
                    old.lemma_index(j);
                } else {
                    old.lemma_index(j + 1);
                }
            }
        }
        if new.has(name) {
            let j = choose|j: int| 0 <= j < new.branches().len() && (#[trigger] new.branches()[j]).name == name;
            assert(new.branches()[j].name == new.branches@[j].name@);
            if j < i {
                assert(old.branches@[j].name@ != old.branches@[i].name@);
            } else {
                assert(old.branches@[i].name@ != old.branches@[j + 1].name@);
            }
        }
    }

    /// Creates an empty branch with no parent.
    pub fn branch_create(&mut self, name: &Vec<u8>) -> (r: Result<(), StoreError>)
        requires
            old(self).wf(),
        ensures
            final(self).wf(),
            final(self).default_name() == old(self).default_name(),
            old(self).has(name@) <==> r is Err,
            r is Err ==> r == Err::<(), StoreError>(StoreError::BranchExists) && *final(self) == *old(self),
            r is Ok ==> final(self).same_except(old(self), name@) && final(self).has(name@)
                && final(self).branch(name@) == (BranchView {
                    name: name@,
                    parent: None,
                    fork_len: 0,
                    base: Seq::empty(),
                    versions: Seq::empty(),
                }),
    {
        if self.find(name).is_some() {
            return Err(StoreError::BranchExists);
        }
        let ghost before = *self;
        let b = Branch {
            name: copy_bytes(name),
            parent: None,
            fork_len: 0,
            base: Vec::new(),
            versions: Vec::new(),
        };
        self.branches.push(b);
        proof {
            VersionedStore::lemma_push(&before, self);
            assert(self.branches@.last()@.base =~= Seq::empty());
            assert(self.branches@.last()@.versions =~= Seq::empty());
        }
        Ok(())
    }

    /// Removes a branch.
    pub fn branch_remove(&mut self, name: &Vec<u8>) -> (r: Result<(), StoreError>)
        requires
            old(self).wf(),
        ensures
            final(self).wf(),
            final(self).default_name() == old(self).default_name(),
            !old(self).has(name@) <==> r is Err,
            r is Err ==> r == Err::<(), StoreError>(StoreError::NoSuchBranch) && *final(self) == *old(self),
            r is Ok ==> final(self).same_except(old(self), name@) && !final(self).has(name@),
    {
        match self.find(name) {
            None => Err(StoreError::NoSuchBranch),
            Some(i) => {
                let ghost before = *self;
                self.branches.remove(i);
                proof {
                    VersionedStore::lemma_remove(&before, self, i as int);
                }
                Ok(())
            }
        }
    }

    fn find_version(vs: &Vec<VersionLog>, v: VsVersion) -> (r: bool)
        ensures
            r == (exists|i: int| 0 <= i < vs@.len() && vs@[i].id == v),
    {
        let mut i: usize = 0;
        while i < vs.len()
            invariant
                i <= vs@.len(),
                forall|j: int| 0 <= j < i ==> vs@[j].id != v,
            decreases vs.len() - i,
        {
            if vs[i].id == v {
                return true;
            }
            i += 1;
        }
        false
    }

    /// Whether branch `name` has version `v`.
    pub fn version_exists_on(&self, name: &Vec<u8>, v: VsVersion) -> (r: bool)
        requires
            self.wf(),
        ensures
            r == (self.has(name@) && self.branch(name@).has_version(v)),
    {
        match self.find(name) {
            None => false,
            Some(i) => {
                let r = VersionedStore::find_version(&self.branches[i].versions, v);
                proof {
                    let vs = self.branches@[i as int].versions@;
                    if r {
                        let j = choose|j: int| 0 <= j < vs.len() && vs[j].id == v;
                        assert(self.branch(name@).versions[j].id == v);
                    }
                    if self.branch(name@).has_version(v) {
                        let j = choose|j: int| 0 <= j < self.branch(name@).versions.len()
                            && self.branch(name@).versions[j].id == v;
                        assert(vs[j].id == v);
                    }
                }
                r
            }
        }
    }

    /// Whether branch `name` has a version of its own.
    pub fn branch_has_versions(&self, name: &Vec<u8>) -> (r: bool)
        requires
            self.wf(),
        ensures
            r == (self.has(name@) && self.branch(name@).versions.len() > 0),
    {
        match self.find(name) {
            None => false,
            Some(i) => self.branches[i].versions.len() > 0,
        }
    }

    /// Pushes a new, empty version `v` on branch `name`.
    pub fn version_create_on(&mut self, name: &Vec<u8>, v: VsVersion) -> (r: Result<(), StoreError>)
        requires
            old(self).wf(),
        ensures
            final(self).wf(),
            final(self).default_name() == old(self).default_name(),
            r is Ok <==> old(self).has(name@) && !old(self).branch(name@).has_version(v),
            !old(self).has(name@) <==> r == Err::<(), StoreError>(StoreError::NoSuchBranch),
            old(self).has(name@) && old(self).branch(name@).has_version(v)
                <==> r == Err::<(), StoreError>(StoreError::VersionExists),
            r is Err ==> *final(self) == *old(self),
            r is Ok ==> final(self).same_except(old(self), name@) && final(self).has(name@)
                && final(self).branch(name@) == (BranchView {
                    versions: old(self).branch(name@).versions.push(
                        VersionLogView { id: v, writes: Seq::empty() },
                    ),
                    ..old(self).branch(name@)
                }),
    {
        match self.find(name) {
            None => Err(StoreError::NoSuchBranch),
            Some(i) => {
                if self.version_exists_on(name, v) {
                    return Err(StoreError::VersionExists);
                }
                let ghost before = *self;
                let log = VersionLog { id: v, writes: Vec::new() };
                self.branches[i].versions.push(log);
                proof {
                    VersionedStore::lemma_update(&before, self, i as int);
                    let nv = self.branches@[i as int].versions@;
                    assert(nv.last()@.writes =~= Seq::<(Seq<u8>, EntryView)>::empty());
                    assert(self.branches@[i as int]@.versions =~= before.branches@[i as int]@.versions.push(
                        VersionLogView { id: v, writes: Seq::empty() },
                    ));
                }
                Ok(())
            }
        }
    }

    /// Discards the latest version of branch `name` and its writes.
    pub fn version_pop_on(&mut self, name: &Vec<u8>) -> (r: Result<(), StoreError>)
        requires
            old(self).wf(),
        ensures
            final(self).wf(),
            final(self).default_name() == old(self).default_name(),
            r is Ok <==> old(self).has(name@) && old(self).branch(name@).versions.len() > 0,
            !old(self).has(name@) <==> r == Err::<(), StoreError>(StoreError::NoSuchBranch),
            old(self).has(name@) && old(self).branch(name@).versions.len() == 0
                <==> r == Err::<(), StoreError>(StoreError::NoVersion),
            r is Err ==> *final(self) == *old(self),
            r is Ok ==> final(self).same_except(old(self), name@) && final(self).has(name@)
                && final(self).branch(name@) == (BranchView {
                    versions: old(self).branch(name@).versions.drop_last(),
                    ..old(self).branch(name@)
                }),
    {
        match self.find(name) {
            None => Err(StoreError::NoSuchBranch),
            Some(i) => {
                if self.branches[i].versions.len() == 0 {
                    return Err(StoreError::NoVersion);
                }
                let ghost before = *self;
                let _ = self.branches[i].versions.pop();
                proof {
                    VersionedStore::lemma_update(&before, self, i as int);
                    assert(self.branches@[i as int]@.versions =~= before.branches@[i as int]@.versions.drop_last());
                }
                Ok(())
            }
        }
    }

    /// Writes `value` under `key` in the latest version of branch `name`.
    pub fn put_on(&mut self, name: &Vec<u8>, key: &Vec<u8>, value: Entry) -> (r: Result<(), StoreError>)
        requires
            old(self).wf(),
        ensures
            final(self).wf(),
            final(self).default_name() == old(self).default_name(),
            r is Ok <==> old(self).has(name@) && old(self).branch(name@).versions.len() > 0,
            !old(self).has(name@) <==> r == Err::<(), StoreError>(StoreError::NoSuchBranch),
            old(self).has(name@) && old(self).branch(name@).versions.len() == 0
                <==> r == Err::<(), StoreError>(StoreError::NoVersion),
            r is Err ==> *final(self) == *old(self),
            r is Ok ==> final(self).same_except(old(self), name@) && final(self).has(name@)
                && final(self).branch(name@) == old(self).branch(name@).put(key@, value@),
    {
        match self.find(name) {
            None => Err(StoreError::NoSuchBranch),
            Some(i) => {
                let n = self.branches[i].versions.len();
                if n == 0 {
                    return Err(StoreError::NoVersion);
                }
                let ghost before = *self;
                let w = Write { key: copy_bytes(key), value };
                self.branches[i].versions[n - 1].writes.push(w);
                proof {
                    VersionedStore::lemma_update(&before, self, i as int);
                    let ob = before.branches@[i as int]@;
                    let ov = before.branches@[i as int].versions@;
                    let nv = self.branches@[i as int].versions@;
                    assert(nv[n - 1]@.writes =~= ov[n - 1]@.writes.push(w@));
                    assert(self.branches@[i as int]@.versions =~= ob.put(key@, value@).versions);
                }
                Ok(())
            }
        }
    }

    /// Looks `key` up over `ws`, on top of `acc`, the result over `prefix`.
    fn scan(ws: &Vec<Write>, key: &Vec<u8>, acc: Option<Entry>, Ghost(prefix): Ghost<Seq<(Seq<u8>, EntryView)>>) -> (r: Option<Entry>)
        requires
            opt_view(acc) == lookup(prefix, key@),
        ensures
            opt_view(r) == lookup(prefix + writes_view(ws@), key@),
    {
        let mut acc = acc;
        let mut i: usize = 0;
        while i < ws.len()
            invariant
                i <= ws@.len(),
                opt_view(acc) == lookup(prefix + writes_view(ws@).take(i as int), key@),
            decreases ws.len() - i,
        {
            let ghost upto_i = prefix + writes_view(ws@).take(i as int);
            let ghost upto_next = prefix + writes_view(ws@).take(i + 1);
            assert(upto_next.drop_last() =~= upto_i);
            assert(upto_next.last() == ws@[i as int]@);
            if bytes_eq(&ws[i].key, key) {
                acc = Some(ws[i].value.copy());
            }
            i += 1;
        }
        assert(writes_view(ws@).take(ws@.len() as int) =~= writes_view(ws@));
        acc
    }

    /// Reads `key` at the tip of branch `name`.
    pub fn get_on(&self, name: &Vec<u8>, key: &Vec<u8>) -> (r: Result<Option<Entry>, StoreError>)
        requires
            self.wf(),
        ensures
            !self.has(name@) <==> r is Err,
            r is Err ==> r == Err::<Option<Entry>, StoreError>(StoreError::NoSuchBranch),
            r matches Ok(o) ==> opt_view(o) == self.read(name@, key@),
    {
        match self.find(name) {
            None => Err(StoreError::NoSuchBranch),
            Some(i) => {
                let b = &self.branches[i];
                let ghost bv = b@;
                assert(Seq::<(Seq<u8>, EntryView)>::empty() + bv.base =~= bv.base);
                let mut acc = VersionedStore::scan(&b.base, key, None, Ghost(Seq::empty()));
                let mut k: usize = 0;
                while k < b.versions.len()
                    invariant
                        bv == b@,
                        k <= b.versions@.len(),
                        opt_view(acc) == lookup(bv.base + flatten(bv.versions.take(k as int)), key@),
                    decreases b.versions.len() - k,
                {
                    let ghost f0 = flatten(bv.versions.take(k as int));
                    assert(bv.versions.take(k + 1).drop_last() =~= bv.versions.take(k as int));
                    assert(flatten(bv.versions.take(k + 1)) == f0 + bv.versions[k as int].writes);
                    assert(bv.base + f0 + bv.versions[k as int].writes =~= bv.base + flatten(bv.versions.take(k + 1)));
                    acc = VersionedStore::scan(&b.versions[k].writes, key, acc, Ghost(bv.base + f0));
                    k += 1;
                }
                assert(bv.versions.take(bv.versions.len() as int) =~= bv.versions);
                Ok(acc)
            }
        }
    }

    /// Appends copies of `ws` to `out`.
    fn append_writes(ws: &Vec<Write>, out: &mut Vec<Write>)
        ensures
            writes_view(final(out)@) == writes_view(old(out)@) + writes_view(ws@),
    {
        let ghost start = writes_view(out@);
        let mut i: usize = 0;
        while i < ws.len()
            invariant
                i <= ws@.len(),
                writes_view(out@) == start + writes_view(ws@).take(i as int),
            decreases ws.len() - i,
        {
            let w = ws[i].copy();
            let ghost prev = out@;
            out.push(w);
            assert(writes_view(out@) =~= writes_view(prev).push(ws@[i as int]@));
            i += 1;
            assert(writes_view(out@) =~= start + writes_view(ws@).take(i as int));
        }
        assert(writes_view(ws@).take(ws@.len() as int) =~= writes_view(ws@));
    }

    /// The history of branch `b` up to `at` (`None`: all of it), as fresh writes.
    fn visible_writes(b: &Branch, at: Option<VsVersion>) -> (r: Vec<Write>)
        ensures
            writes_view(r@) == b@.visible(at),
    {
        let mut out: Vec<Write> = Vec::new();
        VersionedStore::append_writes(&b.base, &mut out);
        assert(writes_view(out@) =~= b@.base);
        let ghost vs = b@.versions;
        let mut k: usize = 0;
        while k < b.versions.len()
            invariant
                vs == b@.versions,
                k <= b.versions@.len(),
                writes_view(out@) == b@.base + match at {
                    Some(v) => flatten_upto(vs.take(k as int), v),
                    None => flatten(vs.take(k as int)),
                },
            decreases b.versions.len() - k,
        {
            assert(vs.take(k + 1).drop_last() =~= vs.take(k as int));
            assert(vs.take(k + 1).last() == b.versions@[k as int]@);
            let take = match at {
                Some(v) => b.versions[k].id.le(&v),
                None => true,
            };
            if take {
                VersionedStore::append_writes(&b.versions[k].writes, &mut out);
            }
            k += 1;
            assert(writes_view(out@) =~= b@.base + match at {
                Some(v) => flatten_upto(vs.take(k as int), v),
                None => flatten(vs.take(k as int)),
            });
        }
        assert(vs.take(vs.len() as int) =~= vs);
        out
    }

    /// Creates branch `name` as a child of `parent` that sees the parent's
    /// history up to version `at` (`None`: its tip), and nothing written later.
    pub fn branch_create_from(&mut self, name: &Vec<u8>, parent: &Vec<u8>, at: Option<VsVersion>) -> (r: Result<(), StoreError>)
        requires
            old(self).wf(),
        ensures
            final(self).wf(),
            final(self).default_name() == old(self).default_name(),
            r is Ok <==> old(self).has(parent@) && !old(self).has(name@),
            !old(self).has(parent@) <==> r == Err::<(), StoreError>(StoreError::NoSuchBranch),
            old(self).has(parent@) && old(self).has(name@)
                <==> r == Err::<(), StoreError>(StoreError::BranchExists),
            r is Err ==> *final(self) == *old(self),
            r is Ok ==> final(self).same_except(old(self), name@) && final(self).has(name@)
                && final(self).branch(name@) == (BranchView {
                    name: name@,
                    parent: Some(parent@),
                    fork_len: old(self).branch(parent@).versions.len(),
                    base: old(self).branch(parent@).visible(at),
                    versions: Seq::empty(),
                }),
    {
        let pi = match self.find(parent) {
            None => {
                return Err(StoreError::NoSuchBranch);
            },
            Some(pi) => pi,
        };
        if self.find(name).is_some() {
            return Err(StoreError::BranchExists);
        }
        let base = VersionedStore::visible_writes(&self.branches[pi], at);
        let ghost before = *self;
        let b = Branch {
            name: copy_bytes(name),
            parent: Some(copy_bytes(parent)),
            fork_len: self.branches[pi].versions.len(),
            base,
            versions: Vec::new(),
        };
        self.branches.push(b);
        proof {
            VersionedStore::lemma_push(&before, self);
            assert(self.branches@.last()@.versions =~= Seq::empty());
        }
        Ok(())
    }

    /// Whether branch `name` has a parent branch, other than itself, that exists.
    pub open spec fn parent_ok(&self, name: Seq<u8>) -> bool {
        match self.branch(name).parent {
            Some(p) => p != name && self.has(p),
            None => false,
        }
    }

    fn any_collision(pv: &Vec<VersionLog>, cv: &Vec<VersionLog>, from: usize) -> (r: bool)
        ensures
            r == (exists|i: int, j: int|
                from <= i < pv@.len() && 0 <= j < cv@.len() && pv@[i].id == cv@[j].id),
    {
        let mut i: usize = from;
        while i < pv.len()
            invariant
                from <= i,
                forall|a: int, b: int| from <= a < i && a < pv@.len() && 0 <= b < cv@.len() ==> pv@[a].id != cv@[b].id,
            decreases pv.len() - i,
        {
            let mut j: usize = 0;
            while j < cv.len()
                invariant
                    from <= i < pv@.len(),
                    j <= cv@.len(),
                    forall|a: int, b: int| from <= a < i && a < pv@.len() && 0 <= b < cv@.len() ==> pv@[a].id != cv@[b].id,
                    forall|b: int| 0 <= b < j ==> pv@[i as int].id != cv@[b].id,
                decreases cv.len() - j,
            {
                if pv[i].id == cv[j].id {
                    return true;
                }
                j += 1;
            }
            i += 1;
        }
        false
    }

    /// Appends the versions of branch `name` onto its parent's and removes `name`.
    pub fn branch_merge_to_parent(&mut self, name: &Vec<u8>) -> (r: Result<(), StoreError>)
        requires
            old(self).wf(),
        ensures
            final(self).wf(),
            final(self).default_name() == old(self).default_name(),
            r is Ok <==> old(self).has(name@) && old(self).parent_ok(name@)
                && !old(self).branch(old(self).branch(name@).parent->0).collides(
                    old(self).branch(name@), old(self).branch(name@).fork_len),
            !old(self).has(name@) <==> r == Err::<(), StoreError>(StoreError::NoSuchBranch),
            old(self).has(name@) && !old(self).parent_ok(name@)
                <==> r == Err::<(), StoreError>(StoreError::NoParent),
            old(self).has(name@) && old(self).parent_ok(name@)
                && old(self).branch(old(self).branch(name@).parent->0).collides(
                    old(self).branch(name@), old(self).branch(name@).fork_len)
                <==> r == Err::<(), StoreError>(StoreError::VersionCollision),
            r is Err ==> *final(self) == *old(self),
            r is Ok ==> ({
                let child = old(self).branch(name@);
                let p = child.parent->0;
                &&& !final(self).has(name@)
                &&& final(self).has(p)
                &&& final(self).branch(p) == (BranchView {
                    versions: old(self).branch(p).versions + child.versions,
                    ..old(self).branch(p)
                })
                &&& forall|n: Seq<u8>| n != name@ && n != p ==>
                    (final(self).has(n) == old(self).has(n)
                        && (old(self).has(n) ==> final(self).branch(n) == old(self).branch(n)))
            }),
    {
        let ci = match self.find(name) {
            None => {
                return Err(StoreError::NoSuchBranch);
            },
            Some(ci) => ci,
        };
        let parent = match &self.branches[ci].parent {
            None => {
                return Err(StoreError::NoParent);
            },
            Some(p) => copy_bytes(p),
        };
        if bytes_eq(&parent, name) {
            return Err(StoreError::NoParent);
        }
        let pi = match self.find(&parent) {
            None => {
                return Err(StoreError::NoParent);
            },
            Some(pi) => pi,
        };
        let fork = self.branches[ci].fork_len;
        if VersionedStore::any_collision(&self.branches[pi].versions, &self.branches[ci].versions, fork) {
            proof {
                let pb = self.branch(parent@);
                let cb = self.branch(name@);
                let (a, b) = choose|a: int, b: int|
                    fork <= a < self.branches@[pi as int].versions@.len() && 0 <= b < self.branches@[ci as int].versions@.len()
                        && self.branches@[pi as int].versions@[a].id == self.branches@[ci as int].versions@[b].id;
                assert(pb.versions[a].id == cb.versions[b].id);
            }
            return Err(StoreError::VersionCollision);
        }
        proof {
            let pb = self.branch(parent@);
            let cb = self.branch(name@);
            if pb.collides(cb, cb.fork_len) {
                let (a, b) = choose|a: int, b: int|
                    cb.fork_len <= a < pb.versions.len() && 0 <= b < cb.versions.len()
                        && pb.versions[a].id == cb.versions[b].id;
                assert(self.branches@[pi as int].versions@[a].id == self.branches@[ci as int].versions@[b].id);
            }
        }
        let ghost before = *self;
        let mut child = self.branches.remove(ci);
        let ghost mid = *self;
        proof {
            VersionedStore::lemma_remove(&before, &mid, ci as int);
        }
        let ghost cvs = child.versions@;
        let pi2 = if pi > ci { pi - 1 } else { pi };
        assert(mid.branches@[pi2 as int] == before.branches@[pi as int]);
        self.branches[pi2].versions.append(&mut child.versions);
        proof {
            VersionedStore::lemma_update(&mid, self, pi2 as int);
            assert(self.branches@[pi2 as int].versions@ == before.branches@[pi as int].versions@ + cvs);
            assert(self.branches@[pi2 as int]@.versions =~= before.branches@[pi as int]@.versions + before.branches@[ci as int]@.versions);
            assert(self.branches@[pi2 as int]@ =~= (BranchView {
                versions: before.branches@[pi as int]@.versions + before.branches@[ci as int]@.versions,
                ..before.branches@[pi as int]@
            }));
        }
        Ok(())
    }
}

/// Appending a write to a log: the key written reads the new value, every
/// other key reads as before.
pub proof fn lemma_lookup_push(log: Seq<(Seq<u8>, EntryView)>, w: (Seq<u8>, EntryView), key: Seq<u8>)
    ensures
        lookup(log.push(w), key) == if w.0 == key { Some(w.1) } else { lookup(log, key) },
{
    assert(log.push(w).drop_last() =~= log);
}

/// Writing on a branch appends the write to its history.
pub proof fn lemma_put_history(b: BranchView, key: Seq<u8>, value: EntryView)
    requires
        b.versions.len() > 0,
    ensures
        b.put(key, value).history() == b.history().push((key, value)),
{
    let p = b.put(key, value);
    assert(p.versions.drop_last() =~= b.versions.drop_last());
    assert(b.history().push((key, value)) =~= p.history());
}

/// A new, empty version changes no read.
pub proof fn lemma_new_version_history(b: BranchView, v: VsVersion)
    ensures
        (BranchView { versions: b.versions.push(VersionLogView { id: v, writes: Seq::empty() }), ..b }).history()
            == b.history(),
{
    let vs = b.versions.push(VersionLogView { id: v, writes: Seq::empty() });
    assert(vs.drop_last() =~= b.versions);
    assert(flatten(vs) =~= flatten(b.versions));
}

/// The writes of two runs of versions are those of the first, then the second.
pub proof fn lemma_flatten_append(a: Seq<VersionLogView>, b: Seq<VersionLogView>)
    ensures
        flatten(a + b) == flatten(a) + flatten(b),
    decreases b.len(),
{
    if b.len() == 0 {
        assert(a + b =~= a);
        assert(flatten(a) + flatten(b) =~= flatten(a));
    } else {
        lemma_flatten_append(a, b.drop_last());
        assert((a + b).drop_last() =~= a + b.drop_last());
        assert(flatten(a) + flatten(b) =~= flatten(a) + flatten(b.drop_last()) + b.last().writes);
    }
}

} // verus!
