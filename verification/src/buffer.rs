//! Keyed scratch storage for effect state. Each entry holds an ordered
//! sequence of elements of one kind, fixed when the entry is created and
//! checked on every later access; entries persist until the store is
//! dropped. The store is modelled as a map from key to stored sequence.
use crate::geometry::Vec2i;
use vstd::map::*;
use vstd::prelude::*;

verus! {

/// Why a store access failed. These indicate a mistake in effect logic, not
/// a transient condition.
#[derive(Clone, Copy, PartialEq, Eq, Structural, Debug)]
pub enum BufferError {
    /// `create` on a key that already exists.
    DuplicateKey,
    /// Access to a key that was never created.
    MissingKey,
    /// Access under an element kind other than the one fixed at creation.
    TypeMismatch,
}

/// The element kind of a stored sequence: its runtime type tag.
#[derive(Clone, Copy, PartialEq, Eq, Structural, Debug)]
pub enum BufferKind {
    /// A sequence of positions.
    Positions,
    /// A sequence of colors.
    Colors,
    /// A sequence of durations in nanoseconds.
    Nanos,
}

/// A stored sequence of one of the element kinds.
#[derive(Debug)]
pub enum BufferValue<C> {
    Positions(Vec<Vec2i>),
    Colors(Vec<C>),
    Nanos(Vec<u64>),
}

/// The mathematical value of a stored sequence.
pub enum BufferEntry<C> {
    Positions(Seq<Vec2i>),
    Colors(Seq<C>),
    Nanos(Seq<u64>),
}

impl<C> BufferValue<C> {
    /// The element kind of this value.
    pub open spec fn spec_kind(self) -> BufferKind {
        match self {
            BufferValue::Positions(_) => BufferKind::Positions,
            BufferValue::Colors(_) => BufferKind::Colors,
            BufferValue::Nanos(_) => BufferKind::Nanos,
        }
    }

    /// The stored sequence as a mathematical value.
    pub open spec fn entry(self) -> BufferEntry<C> {
        match self {
            BufferValue::Positions(v) => BufferEntry::Positions(v@),
            BufferValue::Colors(v) => BufferEntry::Colors(v@),
            BufferValue::Nanos(v) => BufferEntry::Nanos(v@),
        }
    }

    /// The element kind of this value.
    pub fn kind(&self) -> (r: BufferKind)
        ensures
            r == self.spec_kind(),
    {
        match self {
            BufferValue::Positions(_) => BufferKind::Positions,
            BufferValue::Colors(_) => BufferKind::Colors,
            BufferValue::Nanos(_) => BufferKind::Nanos,
        }
    }
}

impl<C> BufferEntry<C> {
    /// The element kind of this entry.
    pub open spec fn spec_kind(self) -> BufferKind {
        match self {
            BufferEntry::Positions(_) => BufferKind::Positions,
            BufferEntry::Colors(_) => BufferKind::Colors,
            BufferEntry::Nanos(_) => BufferKind::Nanos,
        }
    }
}

/// Keyed scratch storage: unique string keys, each bound to one stored
/// sequence whose kind never changes.
pub struct BufferStore<C> {
    entries: Vec<(String, BufferValue<C>)>,
}

impl<C> BufferStore<C> {
    /// Keys are unique.
    #[verifier::type_invariant]
    spec fn wf(self) -> bool {
        forall|i: int, j: int|
            0 <= i < j < self.entries@.len() ==> (#[trigger] self.entries@[i]).0@ != (
            #[trigger] self.entries@[j]).0@
    }

    /// Whether some entry holds key `k`.
    closed spec fn has_key(self, k: Seq<char>) -> bool {
        exists|i: int| 0 <= i < self.entries@.len() && (#[trigger] self.entries@[i]).0@ == k
    }

    /// Index of the entry holding key `k`.
    closed spec fn idx_of(self, k: Seq<char>) -> int {
        choose|i: int| 0 <= i < self.entries@.len() && (#[trigger] self.entries@[i]).0@ == k
    }

    /// The store as a map from key to stored sequence.
    pub closed spec fn contents(self) -> Map<Seq<char>, BufferEntry<C>> {
        Map::new(|k: Seq<char>| self.has_key(k), |k: Seq<char>| self.entries@[self.idx_of(k)].1.entry())
    }

    /// A found index is the index the model uses.
    proof fn lemma_idx(self, k: Seq<char>, i: int)
        requires
            self.wf(),
            0 <= i < self.entries@.len(),
            self.entries@[i].0@ == k,
        ensures
            self.has_key(k),
            self.idx_of(k) == i,
    {
        let j = self.idx_of(k);
        if j != i {
            if j < i {
                assert(self.entries@[j].0@ != self.entries@[i].0@);
            } else {
                assert(self.entries@[i].0@ != self.entries@[j].0@);
            }
        }
    }

    /// An empty store.
    pub fn new() -> (r: BufferStore<C>)
        ensures
            r.contents() == Map::<Seq<char>, BufferEntry<C>>::empty(),
    {
        let r = BufferStore { entries: Vec::new() };
        proof {
            assert(r.contents() =~= Map::<Seq<char>, BufferEntry<C>>::empty());
        }
        r
    }

    /// Index of the entry holding `key`, if any.
    fn find(&self, key: &String) -> (r: Option<usize>)
        ensures
            match r {
                Some(i) => i < self.entries@.len() && self.entries@[i as int].0@ == key@
                    && self.has_key(key@) && self.idx_of(key@) == i,
                None => !self.has_key(key@),
            },
    {
        proof {
            use_type_invariant(self);
        }
        let n = self.entries.len();
        let mut i: usize = 0;
        while i < n
            invariant
                self.wf(),
                i <= n,
                n == self.entries@.len(),
                forall|t: int| 0 <= t < i ==> (#[trigger] self.entries@[t]).0@ != key@,
            decreases n - i,
        {
            if self.entries[i].0 == *key {
                proof {
                    self.lemma_idx(key@, i as int);
                }
                return Some(i);
            }
            i = i + 1;
        }
        None
    }

    /// Store `value` under `key`. Fails exactly when the key already exists,
    /// and then changes nothing; the entry's kind is fixed by this call.
    pub fn create(&mut self, key: String, value: BufferValue<C>) -> (r: Result<(), BufferError>)
        ensures
            r is Ok <==> !old(self).contents().contains_key(key@),
            r is Ok ==> final(self).contents() == old(self).contents().insert(
                key@,
                value.entry(),
            ),
            r is Err ==> final(self).contents() == old(self).contents() && r == Err::<
                (),
                BufferError,
            >(BufferError::DuplicateKey),
    {
        proof {
            use_type_invariant(&*self);
        }
        match self.find(&key) {
            Some(_) => Err(BufferError::DuplicateKey),
            None => {
                let ghost old_self = *self;
                let mut entries: Vec<(String, BufferValue<C>)> = Vec::new();
                std::mem::swap(&mut entries, &mut self.entries);
                entries.push((key, value));
                std::mem::swap(&mut entries, &mut self.entries);
                proof {
                    let n = old_self.entries@.len();
                    assert(forall|t: int|
                        0 <= t < n ==> #[trigger] self.entries@[t] == old_self.entries@[t]);
                    assert(self.entries@[n as int].0@ == key@);
                    assert forall|k2: Seq<char>| true implies {
                        &&& self.has_key(k2) == (old_self.has_key(k2) || k2 == key@)
                    } by {
                        if self.has_key(k2) {
                            let w = choose|i: int|
                                0 <= i < self.entries@.len() && (#[trigger] self.entries@[i]).0@
                                    == k2;
                            if w < n {
                                assert(old_self.entries@[w].0@ == k2);
                            }
                        }
                        if old_self.has_key(k2) {
                            let w = choose|i: int|
                                0 <= i < old_self.entries@.len() && (
                                #[trigger] old_self.entries@[i]).0@ == k2;
                            assert(self.entries@[w].0@ == k2);
                        }
                        if k2 == key@ {
                            assert(self.entries@[n as int].0@ == k2);
                        }
                    }
                    assert forall|k2: Seq<char>| self.has_key(k2) implies self.entries@[self.idx_of(
                        k2,
                    )].1.entry() == old_self.contents().insert(key@, value.entry())[k2] by {
                        if k2 == key@ {
                            self.lemma_idx(k2, n as int);
                        } else {
                            let w = choose|i: int|
                                0 <= i < old_self.entries@.len() && (
                                #[trigger] old_self.entries@[i]).0@ == k2;
                            self.lemma_idx(k2, w);
                            old_self.lemma_idx(k2, w);
                        }
                    }
                    assert(self.contents() =~= old_self.contents().insert(key@, value.entry()));
                }
                Ok(())
            },
        }
    }

    /// The stored sequence under `key`, accessed as kind `kind`. Fails with
    /// `MissingKey` exactly when the key was never created, and with
    /// `TypeMismatch` exactly when it exists under another kind.
    pub fn get(&self, key: &String, kind: BufferKind) -> (r: Result<&BufferValue<C>, BufferError>)
        ensures
            !self.contents().contains_key(key@) ==> r == Err::<&BufferValue<C>, BufferError>(
                BufferError::MissingKey,
            ),
            self.contents().contains_key(key@) && self.contents()[key@].spec_kind() != kind ==> r
                == Err::<&BufferValue<C>, BufferError>(BufferError::TypeMismatch),
            self.contents().contains_key(key@) && self.contents()[key@].spec_kind() == kind ==> (
            r is Ok && r->Ok_0.entry() == self.contents()[key@]),
    {
        proof {
            use_type_invariant(self);
        }
        match self.find(key) {
            None => Err(BufferError::MissingKey),
            Some(i) => {
                let v = &self.entries[i].1;
                if v.kind() == kind {
                    Ok(v)
                } else {
                    Err(BufferError::TypeMismatch)
                }
            },
        }
    }

    /// Replace the stored sequence under `key` with `value`, which must be
    /// of the kind fixed at creation. Fails with `MissingKey` exactly when
    /// the key was never created, and with `TypeMismatch` exactly when the
    /// entry's kind differs from the new value's; on failure nothing
    /// changes. A replacement is visible to every later access.
    pub fn set_value(&mut self, key: &String, value: BufferValue<C>) -> (r: Result<
        (),
        BufferError,
    >)
        ensures
            !old(self).contents().contains_key(key@) ==> r == Err::<(), BufferError>(
                BufferError::MissingKey,
            ),
            old(self).contents().contains_key(key@) && old(self).contents()[key@].spec_kind()
                != value.spec_kind() ==> r == Err::<(), BufferError>(BufferError::TypeMismatch),
            r is Ok <==> (old(self).contents().contains_key(key@) && old(
                self,
            ).contents()[key@].spec_kind() == value.spec_kind()),
            r is Ok ==> final(self).contents() == old(self).contents().insert(
                key@,
                value.entry(),
            ),
            r is Err ==> final(self).contents() == old(self).contents(),
    {
        proof {
            use_type_invariant(&*self);
        }
        match self.find(key) {
            None => Err(BufferError::MissingKey),
            Some(i) => {
                let ghost old_self = *self;
                if self.entries[i].1.kind() == value.kind() {
                    let k = self.entries[i].0.clone();
                    let mut entries: Vec<(String, BufferValue<C>)> = Vec::new();
                    std::mem::swap(&mut entries, &mut self.entries);
                    entries[i] = (k, value);
                    proof {
                        assert(forall|t: int|
                            0 <= t < entries@.len() ==> (#[trigger] entries@[t]).0@
                                == old_self.entries@[t].0@);
                    }
                    std::mem::swap(&mut entries, &mut self.entries);
                    proof {
                        assert(forall|t: int|
                            0 <= t < self.entries@.len() && t != i ==> #[trigger] self.entries@[t]
                                == old_self.entries@[t]);
                        assert(self.entries@[i as int].0@ == key@);
                        assert forall|k2: Seq<char>| true implies self.has_key(k2)
                            == old_self.has_key(k2) by {
                            if self.has_key(k2) {
                                let w = choose|t: int|
                                    0 <= t < self.entries@.len() && (#[trigger] self.entries@[t]).0@
                                        == k2;
                                assert(old_self.entries@[w].0@ == k2);
                            }
                            if old_self.has_key(k2) {
                                let w = choose|t: int|
                                    0 <= t < old_self.entries@.len() && (
                                    #[trigger] old_self.entries@[t]).0@ == k2;
                                assert(self.entries@[w].0@ == k2);
                            }
                        }
                        assert forall|k2: Seq<char>| self.has_key(k2) implies self.entries@[self
                            .idx_of(k2)].1.entry() == old_self.contents().insert(
                            key@,
                            value.entry(),
                        )[k2] by {
                            let w = choose|t: int|
                                0 <= t < old_self.entries@.len() && (
                                #[trigger] old_self.entries@[t]).0@ == k2;
                            old_self.lemma_idx(k2, w);
                            if k2 == key@ {
                                self.lemma_idx(k2, i as int);
                            } else {
                                self.lemma_idx(k2, w);
                            }
                        }
                        assert(self.contents() =~= old_self.contents().insert(
                            key@,
                            value.entry(),
                        ));
                    }
                    Ok(())
                } else {
                    Err(BufferError::TypeMismatch)
                }
            },
        }
    }
}

} // verus!
