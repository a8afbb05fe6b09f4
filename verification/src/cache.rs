//! The cache of DDK IO tensors kept by a session, keyed by shape and dtype.

use vstd::prelude::*;

verus! {

/// The key of a cached IO tensor: its shape and raw dtype code.
pub type Key = (Seq<u32>, i32);

/// Selects the input or output half of an [`IoCache`].
#[derive(Debug, Clone, Copy, PartialEq, Eq, Structural)]
pub enum IoKind {
    Input,
    Output,
}

/// A DDK IO tensor cached across dispatches, with the shape and dtype it
/// was created for.
pub struct CachedIo<T> {
    pub tensor: T,
    pub shape: Vec<u32>,
    pub dtype: i32,
}

/// Cached input and output IO tensors, reused across dispatches when shapes
/// and dtypes are unchanged.
pub struct IoCache<T> {
    pub inputs: Vec<CachedIo<T>>,
    pub outputs: Vec<CachedIo<T>>,
}

/// The key a cached tensor was created for.
pub open spec fn key_of<T>(c: CachedIo<T>) -> Key {
    (c.shape@, c.dtype)
}

/// The keys of a sequence of cached tensors, in order.
pub open spec fn keys_of<T>(v: Seq<CachedIo<T>>) -> Seq<Key> {
    v.map_values(|c: CachedIo<T>| key_of(c))
}

/// The keys of a sequence of `(shape, dtype)` slots, in order.
pub open spec fn slot_keys(v: Seq<(Vec<u32>, i32)>) -> Seq<Key> {
    v.map_values(|s: (Vec<u32>, i32)| (s.0@, s.1))
}

/// One half of a pair of sequences (inputs, outputs).
pub open spec fn side<A>(st: (Seq<A>, Seq<A>), kind: IoKind) -> Seq<A> {
    match kind {
        IoKind::Input => st.0,
        IoKind::Output => st.1,
    }
}

/// A pair of sequences with one half replaced.
pub open spec fn with_side<A>(st: (Seq<A>, Seq<A>), kind: IoKind, s: Seq<A>) -> (Seq<A>, Seq<A>) {
    match kind {
        IoKind::Input => (s, st.1),
        IoKind::Output => (st.0, s),
    }
}

/// Replacing one half gives that half, and keeps the other.
pub proof fn lemma_with_side<A>(st: (Seq<A>, Seq<A>), kind: IoKind, s: Seq<A>, other: IoKind)
    ensures
        side(with_side(st, kind, s), kind) == s,
        other != kind ==> side(with_side(st, kind, s), other) == side(st, other),
        with_side(st, kind, side(st, kind)) == st,
        with_side(with_side(st, kind, s), kind, side(st, kind)) == st,
        forall|s2: Seq<A>| #[trigger] with_side(with_side(st, kind, s), kind, s2) == with_side(st, kind, s2),
{
    match kind {
        IoKind::Input => {},
        IoKind::Output => {},
    }
}

/// A sequence with everything from position `n` on dropped.
pub open spec fn truncated<A>(s: Seq<A>, n: int) -> Seq<A> {
    if n < s.len() {
        s.take(n)
    } else {
        s
    }
}

/// A sequence with `k` put at position `i`, or appended when `i` is past the
/// end.
pub open spec fn installed<A>(s: Seq<A>, i: int, k: A) -> Seq<A> {
    if i < s.len() {
        s.update(i, k)
    } else {
        s.push(k)
    }
}

/// The tensors of a sequence of cached entries, in order.
pub open spec fn tensors_of<T>(v: Seq<CachedIo<T>>) -> Seq<T> {
    v.map_values(|c: CachedIo<T>| c.tensor)
}

impl<T> IoCache<T> {
    /// An empty cache.
    pub fn new() -> (c: Self)
        ensures
            c.keys() == (Seq::<Key>::empty(), Seq::<Key>::empty()),
    {
        let c = IoCache { inputs: Vec::new(), outputs: Vec::new() };
        assert(keys_of(c.inputs@) =~= Seq::<Key>::empty());
        assert(keys_of(c.outputs@) =~= Seq::<Key>::empty());
        c
    }

    /// The keys of the cached inputs and outputs.
    pub open spec fn keys(self) -> (Seq<Key>, Seq<Key>) {
        (keys_of(self.inputs@), keys_of(self.outputs@))
    }

    /// The cached input and output tensors.
    pub open spec fn tensors(self) -> (Seq<T>, Seq<T>) {
        (tensors_of(self.inputs@), tensors_of(self.outputs@))
    }

    /// The keys and tensors of a half are those of its entries.
    pub proof fn lemma_sides(self, kind: IoKind)
        ensures
            side(self.keys(), kind) == keys_of(self.slots(kind)@),
            side(self.tensors(), kind) == tensors_of(self.slots(kind)@),
            side(self.keys(), kind).len() == self.slots(kind)@.len(),
            side(self.tensors(), kind).len() == self.slots(kind)@.len(),
            forall|i: int|
                0 <= i < self.slots(kind)@.len() ==> #[trigger] side(self.tensors(), kind)[i]
                    == self.slots(kind)@[i].tensor,
    {
        match kind {
            IoKind::Input => {},
            IoKind::Output => {},
        }
    }

    /// The cached tensors of one half.
    pub open spec fn slots(self, kind: IoKind) -> Vec<CachedIo<T>> {
        match kind {
            IoKind::Input => self.inputs,
            IoKind::Output => self.outputs,
        }
    }

    /// The cached tensors of one half, for update.
    pub fn slots_mut(&mut self, kind: IoKind) -> (r: &mut Vec<CachedIo<T>>)
        ensures
            *r == old(self).slots(kind),
            final(self).slots(kind) == *final(r),
            kind is Input ==> final(self).outputs == old(self).outputs,
            kind is Output ==> final(self).inputs == old(self).inputs,
    {
        match kind {
            IoKind::Input => &mut self.inputs,
            IoKind::Output => &mut self.outputs,
        }
    }

    /// `new` holds a prefix of each half of `old`: every tensor still cached
    /// sits where it sat.
    pub open spec fn keeps_prefix(old: Self, new: Self) -> bool {
        &&& forall|k: IoKind| #[trigger] new.slots(k)@.len() <= old.slots(k)@.len()
        &&& forall|k: IoKind, i: int|
            0 <= i < new.slots(k)@.len() ==> #[trigger] new.slots(k)@[i] == old.slots(k)@[i]
    }

    /// Drops the cached tensors of the `kind` half from position `n` on.
    pub fn truncate(&mut self, kind: IoKind, n: usize)
        ensures
            final(self).keys() == with_side(
                old(self).keys(),
                kind,
                truncated(side(old(self).keys(), kind), n as int),
            ),
            Self::keeps_prefix(*old(self), *final(self)),
            final(self).slots(kind)@ == truncated(old(self).slots(kind)@, n as int),
            forall|k: IoKind| k != kind ==> #[trigger] final(self).slots(k) == old(self).slots(k),
    {
        let ghost before = self.slots(kind)@;
        let slots = self.slots_mut(kind);
        slots.truncate(n);
        proof {
            if n < before.len() {
                assert(keys_of(before.subrange(0, n as int)) =~= keys_of(before).take(n as int));
            }
        }
    }

    /// Puts `fresh` at position `index` of the `kind` half, replacing the
    /// entry there, or appends it when `index` is the end. Every other entry,
    /// of either half, stays where it was.
    pub fn install(&mut self, kind: IoKind, index: usize, fresh: CachedIo<T>)
        requires
            index <= old(self).slots(kind)@.len(),
        ensures
            final(self).slots(kind)@ == installed(old(self).slots(kind)@, index as int, fresh),
            forall|k: IoKind| k != kind ==> #[trigger] final(self).slots(k) == old(self).slots(k),
            final(self).keys() == with_side(
                old(self).keys(),
                kind,
                installed(side(old(self).keys(), kind), index as int, key_of(fresh)),
            ),
            index <= old(self).slots(kind)@.len() ==> final(self).slots(kind)@[index as int]
                == fresh,
            final(self).slots(kind)@.len() == if index < old(self).slots(kind)@.len() {
                old(self).slots(kind)@.len()
            } else {
                old(self).slots(kind)@.len() + 1
            },
    {
        let ghost before = self.slots(kind)@;
        let ghost k = key_of(fresh);
        let slots = self.slots_mut(kind);
        if index < slots.len() {
            slots[index] = fresh;
            assert(keys_of(before.update(index as int, fresh)) =~= keys_of(before).update(
                index as int,
                k,
            ));
        } else {
            slots.push(fresh);
            assert(keys_of(before.push(fresh)) =~= keys_of(before).push(k));
        }
    }

    /// The cached tensors of one half.
    pub fn slots_ref(&self, kind: IoKind) -> (r: &Vec<CachedIo<T>>)
        ensures
            *r == self.slots(kind),
    {
        match kind {
            IoKind::Input => &self.inputs,
            IoKind::Output => &self.outputs,
        }
    }
}

} // verus!
