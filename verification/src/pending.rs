//! Decrypted imports held between their preview and their commit, each under an id of its own.
//!
//! The window that previewed an import commits or discards it by its id, so two previews never
//! take each other's content. At most `MAX_PENDING_IMPORTS` are held (the oldest goes first), and
//! a page generation keeps the result of a decryption that outlived its page from being held.

use vstd::prelude::*;

verus! {

/// The most decrypted imports held at once.
pub const MAX_PENDING_IMPORTS: usize = 4;

/// The pending imports, oldest first.
pub struct PendingImportState<P> {
    next_id: u64,
    page_generation: u64,
    entries: Vec<(u64, P)>,
}

pub struct PendingView<P> {
    /// The id that the next insertion gives out; ids are never given out twice.
    pub next_id: nat,
    pub generation: nat,
    pub entries: Seq<(u64, P)>,
}

impl<P> View for PendingImportState<P> {
    type V = PendingView<P>;

    closed spec fn view(&self) -> PendingView<P> {
        PendingView {
            next_id: self.next_id as nat,
            generation: self.page_generation as nat,
            entries: self.entries@,
        }
    }
}

/// Ids increase from the oldest entry to the newest, and all are below `next_id`, a `u64`.
pub open spec fn pending_wf<P>(v: PendingView<P>) -> bool {
    &&& v.next_id <= u64::MAX
    &&& v.entries.len() <= MAX_PENDING_IMPORTS
    &&& forall|i: int, j: int| 0 <= i < j < v.entries.len() ==> #[trigger] v.entries[i].0 < #[trigger] v.entries[j].0
    &&& forall|i: int| 0 <= i < v.entries.len() ==> (#[trigger] v.entries[i].0) < v.next_id
}

/// The state and the answer after offering `p` under the generation `generation`.
pub open spec fn insert_step<P>(v: PendingView<P>, generation: nat, p: P) -> (PendingView<P>, Option<u64>) {
    if generation != v.generation {
        (v, None)
    } else {
        let kept = if v.entries.len() >= MAX_PENDING_IMPORTS {
            v.entries.drop_first()
        } else {
            v.entries
        };
        (
            PendingView { next_id: v.next_id + 1, generation: v.generation, entries: kept.push((v.next_id as u64, p)) },
            Some(v.next_id as u64),
        )
    }
}

/// The position of the entry with id `id`, or `entries.len()`.
pub open spec fn id_position<P>(entries: Seq<(u64, P)>, id: u64) -> nat
    decreases entries.len(),
{
    if entries.len() == 0 {
        0
    } else if entries[0].0 == id {
        0
    } else {
        1 + id_position(entries.drop_first(), id)
    }
}

/// The state and the answer after taking the entry `id`.
pub open spec fn take_step<P>(v: PendingView<P>, id: u64) -> (PendingView<P>, Option<P>) {
    let i = id_position(v.entries, id);
    if i < v.entries.len() {
        (PendingView { entries: v.entries.remove(i as int), ..v }, Some(v.entries[i as int].1))
    } else {
        (v, None)
    }
}

proof fn lemma_id_position<P>(entries: Seq<(u64, P)>, id: u64, k: nat)
    requires
        k <= entries.len(),
        forall|j: int| 0 <= j < k ==> (#[trigger] entries[j]).0 != id,
        k < entries.len() ==> entries[k as int].0 == id,
    ensures
        id_position(entries, id) == k,
    decreases k,
{
    if k > 0 {
        assert forall|j: int| 0 <= j < k - 1 implies (#[trigger] entries.drop_first()[j]).0 != id by {
            assert(entries.drop_first()[j] == entries[j + 1]);
        }
        if (k as int) < entries.len() {
            assert(entries.drop_first()[k - 1] == entries[k as int]);
        }
        assert(entries[0].0 != id);
        lemma_id_position(entries.drop_first(), id, (k - 1) as nat);
    }
}

impl<P> PendingImportState<P> {
    #[verifier::type_invariant]
    spec fn inv(self) -> bool {
        pending_wf(self@)
    }

    pub fn new() -> (r: PendingImportState<P>)
        ensures
            r@.next_id == 0,
            r@.generation == 0,
            r@.entries == Seq::<(u64, P)>::empty(),
            pending_wf(r@),
    {
        PendingImportState { next_id: 0, page_generation: 0, entries: Vec::new() }
    }

    /// The current page generation, noted before a decryption starts.
    pub fn generation(&self) -> (r: u64)
        ensures
            r == self@.generation,
            pending_wf(self@),
    {
        proof {
            use_type_invariant(self);
        }
        self.page_generation
    }

    /// How many imports are held.
    pub fn len(&self) -> (r: usize)
        ensures
            r == self@.entries.len(),
            r <= MAX_PENDING_IMPORTS,
            pending_wf(self@),
    {
        proof {
            use_type_invariant(self);
        }
        self.entries.len()
    }

    /// Holds `preview` under a new id if the page generation is still `generation` (else the
    /// preview is dropped and `None` returned). When the limit is reached, the oldest is dropped.
    pub fn insert_if_generation(&mut self, generation: u64, preview: P) -> (r: Option<u64>)
        requires
            generation == old(self)@.generation ==> old(self)@.next_id < u64::MAX,
        ensures
            (final(self)@, r) == insert_step(old(self)@, generation as nat, preview),
            pending_wf(old(self)@),
            pending_wf(final(self)@),
    {
        proof {
            use_type_invariant(&*self);
        }
        if self.page_generation != generation {
            return None;
        }
        let id = self.next_id;
        let mut entries: Vec<(u64, P)> = Vec::new();
        std::mem::swap(&mut entries, &mut self.entries);
        let ghost before = entries@;
        if entries.len() >= MAX_PENDING_IMPORTS {
            let _ = entries.remove(0);
            assert(entries@ =~= before.drop_first());
        }
        let ghost kept = entries@;
        entries.push((id, preview));
        proof {
            assert forall|i: int, j: int|
                0 <= i < j < entries@.len() implies #[trigger] entries@[i].0 < #[trigger] entries@[j].0 by {
                if j < kept.len() {
                    if before.len() >= MAX_PENDING_IMPORTS {
                        assert(kept[i] == before[i + 1]);
                        assert(kept[j] == before[j + 1]);
                    }
                } else {
                    if before.len() >= MAX_PENDING_IMPORTS {
                        assert(kept[i] == before[i + 1]);
                    }
                }
            }
            assert forall|i: int| 0 <= i < entries@.len() implies (#[trigger] entries@[i].0) < id + 1 by {
                if i < kept.len() && before.len() >= MAX_PENDING_IMPORTS {
                    assert(kept[i] == before[i + 1]);
                }
            }
        }
        self.next_id = id + 1;
        self.entries = entries;
        Some(id)
    }

    /// Holds `preview` under the current generation.
    pub fn insert(&mut self, preview: P) -> (r: u64)
        requires
            old(self)@.next_id < u64::MAX,
        ensures
            (final(self)@, Some(r)) == insert_step(old(self)@, old(self)@.generation, preview),
            pending_wf(old(self)@),
            pending_wf(final(self)@),
    {
        let generation = self.page_generation;
        match self.insert_if_generation(generation, preview) {
            Some(id) => id,
            None => 0,
        }
    }

    /// Drops every pending import and advances the page generation (the page that would
    /// receive them is gone).
    pub fn discard_all_and_advance_generation(&mut self)
        requires
            old(self)@.generation < u64::MAX,
        ensures
            final(self)@ == (PendingView {
                next_id: old(self)@.next_id,
                generation: old(self)@.generation + 1,
                entries: Seq::<(u64, P)>::empty(),
            }),
            pending_wf(old(self)@),
            pending_wf(final(self)@),
    {
        proof {
            use_type_invariant(&*self);
        }
        self.entries = Vec::new();
        self.page_generation = self.page_generation + 1;
    }

    /// Takes out the import `id`, leaving the others; `None` if it is not held.
    pub fn take(&mut self, id: u64) -> (r: Option<P>)
        ensures
            (final(self)@, r) == take_step(old(self)@, id),
            pending_wf(old(self)@),
            pending_wf(final(self)@),
    {
        proof {
            use_type_invariant(&*self);
        }
        let mut i: usize = 0;
        while i < self.entries.len()
            invariant
                i <= self.entries@.len(),
                self.entries@ == old(self)@.entries,
                self@ == old(self)@,
                pending_wf(old(self)@),
                forall|j: int| 0 <= j < i ==> (#[trigger] self.entries@[j]).0 != id,
            decreases self.entries@.len() - i,
        {
            if self.entries[i].0 == id {
                proof {
                    lemma_id_position(self.entries@, id, i as nat);
                }
                let mut entries: Vec<(u64, P)> = Vec::new();
                std::mem::swap(&mut entries, &mut self.entries);
                let ghost before = entries@;
                let (_, preview) = entries.remove(i);
                proof {
                    assert forall|a: int, b: int|
                        0 <= a < b < entries@.len() implies #[trigger] entries@[a].0 < #[trigger] entries@[b].0 by {
                        let a0 = if a < i { a } else { a + 1 };
                        let b0 = if b < i { b } else { b + 1 };
                        assert(entries@[a] == before[a0]);
                        assert(entries@[b] == before[b0]);
                    }
                    assert forall|a: int| 0 <= a < entries@.len() implies (#[trigger] entries@[a].0) < self.next_id by {
                        let a0 = if a < i { a } else { a + 1 };
                        assert(entries@[a] == before[a0]);
                    }
                }
                self.entries = entries;
                return Some(preview);
            }
            i += 1;
        }
        proof {
            lemma_id_position(self.entries@, id, i as nat);
        }
        None
    }

    /// With `Some(id)` drops that import only; with `None` drops them all.
    pub fn discard(&mut self, id: Option<u64>)
        ensures
            final(self)@.next_id == old(self)@.next_id,
            final(self)@.generation == old(self)@.generation,
            match id {
                Some(i) => final(self)@.entries == take_step(old(self)@, i).0.entries,
                None => final(self)@.entries == Seq::<(u64, P)>::empty(),
            },
            pending_wf(old(self)@),
            pending_wf(final(self)@),
    {
        match id {
            Some(i) => {
                let _ = self.take(i);
            },
            None => {
                proof {
                    use_type_invariant(&*self);
                }
                self.entries = Vec::new();
            },
        }
    }
}

/// An id is taken once only: after its import was taken out, taking it again gives nothing.
pub proof fn law_taken_id_is_gone<P>(v: PendingView<P>, id: u64)
    requires
        pending_wf(v),
        take_step(v, id).1 is Some,
    ensures
        take_step(take_step(v, id).0, id).1 is None,
{
    let i = id_position(v.entries, id);
    lemma_first_id_position(v.entries, id);
    let e = v.entries.remove(i as int);
    assert forall|j: int| 0 <= j < e.len() implies (#[trigger] e[j]).0 != id by {
        if j < i {
            assert(e[j] == v.entries[j]);
            assert(v.entries[j].0 < v.entries[i as int].0);
        } else {
            assert(e[j] == v.entries[j + 1]);
            assert(v.entries[i as int].0 < v.entries[j + 1].0);
        }
    }
    lemma_id_position(e, id, e.len());
}

/// Where `id_position` points inside the entries, the entry there has that id.
proof fn lemma_first_id_position<P>(entries: Seq<(u64, P)>, id: u64)
    ensures
        id_position(entries, id) <= entries.len(),
        id_position(entries, id) < entries.len() ==> entries[id_position(entries, id) as int].0 == id,
    decreases entries.len(),
{
    if entries.len() > 0 && entries[0].0 != id {
        lemma_first_id_position(entries.drop_first(), id);
        let p = id_position(entries.drop_first(), id);
        if p < entries.drop_first().len() {
            assert(entries.drop_first()[p as int] == entries[p as int + 1]);
        }
    }
}

/// A pending import, taken by the id that its insertion gave, comes back as it was put in,
/// provided nothing happened in between.
pub proof fn law_take_returns_inserted<P>(v: PendingView<P>, p: P)
    requires
        pending_wf(v),
        v.next_id < u64::MAX,
    ensures
        ({
            let (w, id) = insert_step(v, v.generation, p);
            id matches Some(i) && take_step(w, i).1 == Some(p) && take_step(w, i).0.entries
                == (if v.entries.len() >= MAX_PENDING_IMPORTS {
                v.entries.drop_first()
            } else {
                v.entries
            })
        }),
{
    let (w, id) = insert_step(v, v.generation, p);
    let i = v.next_id as u64;
    let kept = if v.entries.len() >= MAX_PENDING_IMPORTS {
        v.entries.drop_first()
    } else {
        v.entries
    };
    assert forall|j: int| 0 <= j < kept.len() implies (#[trigger] w.entries[j]).0 != i by {
        if v.entries.len() >= MAX_PENDING_IMPORTS {
            assert(kept[j] == v.entries[j + 1]);
        }
        assert(w.entries[j] == kept[j]);
    }
    lemma_id_position(w.entries, i, kept.len());
    assert(w.entries.remove(kept.len() as int) =~= kept);
}

/// An import offered under a generation that has passed is dropped, and nothing changes.
pub proof fn law_stale_generation_changes_nothing<P>(v: PendingView<P>, generation: nat, p: P)
    requires
        generation != v.generation,
    ensures
        insert_step(v, generation, p) == (v, None::<u64>),
{
}

/// After the generation advances, no import of a decryption begun before it is held.
pub proof fn law_advance_refuses_earlier_decryptions<P>(v: PendingView<P>, p: P)
    ensures
        ({
            let w = PendingView { next_id: v.next_id, generation: v.generation + 1, entries: Seq::<(u64, P)>::empty() };
            insert_step(w, v.generation, p).1 is None && insert_step(w, v.generation, p).0.entries.len() == 0
        }),
{
}

/// Ids are never given out twice: every id held is below the next one, which only grows.
pub proof fn law_ids_are_fresh<P>(v: PendingView<P>, generation: nat, p: P)
    requires
        pending_wf(v),
    ensures
        insert_step(v, generation, p).1 matches Some(i) ==> forall|j: int|
            0 <= j < v.entries.len() ==> (#[trigger] v.entries[j]).0 != i,
        insert_step(v, generation, p).0.next_id >= v.next_id,
{
}

} // verus!
