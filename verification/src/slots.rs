use vstd::prelude::*;

use crate::lock::{Lock, TryLock};

verus! {

/// How many connection slots a table has.
pub const SLOT_COUNT: usize = 1024;

/// The state of the last free slot: no slot follows it.
pub const SLOT_END: usize = usize::MAX;

/// Why no connection can be placed now (see `insert_status`).
#[derive(PartialEq, Eq, Structural, Debug)]
pub enum SlotError {
    /// The head of the free list is the last slot: the table is full.
    Full,
    /// The head of the free list is marked in use, so no slot can be taken.
    Busy,
    /// The lock of the slot to fill is held.
    Locked,
}

/// One connection slot: its state (0 while in use, else the index of the
/// next free slot or `SLOT_END`) and its connection behind a lock.
pub struct Slot<T> {
    state: usize,
    lock: Lock<Option<T>>,
}

/// A fixed table of connection slots whose free slots form a list threaded
/// through their states. Token `i + 1` names slot `i`.
pub struct SlotTable<T> {
    connections: Vec<Slot<T>>,
    next: usize,
}

/// The abstract value of a slot table.
pub struct SlotsView<T> {
    pub next: nat,
    pub states: Seq<usize>,
    pub conns: Seq<Option<T>>,
    pub locked: Seq<bool>,
}

impl<T> View for SlotTable<T> {
    type V = SlotsView<T>;

    closed spec fn view(&self) -> SlotsView<T> {
        SlotsView {
            next: self.next as nat,
            states: self.connections@.map_values(|s: Slot<T>| s.state),
            conns: self.connections@.map_values(|s: Slot<T>| s.lock.value()),
            locked: self.connections@.map_values(|s: Slot<T>| s.lock.is_locked()),
        }
    }
}

/// Whether a table view is sound: `SLOT_COUNT` slots, the free list starts at
/// a slot, and every state is "in use", `SLOT_END` or a slot.
pub open spec fn slots_wf<T>(v: SlotsView<T>) -> bool {
    &&& v.states.len() == SLOT_COUNT
    &&& v.conns.len() == SLOT_COUNT
    &&& v.locked.len() == SLOT_COUNT
    &&& v.next < SLOT_COUNT
    &&& forall|i: int|
        0 <= i < SLOT_COUNT ==> #[trigger] v.states[i] == 0 || v.states[i] == SLOT_END
            || v.states[i] < SLOT_COUNT
}

/// A new table: every slot free and unlocked, each pointing at the next, the
/// last at `SLOT_END`.
pub open spec fn fresh_slots<T>(v: SlotsView<T>) -> bool {
    &&& v.states.len() == SLOT_COUNT
    &&& v.conns.len() == SLOT_COUNT
    &&& v.locked.len() == SLOT_COUNT
    &&& v.next == 0
    &&& forall|i: int|
        0 <= i < SLOT_COUNT ==> #[trigger] v.states[i] == (if i == SLOT_COUNT - 1 {
            SLOT_END
        } else {
            (i + 1) as usize
        })
    &&& forall|i: int| 0 <= i < SLOT_COUNT ==> #[trigger] v.conns[i] is None
    &&& forall|i: int| 0 <= i < SLOT_COUNT ==> !#[trigger] v.locked[i]
}

/// Why the head of the free list cannot be taken, if it cannot: it is
/// marked in use, or it is the last slot, or its lock is held.
pub open spec fn insert_refusal<T>(v: SlotsView<T>) -> Option<SlotError> {
    let idx = v.next as int;
    let nxt = v.states[idx];
    if nxt == 0 {
        Some(SlotError::Busy)
    } else if nxt == SLOT_END {
        Some(SlotError::Full)
    } else if v.locked[idx] {
        Some(SlotError::Locked)
    } else {
        None
    }
}

/// Placing connection `c` in the head of the free list: the slot is marked
/// in use, the slot it named becomes the head, and the token is the slot's
/// index plus one.
pub open spec fn insert_spec<T>(v: SlotsView<T>, c: T) -> (SlotsView<T>, usize) {
    let idx = v.next as int;
    (
        SlotsView {
            next: v.states[idx] as nat,
            states: v.states.update(idx, 0),
            conns: v.conns.update(idx, Some(c)),
            locked: v.locked,
        },
        (idx + 1) as usize,
    )
}

/// Freeing the slot of `token`: it becomes the head of the free list.
pub open spec fn remove_spec<T>(v: SlotsView<T>, token: usize) -> SlotsView<T> {
    let idx = token - 1;
    SlotsView { next: idx as nat, states: v.states.update(idx, v.next as usize), ..v }
}

/// Updating one element and then mapping equals mapping and then updating.
proof fn lemma_map_update<A, B>(s: Seq<A>, i: int, x: A, f: spec_fn(A) -> B)
    requires
        0 <= i < s.len(),
    ensures
        s.update(i, x).map_values(f) == s.map_values(f).update(i, f(x)),
{
    assert(s.update(i, x).map_values(f) =~= s.map_values(f).update(i, f(x)));
}

/// A token that `insert` hands out names a slot, never the listener's token 0;
/// freeing that slot right after clearing it gives back the table as it was.
pub proof fn lemma_remove_undoes_insert<T>(v: SlotsView<T>, c: T)
    requires
        slots_wf(v),
        insert_refusal(v) is None,
        v.conns[v.next as int] is None,
    ensures
        ({
            let (w, t) = insert_spec(v, c);
            &&& 1 <= t <= SLOT_COUNT
            &&& slots_wf(w)
            &&& remove_spec(SlotsView { conns: w.conns.update(t - 1, None), ..w }, t) == v
        }),
{
    let (w, t) = insert_spec(v, c);
    let u = remove_spec(SlotsView { conns: w.conns.update(t - 1, None), ..w }, t);
    assert(u.states =~= v.states);
    assert(u.conns =~= v.conns);
}

/// A freed slot is the next one taken: right after freeing the slot of
/// `token` (whose lock is free) while the head of the free list is a slot,
/// placing a connection takes that slot again, hands out the same token and
/// makes the old head the head again.
pub proof fn lemma_insert_reuses_removed<T>(v: SlotsView<T>, token: usize, c: T)
    requires
        slots_wf(v),
        1 <= token <= SLOT_COUNT,
        v.next != 0,
        !v.locked[token - 1],
    ensures
        ({
            let u = remove_spec(v, token);
            let (w, t) = insert_spec(u, c);
            &&& slots_wf(u)
            &&& insert_refusal(u) is None
            &&& t == token
            &&& w.next == v.next
            &&& w.states == v.states.update(token - 1, 0)
            &&& w.conns == v.conns.update(token - 1, Some(c))
        }),
{
    let u = remove_spec(v, token);
    let (w, t) = insert_spec(u, c);
    assert(w.states =~= v.states.update(token - 1, 0));
}

/// The table after placing each of `cs` in turn.
pub open spec fn after_inserts<T>(v: SlotsView<T>, cs: Seq<T>) -> SlotsView<T>
    decreases cs.len(),
{
    if cs.len() == 0 {
        v
    } else {
        insert_spec(after_inserts(v, cs.drop_last()), cs.last()).0
    }
}

/// A new table takes `SLOT_COUNT - 1` connections, handing out the tokens
/// 1, 2, ... in order, and then is full.
pub proof fn lemma_fresh_capacity<T>(v: SlotsView<T>, cs: Seq<T>, c: T)
    requires
        fresh_slots(v),
        cs.len() < SLOT_COUNT,
    ensures
        ({
            let u = after_inserts(v, cs);
            &&& cs.len() < SLOT_COUNT - 1 ==> insert_refusal(u) is None && insert_spec(u, c).1 == (
            cs.len() + 1) as usize
            &&& cs.len() == SLOT_COUNT - 1 ==> insert_refusal(u) == Some(SlotError::Full)
        }),
{
    lemma_fresh_prefix(v, cs);
}

proof fn lemma_fresh_prefix<T>(v: SlotsView<T>, cs: Seq<T>)
    requires
        fresh_slots(v),
        cs.len() < SLOT_COUNT,
    ensures
        ({
            let u = after_inserts(v, cs);
            &&& u.next == cs.len()
            &&& u.states.len() == SLOT_COUNT
            &&& u.locked == v.locked
            &&& forall|i: int| cs.len() <= i < SLOT_COUNT ==> #[trigger] u.states[i] == v.states[i]
        }),
    decreases cs.len(),
{
    if cs.len() > 0 {
        lemma_fresh_prefix(v, cs.drop_last());
        let p = after_inserts(v, cs.drop_last());
        assert(p.states[p.next as int] == v.states[p.next as int]);
    }
}

impl<T> SlotTable<T> {
    /// Whether the table is sound: see `slots_wf`.
    pub open spec fn wf(&self) -> bool {
        slots_wf(self@)
    }

    /// Checks that the table is sound; every table built and changed only
    /// through these methods is.
    pub fn is_sound(&self) -> (ok: bool)
        ensures
            ok == self.wf(),
    {
        if self.connections.len() != SLOT_COUNT || self.next >= SLOT_COUNT {
            return false;
        }
        assert(self@.states.len() == SLOT_COUNT);
        let mut i: usize = 0;
        while i < SLOT_COUNT
            invariant
                i <= SLOT_COUNT,
                self.connections@.len() == SLOT_COUNT,
                forall|j: int|
                    0 <= j < i ==> #[trigger] self@.states[j] == 0 || self@.states[j] == SLOT_END
                        || self@.states[j] < SLOT_COUNT,
            decreases SLOT_COUNT - i,
        {
            let st = self.connections[i].state;
            if !(st == 0 || st == SLOT_END || st < SLOT_COUNT) {
                assert(self@.states[i as int] == st);
                return false;
            }
            i = i + 1;
        }
        true
    }

    /// A table of `SLOT_COUNT` free slots.
    pub fn new() -> (t: SlotTable<T>)
        ensures
            t.wf(),
            fresh_slots(t@),
    {
        let mut connections: Vec<Slot<T>> = Vec::new();
        let mut i: usize = 0;
        while i < SLOT_COUNT
            invariant
                i <= SLOT_COUNT,
                connections@.len() == i,
                forall|j: int|
                    0 <= j < i ==> (#[trigger] connections@[j]).state == (if j == SLOT_COUNT - 1 {
                        SLOT_END
                    } else {
                        (j + 1) as usize
                    }) && connections@[j].lock.value() is None && !connections@[j].lock.is_locked(),
            decreases SLOT_COUNT - i,
        {
            let next = if i == SLOT_COUNT - 1 {
                SLOT_END
            } else {
                i + 1
            };
            connections.push(Slot { state: next, lock: Lock::new(None) });
            i = i + 1;
        }
        SlotTable { connections, next: 0 }
    }

    /// Whether a connection can be placed now, and if not, why.
    pub fn insert_status(&self) -> (r: Result<(), SlotError>)
        requires
            self.wf(),
        ensures
            match insert_refusal(self@) {
                None => r is Ok,
                Some(e) => r == Err::<(), SlotError>(e),
            },
    {
        let idx = self.next;
        let next = self.connections[idx].state;
        if next == 0 {
            Err(SlotError::Busy)
        } else if next == SLOT_END {
            Err(SlotError::Full)
        } else if self.connections[idx].lock.is_held() {
            Err(SlotError::Locked)
        } else {
            Ok(())
        }
    }

    /// Places a connection in the head of the free list and returns its token.
    pub fn insert(&mut self, conn: T) -> (token: usize)
        requires
            old(self).wf(),
            insert_refusal(old(self)@) is None,
        ensures
            final(self).wf(),
            (final(self)@, token) == insert_spec(old(self)@, conn),
    {
        let idx = self.next;
        let next = self.connections[idx].state;
        let ghost v0 = self@;
        let slot = &mut self.connections[idx];
        match slot.lock.try_lock() {
            None => {
                assert(false);
            },
            Some(mut g) => {
                slot.state = 0;
                *g.get_mut() = Some(conn);
                g.release();
            },
        }
        self.next = next;
        proof {
            let v1 = self@;
            let (w, _) = insert_spec(v0, conn);
            assert(v1.states =~= w.states);
            assert(v1.conns =~= w.conns);
            assert(v1.locked =~= w.locked);
        }
        idx + 1
    }

    /// Frees the slot of `token`, making it the head of the free list.
    pub fn remove(&mut self, token: usize)
        requires
            old(self).wf(),
            1 <= token <= SLOT_COUNT,
        ensures
            final(self).wf(),
            final(self)@ == remove_spec(old(self)@, token),
    {
        let idx = token - 1;
        let ghost v0 = self@;
        let next = self.next;
        self.connections[idx].state = next;
        self.next = idx;
        proof {
            let v1 = self@;
            let w = remove_spec(v0, token);
            assert(v1.states =~= w.states);
            assert(v1.conns =~= w.conns);
            assert(v1.locked =~= w.locked);
        }
    }

    /// Locks the slot of `token`: `None` when the token names no slot or the
    /// slot's lock is held; otherwise the holder sees the slot's connection
    /// and what it leaves behind becomes the slot's new state.
    pub fn lock(&mut self, token: usize) -> (g: Option<TryLock<'_, Option<T>>>)
        requires
            old(self).wf(),
        ensures
            !(1 <= token <= SLOT_COUNT) || old(self)@.locked[token - 1] ==> g is None && final(self)@
                == old(self)@ && final(self).wf(),
            (1 <= token <= SLOT_COUNT && !old(self)@.locked[token - 1]) ==> (g matches Some(g)
                && g.lock.value() == old(self)@.conns[token - 1] && final(self).wf() && final(self)@
                == (SlotsView {
                conns: old(self)@.conns.update(token - 1, final(g.lock).value()),
                locked: old(self)@.locked.update(token - 1, final(g.lock).is_locked()),
                ..old(self)@
            })),
    {
        if token == 0 || token > SLOT_COUNT {
            return None;
        }
        let idx = token - 1;
        let ghost old_slots = self.connections@;
        let slot = &mut self.connections[idx];
        let ghost state = slot.state;
        let ghost fs = *final(slot);
        proof {
            lemma_map_update(old_slots, idx as int, fs, |s: Slot<T>| s.state);
            lemma_map_update(old_slots, idx as int, fs, |s: Slot<T>| s.lock.value());
            lemma_map_update(old_slots, idx as int, fs, |s: Slot<T>| s.lock.is_locked());
        }
        let g = slot.lock.try_lock();
        proof {
            assert(fs.state == state);
            if old_slots[idx as int].lock.is_locked() {
                assert(fs == old_slots[idx as int]);
                assert(old_slots.update(idx as int, fs) =~= old_slots);
            }
            assert(old_slots.map_values(|s: Slot<T>| s.state).update(idx as int, state) =~= old_slots.map_values(|s: Slot<T>| s.state));
        }
        g
    }
}

} // verus!
