use vstd::prelude::*;

verus! {

/// One slot of the heap: either free, or a live allocation with its
/// reference count and its payload bytes.
#[derive(Debug)]
pub enum Slot {
    Free,
    Live { rc: usize, data: Vec<u8> },
}

/// The mathematical model of a heap slot.
pub ghost enum SlotModel {
    Free,
    Live { rc: nat, data: Seq<u8> },
}

impl View for Slot {
    type V = SlotModel;

    open spec fn view(&self) -> SlotModel {
        match self {
            Slot::Free => SlotModel::Free,
            Slot::Live { rc, data } => SlotModel::Live { rc: *rc as nat, data: data@ },
        }
    }
}

/// Whether slot `i` of heap model `h` is a live allocation.
pub open spec fn slot_live(h: Seq<SlotModel>, i: nat) -> bool {
    i < h.len() && h[i as int] is Live
}

/// The reference count of slot `i` (zero for a free slot).
pub open spec fn slot_rc(h: Seq<SlotModel>, i: nat) -> nat {
    match h[i as int] {
        SlotModel::Live { rc, .. } => rc,
        SlotModel::Free => 0,
    }
}

/// The payload bytes of slot `i` (empty for a free slot).
pub open spec fn slot_data(h: Seq<SlotModel>, i: nat) -> Seq<u8> {
    match h[i as int] {
        SlotModel::Live { data, .. } => data,
        SlotModel::Free => Seq::empty(),
    }
}

/// Allocating appends a fresh live slot with reference count one.
pub open spec fn heap_alloc(h: Seq<SlotModel>, data: Seq<u8>) -> Seq<SlotModel> {
    h.push(SlotModel::Live { rc: 1, data })
}

/// Cloning a handle increments the reference count of its slot.
pub open spec fn heap_clone(h: Seq<SlotModel>, i: nat) -> Seq<SlotModel> {
    h.update(i as int, SlotModel::Live { rc: slot_rc(h, i) + 1, data: slot_data(h, i) })
}

/// Dropping a handle decrements the reference count of its slot, freeing the
/// slot exactly when the count reaches zero.
pub open spec fn heap_drop(h: Seq<SlotModel>, i: nat) -> Seq<SlotModel> {
    if slot_rc(h, i) > 1 {
        h.update(i as int, SlotModel::Live { rc: (slot_rc(h, i) - 1) as nat, data: slot_data(h, i) })
    } else {
        h.update(i as int, SlotModel::Free)
    }
}

/// The heap backing all `Object` handles: a growable arena of
/// reference-counted slots. The payloads are acyclic by construction (a slot
/// holds raw bytes, never a handle), so reference counting frees every
/// unreachable allocation.
#[derive(Debug)]
pub struct Heap {
    slots: Vec<Slot>,
}

impl View for Heap {
    type V = Seq<SlotModel>;

    closed spec fn view(&self) -> Seq<SlotModel> {
        self.slots@.map_values(|s: Slot| s@)
    }
}

impl Heap {
    /// An empty heap with no allocations.
    pub fn new() -> (h: Heap)
        ensures
            h@ =~= Seq::<SlotModel>::empty(),
    {
        Heap { slots: Vec::new() }
    }

    /// Whether the handle points at a live allocation of this heap.
    pub fn is_live(&self, o: Object) -> (r: bool)
        ensures
            r == slot_live(self@, o.index as nat),
    {
        o.index < self.slots.len() && match &self.slots[o.index] {
            Slot::Live { .. } => true,
            Slot::Free => false,
        }
    }

    /// The reference count of a live allocation.
    pub fn ref_count(&self, o: Object) -> (r: usize)
        requires
            slot_live(self@, o.index as nat),
        ensures
            r as nat == slot_rc(self@, o.index as nat),
    {
        match &self.slots[o.index] {
            Slot::Live { rc, .. } => *rc,
            Slot::Free => 0,
        }
    }

    /// The payload bytes of a live allocation.
    pub fn object_bytes(&self, o: Object) -> (r: &Vec<u8>)
        requires
            slot_live(self@, o.index as nat),
        ensures
            r@ == slot_data(self@, o.index as nat),
    {
        match &self.slots[o.index] {
            Slot::Live { data, .. } => data,
            Slot::Free => unreached(),
        }
    }
}

/// A counted handle to a heap object. Copying the handle bits does not change
/// the reference count; `clone_ref` and `drop` manage it explicitly, exactly
/// as the bytecode interpreter requires.
#[derive(Debug, Clone, Copy, PartialEq, Eq, Structural)]
pub struct Object {
    pub index: usize,
}

impl Object {
    /// Allocate a fresh heap object holding `data`, with reference count one.
    pub fn new(heap: &mut Heap, data: Vec<u8>) -> (o: Object)
        ensures
            final(heap)@ == heap_alloc(old(heap)@, data@),
            o.index as nat == old(heap)@.len(),
    {
        let o = Object { index: heap.slots.len() };
        heap.slots.push(Slot::Live { rc: 1, data });
        assert(heap@ =~= heap_alloc(old(heap)@, data@));
        o
    }

    /// Share the allocation: increment its reference count and return a
    /// second handle to the same slot.
    pub fn clone_ref(self, heap: &mut Heap) -> (o: Object)
        requires
            slot_live(old(heap)@, self.index as nat),
            slot_rc(old(heap)@, self.index as nat) < usize::MAX,
        ensures
            final(heap)@ == heap_clone(old(heap)@, self.index as nat),
            o == self,
    {
        let slot = &mut heap.slots[self.index];
        match slot {
            Slot::Live { rc, .. } => {
                *rc = *rc + 1;
            },
            Slot::Free => {
                unreached::<()>();
            },
        }
        assert(heap@ =~= heap_clone(old(heap)@, self.index as nat));
        self
    }

    /// Release the handle: decrement the reference count and free the slot
    /// exactly when this was the last handle.
    pub fn drop(self, heap: &mut Heap)
        requires
            slot_live(old(heap)@, self.index as nat),
        ensures
            final(heap)@ == heap_drop(old(heap)@, self.index as nat),
    {
        let free_it: bool;
        {
            let slot = &mut heap.slots[self.index];
            match slot {
                Slot::Live { rc, .. } => {
                    if *rc > 1 {
                        *rc = *rc - 1;
                        free_it = false;
                    } else {
                        free_it = true;
                    }
                },
                Slot::Free => {
                    unreached::<()>();
                    free_it = true;
                },
            }
        }
        if free_it {
            heap.slots[self.index] = Slot::Free;
        }
        assert(heap@ =~= heap_drop(old(heap)@, self.index as nat));
    }
}

/// Law: cloning a heap object handle and then dropping both the original and
/// the clone leaves the backing slot freed exactly once — the first drop
/// keeps the allocation live with one remaining reference, and only the
/// second drop frees it.
pub proof fn lemma_clone_then_drop_frees_once(h: Seq<SlotModel>, data: Seq<u8>)
    ensures
        ({
            let i = h.len();
            let after_alloc = heap_alloc(h, data);
            let after_clone = heap_clone(after_alloc, i);
            let after_first_drop = heap_drop(after_clone, i);
            let after_second_drop = heap_drop(after_first_drop, i);
            &&& slot_live(after_first_drop, i)
            &&& slot_rc(after_first_drop, i) == 1
            &&& slot_data(after_first_drop, i) == data
            &&& !slot_live(after_second_drop, i)
            &&& after_second_drop == h.push(SlotModel::Free)
        }),
{
    let i = h.len();
    let after_alloc = heap_alloc(h, data);
    let after_clone = heap_clone(after_alloc, i);
    let after_first_drop = heap_drop(after_clone, i);
    let after_second_drop = heap_drop(after_first_drop, i);
    assert(after_second_drop =~= h.push(SlotModel::Free));
}

} // verus!
