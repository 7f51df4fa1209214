//! Render-buffer leases composed with host-owned byte storage.

use vstd::prelude::*;
use crate::render_pool::{
    binding_error_text, transition_error_text,
    acquire_error, acquired_index, acquired_slots, cancel_outcome, lease_of, limits_valid, publish_outcome,
    readable_check, recycle_outcome, write_binding, ready_binding, retain_outcome, invalidated, write_lease_check, count_where, leased_to,
    ready_for, retained_by, ReadyRenderBuffer, RenderBufferAcquireError, RenderBufferId, RenderBufferPool,
    RenderBufferPoolLimits, RenderBufferTransitionError, RenderRasterBindingError, RenderRasterDescriptor,
    RenderScope, RenderScopeInvalidation, RenderWriteLease, Slot, SlotState,
};

use crate::text::{decimal, push_decimal, push_text};

verus! {

/// Host-side byte backing for render-buffer slots.
///
/// `prepare_for_write` is the boundary before a lease is exposed to a renderer: an
/// implementation provides at least `capacity_bytes` of host-visible storage for the slot and
/// clears its first `requested_bytes`, so a reused slot never shows an older writer's pixels.
/// `bytes` and `bytes_mut` give a slot's storage as it is held.
pub trait RenderBufferBacking {
    type Error;

    /// The storage a slot holds, if it has any; an implementation that does not describe its
    /// storage holds none as far as its callers know.
    open spec fn slot_bytes(&self, buffer_id: RenderBufferId) -> Option<Seq<u8>> {
        None
    }

    fn prepare_for_write(&mut self, buffer_id: RenderBufferId, capacity_bytes: usize, requested_bytes: usize) -> (r: Result<(), Self::Error>)
        ensures
            r is Ok ==> (final(self).slot_bytes(buffer_id) matches Some(b) && b.len() >= capacity_bytes
                && forall|k: int| 0 <= k < requested_bytes ==> #[trigger] b[k] == 0u8),
            r is Ok ==> forall|o: RenderBufferId| o != buffer_id && #[trigger] old(self).slot_bytes(o) is Some
                ==> final(self).slot_bytes(o) == old(self).slot_bytes(o);

    fn bytes_mut(&mut self, buffer_id: RenderBufferId) -> (r: Option<&mut [u8]>)
        ensures
            match old(self).slot_bytes(buffer_id) {
                None => r is None && forall|o: RenderBufferId| #[trigger] final(self).slot_bytes(o) == old(self).slot_bytes(o),
                Some(b) => r matches Some(s) && s@ == b && final(self).slot_bytes(buffer_id) == Some(final(s)@)
                    && forall|o: RenderBufferId| o != buffer_id ==> #[trigger] final(self).slot_bytes(o) == old(self).slot_bytes(o),
            };

    fn bytes(&self, buffer_id: RenderBufferId) -> (r: Option<&[u8]>)
        ensures
            match self.slot_bytes(buffer_id) {
                None => r is None,
                Some(b) => r matches Some(s) && s@ == b,
            };
}

#[derive(Clone, Copy, Debug, Eq, PartialEq, Structural)]
pub enum InMemoryRenderBufferBackingError {
    RequestedBytesExceedCapacity { requested: usize, capacity: usize },
    SlotTableAllocationFailed { buffer_id: RenderBufferId },
    ByteAllocationFailed { buffer_id: RenderBufferId, capacity: usize },
}

/// `Vec::try_reserve_exact`: asks the allocator for room for exactly `additional` more items.
/// Whatever it answers, the items are unchanged; whether it succeeds is the allocator's.
#[verifier::external_body]
fn vec_try_reserve_exact<T>(v: &mut Vec<T>, additional: usize) -> (r: Result<(), std::collections::TryReserveError>)
    ensures
        final(v)@ == old(v)@,
{
    v.try_reserve_exact(additional)
}

/// The slot table with room for slot `i`: empty byte vectors are appended up to it.
pub open spec fn table_through(t: Seq<Seq<u8>>, i: int) -> Seq<Seq<u8>> {
    if i < t.len() {
        t
    } else {
        t + Seq::new((i + 1 - t.len()) as nat, |_k: int| Seq::<u8>::empty())
    }
}

/// Slot bytes after preparation: grown with zeros to `capacity`, and the first `requested`
/// cleared; the rest is kept.
pub open spec fn prepared_bytes(b: Seq<u8>, capacity: int, requested: int) -> Seq<u8> {
    let len = if b.len() < capacity { capacity } else { b.len() as int };
    Seq::new(len as nat, |k: int| if k < requested { 0u8 } else if k < b.len() { b[k] } else { 0u8 })
}

/// Portable host-owned backing: one growable byte vector per slot.
#[derive(Debug, Default)]
pub struct InMemoryRenderBufferBacking {
    slots: Vec<Vec<u8>>,
}

impl View for InMemoryRenderBufferBacking {
    type V = Seq<Seq<u8>>;

    closed spec fn view(&self) -> Seq<Seq<u8>> {
        self.slots@.map_values(|b: Vec<u8>| b@)
    }
}

impl InMemoryRenderBufferBacking {
    pub fn new() -> (b: Self)
        ensures
            b@ == Seq::<Seq<u8>>::empty(),
    {
        let b = InMemoryRenderBufferBacking { slots: Vec::new() };
        proof {
            assert(b@ =~= Seq::<Seq<u8>>::empty());
        }
        b
    }

    /// The prepared storage length of a slot.
    pub fn capacity_bytes(&self, buffer_id: RenderBufferId) -> (r: Option<usize>)
        ensures
            (buffer_id.0 as int) < self@.len() ==> r == Some(self@[buffer_id.0 as int].len() as usize),
            (buffer_id.0 as int) >= self@.len() ==> r is None,
    {
        let i = buffer_id.get() as usize;
        if i < self.slots.len() {
            Some(self.slots[i].len())
        } else {
            None
        }
    }
}

impl RenderBufferBacking for InMemoryRenderBufferBacking {
    type Error = InMemoryRenderBufferBackingError;

    open spec fn slot_bytes(&self, buffer_id: RenderBufferId) -> Option<Seq<u8>> {
        if (buffer_id.0 as int) < self@.len() {
            Some(self@[buffer_id.0 as int])
        } else {
            None
        }
    }

    fn prepare_for_write(&mut self, buffer_id: RenderBufferId, capacity_bytes: usize, requested_bytes: usize) -> (r: Result<(), Self::Error>)
        ensures
            requested_bytes > capacity_bytes ==> r == Err::<(), InMemoryRenderBufferBackingError>(
                InMemoryRenderBufferBackingError::RequestedBytesExceedCapacity { requested: requested_bytes, capacity: capacity_bytes })
                && final(self)@ == old(self)@,
            r matches Err(InMemoryRenderBufferBackingError::SlotTableAllocationFailed { buffer_id: b }) ==> b == buffer_id
                && requested_bytes <= capacity_bytes && final(self)@ == old(self)@,
            r matches Err(InMemoryRenderBufferBackingError::ByteAllocationFailed { buffer_id: b, capacity: c }) ==> b == buffer_id
                && c == capacity_bytes && requested_bytes <= capacity_bytes && final(self)@ == table_through(old(self)@, buffer_id.0 as int),
            r is Ok ==> requested_bytes <= capacity_bytes && final(self)@ == table_through(old(self)@, buffer_id.0 as int).update(
                buffer_id.0 as int,
                prepared_bytes(table_through(old(self)@, buffer_id.0 as int)[buffer_id.0 as int], capacity_bytes as int, requested_bytes as int),
            ),
    {
        if requested_bytes > capacity_bytes {
            return Err(InMemoryRenderBufferBackingError::RequestedBytesExceedCapacity { requested: requested_bytes, capacity: capacity_bytes });
        }
        let ghost old_view = self@;
        let slot_index = buffer_id.get() as usize;
        if self.slots.len() <= slot_index {
            let through = match slot_index.checked_add(1) {
                Some(n) => n,
                None => {
                    return Err(InMemoryRenderBufferBackingError::SlotTableAllocationFailed { buffer_id });
                },
            };
            let required_slots = through - self.slots.len();
            match vec_try_reserve_exact(&mut self.slots, required_slots) {
                Err(_) => {
                    proof {
                        assert(self@ =~= old_view);
                    }
                    return Err(InMemoryRenderBufferBackingError::SlotTableAllocationFailed { buffer_id });
                },
                Ok(()) => {},
            }
            let ghost start = self.slots@.len();
            while self.slots.len() < through
                invariant
                    start == old_view.len(),
                    start <= self.slots@.len() <= through,
                    through == slot_index + 1,
                    forall|k: int| 0 <= k < start ==> #[trigger] self.slots@[k]@ == old_view[k],
                    forall|k: int| start <= k < self.slots@.len() ==> #[trigger] self.slots@[k]@ == Seq::<u8>::empty(),
                decreases through - self.slots@.len(),
            {
                self.slots.push(Vec::new());
            }
        }
        proof {
            assert(self@ =~= table_through(old_view, slot_index as int));
        }
        let ghost table = self@;
        let ghost table_slots = self.slots@;
        let mut bytes: Vec<u8> = Vec::new();
        self.slots.set_and_swap(slot_index, &mut bytes);
        assert(bytes@ == table[slot_index as int]);
        if bytes.len() < capacity_bytes {
            let additional = capacity_bytes - bytes.len();
            match vec_try_reserve_exact(&mut bytes, additional) {
                Err(_) => {
                    self.slots.set_and_swap(slot_index, &mut bytes);
                    proof {
                        assert(self@ =~= table);
                    }
                    return Err(InMemoryRenderBufferBackingError::ByteAllocationFailed { buffer_id, capacity: capacity_bytes });
                },
                Ok(()) => {},
            }
            let ghost before = bytes@;
            while bytes.len() < capacity_bytes
                invariant
                    before == table[slot_index as int],
                    before.len() <= bytes@.len() <= capacity_bytes,
                    forall|k: int| 0 <= k < before.len() ==> #[trigger] bytes@[k] == before[k],
                    forall|k: int| before.len() <= k < bytes@.len() ==> #[trigger] bytes@[k] == 0u8,
                decreases capacity_bytes - bytes@.len(),
            {
                bytes.push(0u8);
            }
        }
        let ghost grown = bytes@;
        let mut k: usize = 0;
        while k < requested_bytes
            invariant
                grown.len() == bytes@.len(),
                requested_bytes <= capacity_bytes <= grown.len(),
                0 <= k <= requested_bytes,
                forall|j: int| 0 <= j < k ==> #[trigger] bytes@[j] == 0u8,
                forall|j: int| k <= j < grown.len() ==> #[trigger] bytes@[j] == grown[j],
            decreases requested_bytes - k,
        {
            bytes.set(k, 0u8);
            k = k + 1;
        }
        assert(bytes@ =~= prepared_bytes(table[slot_index as int], capacity_bytes as int, requested_bytes as int));
        let ghost swapped = self.slots@;
        self.slots.set(slot_index, bytes);
        proof {
            assert(forall|j: int| 0 <= j < swapped.len() && j != slot_index ==> #[trigger] swapped[j]@ == table[j]);
            assert(self@ =~= table.update(slot_index as int, prepared_bytes(table[slot_index as int], capacity_bytes as int, requested_bytes as int)));
        }
        Ok(())
    }

    fn bytes_mut(&mut self, buffer_id: RenderBufferId) -> (r: Option<&mut [u8]>)
        ensures
            (buffer_id.0 as int) < old(self)@.len() ==> (r matches Some(b) && b@ == old(self)@[buffer_id.0 as int]
                && final(self)@ == old(self)@.update(buffer_id.0 as int, final(b)@)),
            (buffer_id.0 as int) >= old(self)@.len() ==> r is None && final(self)@ == old(self)@,
    {
        let i = buffer_id.get() as usize;
        if i < self.slots.len() {
            Some(self.slots[i].as_mut_slice())
        } else {
            None
        }
    }

    fn bytes(&self, buffer_id: RenderBufferId) -> (r: Option<&[u8]>)
        ensures
            (buffer_id.0 as int) < self@.len() ==> (r matches Some(b) && b@ == self@[buffer_id.0 as int]),
            (buffer_id.0 as int) >= self@.len() ==> r is None,
    {
        let i = buffer_id.get() as usize;
        if i < self.slots.len() {
            Some(self.slots[i].as_slice())
        } else {
            None
        }
    }
}

#[derive(Debug, Eq, PartialEq)]
pub enum BackedRenderBufferAcquireError<BackingError> {
    Pool(RenderBufferAcquireError),
    Backing { error: BackingError, rollback_error: Option<RenderBufferTransitionError> },
}

impl<BackingError> From<RenderBufferAcquireError> for BackedRenderBufferAcquireError<BackingError> {
    fn from(error: RenderBufferAcquireError) -> (r: Self) {
        BackedRenderBufferAcquireError::Pool(error)
    }
}

impl<BackingError> vstd::std_specs::convert::FromSpecImpl<RenderBufferAcquireError> for BackedRenderBufferAcquireError<BackingError> {
    open spec fn obeys_from_spec() -> bool {
        true
    }

    open spec fn from_spec(error: RenderBufferAcquireError) -> Self {
        BackedRenderBufferAcquireError::Pool(error)
    }
}

#[derive(Clone, Copy, Debug, Eq, PartialEq, Structural)]
pub enum RenderBufferAccessError {
    Transition(RenderBufferTransitionError),
    MissingBacking { buffer_id: RenderBufferId },
    BackingTooSmall { buffer_id: RenderBufferId, available: usize, required: usize },
}

impl From<RenderBufferTransitionError> for RenderBufferAccessError {
    fn from(error: RenderBufferTransitionError) -> (r: Self) {
        RenderBufferAccessError::Transition(error)
    }
}

impl vstd::std_specs::convert::FromSpecImpl<RenderBufferTransitionError> for RenderBufferAccessError {
    open spec fn obeys_from_spec() -> bool {
        true
    }

    open spec fn from_spec(error: RenderBufferTransitionError) -> Self {
        RenderBufferAccessError::Transition(error)
    }
}

#[derive(Clone, Copy, Debug, Eq, PartialEq, Structural)]
pub enum RenderRasterBufferAccessError {
    Buffer(RenderBufferAccessError),
    Descriptor(RenderRasterBindingError),
}

impl From<RenderBufferAccessError> for RenderRasterBufferAccessError {
    fn from(error: RenderBufferAccessError) -> (r: Self) {
        RenderRasterBufferAccessError::Buffer(error)
    }
}

impl vstd::std_specs::convert::FromSpecImpl<RenderBufferAccessError> for RenderRasterBufferAccessError {
    open spec fn obeys_from_spec() -> bool {
        true
    }

    open spec fn from_spec(error: RenderBufferAccessError) -> Self {
        RenderRasterBufferAccessError::Buffer(error)
    }
}

impl From<RenderRasterBindingError> for RenderRasterBufferAccessError {
    fn from(error: RenderRasterBindingError) -> (r: Self) {
        RenderRasterBufferAccessError::Descriptor(error)
    }
}

impl vstd::std_specs::convert::FromSpecImpl<RenderRasterBindingError> for RenderRasterBufferAccessError {
    open spec fn obeys_from_spec() -> bool {
        true
    }

    open spec fn from_spec(error: RenderRasterBindingError) -> Self {
        RenderRasterBufferAccessError::Descriptor(error)
    }
}

/// The lease state machine composed with host-owned byte storage. The pool decides every
/// lease; the backing only holds bytes, and is reached only through a live lease or a live
/// publication, sliced to the requested or published prefix.
/// A slot's storage after `data` was written through a lease of `requested` bytes: the lease's
/// bytes, then the rest of the storage as it was.
pub open spec fn written_through(before: Seq<u8>, requested: int, data: Seq<u8>) -> Seq<u8> {
    data + before.subrange(requested, before.len() as int)
}

/// Bytes written through a lease are what a read of its publication gives back: after `data`
/// fills the lease's `requested` bytes, the first `written` bytes of the slot are the first
/// `written` bytes of `data`, whatever the slot held before.
pub proof fn law_read_gives_back_written(before: Seq<u8>, requested: int, data: Seq<u8>, written: int)
    requires
        data.len() == requested,
        requested <= before.len(),
        0 <= written <= requested,
    ensures
        written_through(before, requested, data).len() == before.len(),
        written_through(before, requested, data).subrange(0, written) == data.subrange(0, written),
{
    assert(written_through(before, requested, data).subrange(0, written) =~= data.subrange(0, written));
}

#[derive(Debug)]
pub struct BackedRenderBufferPool<Backing> {
    pool: RenderBufferPool,
    backing: Backing,
}

impl<Backing: RenderBufferBacking> BackedRenderBufferPool<Backing> {
    pub closed spec fn spec_pool(&self) -> RenderBufferPool {
        self.pool
    }

    pub closed spec fn spec_backing(&self) -> Backing {
        self.backing
    }

    pub open spec fn wf(&self) -> bool {
        self.spec_pool().wf()
    }

    pub fn new(limits: RenderBufferPoolLimits, backing: Backing) -> (b: Self)
        requires
            limits_valid(limits),
        ensures
            b.wf(),
            b.spec_pool().spec_limits() == limits,
            b.spec_pool().spec_slots().len() == 0,
            b.spec_backing() == backing,
    {
        BackedRenderBufferPool { pool: RenderBufferPool::new(limits), backing }
    }

    /// Leases a slot and has the backing prepare it. When the backing fails, the fresh lease is
    /// cancelled (which cannot fail), so the slot is available again under its new generation
    /// and the scope's budget is released.
    pub fn acquire(&mut self, scope: RenderScope, requested_bytes: usize) -> (r: Result<RenderWriteLease, BackedRenderBufferAcquireError<Backing::Error>>)
        requires
            old(self).wf(),
        ensures
            final(self).wf(),
            final(self).spec_pool().spec_limits() == old(self).spec_pool().spec_limits(),
            ({
                let slots = old(self).spec_pool().spec_slots();
                let total = old(self).spec_pool().spec_total() as int;
                let limits = old(self).spec_pool().spec_limits();
                let after = acquired_slots(slots, total, limits, scope, requested_bytes);
                let i = acquired_index(slots, total, limits, requested_bytes);
                match acquire_error(slots, total, limits, scope, requested_bytes) {
                    Some(e) => r == Err::<RenderWriteLease, BackedRenderBufferAcquireError<Backing::Error>>(BackedRenderBufferAcquireError::Pool(e))
                        && final(self).spec_pool().spec_slots() == after,
                    None => match r {
                        Ok(lease) => lease_of(lease, after[i], scope, requested_bytes) && final(self).spec_pool().spec_slots() == after,
                        Err(BackedRenderBufferAcquireError::Backing { rollback_error, .. }) => rollback_error is None
                            && final(self).spec_pool().spec_slots() == after.update(i, Slot { state: SlotState::Available, ..after[i] }),
                        Err(BackedRenderBufferAcquireError::Pool(_)) => false,
                    },
                }
            }),
            r matches Ok(lease) ==> (final(self).spec_backing().slot_bytes(lease.spec_id().buffer_id) matches Some(b)
                && b.len() >= lease.spec_capacity()
                && forall|k: int| 0 <= k < lease.spec_requested() ==> #[trigger] b[k] == 0u8),
            r is Ok ==> forall|o: RenderBufferId| o != r->Ok_0.spec_id().buffer_id
                && #[trigger] old(self).spec_backing().slot_bytes(o) is Some
                ==> final(self).spec_backing().slot_bytes(o) == old(self).spec_backing().slot_bytes(o),
            r is Err ==> final(self).spec_backing() == old(self).spec_backing()
                || r matches Err(BackedRenderBufferAcquireError::Backing { .. }),
    {
        let lease = match self.pool.acquire(scope, requested_bytes) {
            Err(e) => {
                return Err(BackedRenderBufferAcquireError::Pool(e));
            },
            Ok(lease) => lease,
        };
        let ghost leased = self.pool.spec_slots();
        match self.backing.prepare_for_write(lease.id().buffer_id(), lease.capacity_bytes(), lease.requested_bytes()) {
            Ok(()) => Ok(lease),
            Err(error) => {
                let rollback_error = match self.pool.cancel(lease.id(), lease.scope()) {
                    Ok(()) => None,
                    Err(e) => Some(e),
                };
                Err(BackedRenderBufferAcquireError::Backing { error, rollback_error })
            },
        }
    }

    /// The requested prefix of a live lease's storage. Refused, with the pool's reason, for a
    /// lease that is not live; refused when the backing has no storage for the slot or less
    /// than the request.
    pub fn write_bytes(&mut self, lease: &RenderWriteLease) -> (r: Result<&mut [u8], RenderBufferAccessError>)
        requires
            old(self).wf(),
        ensures
            final(self).spec_pool() == old(self).spec_pool(),
            match write_lease_check(old(self).spec_pool().spec_slots(), lease.spec_id(), lease.spec_scope()) {
                Err(e) => r == Err::<&mut [u8], RenderBufferAccessError>(RenderBufferAccessError::Transition(e)),
                Ok(()) => match old(self).spec_backing().slot_bytes(lease.spec_id().buffer_id) {
                    None => r == Err::<&mut [u8], RenderBufferAccessError>(
                        RenderBufferAccessError::MissingBacking { buffer_id: lease.spec_id().buffer_id }),
                    Some(before) => if before.len() < lease.spec_requested() {
                        r == Err::<&mut [u8], RenderBufferAccessError>(RenderBufferAccessError::BackingTooSmall {
                            buffer_id: lease.spec_id().buffer_id, available: before.len() as usize, required: lease.spec_requested() })
                    } else {
                        r matches Ok(b) && b@ == before.subrange(0, lease.spec_requested() as int)
                            && final(self).spec_backing().slot_bytes(lease.spec_id().buffer_id)
                                == Some(written_through(before, lease.spec_requested() as int, final(b)@))
                    },
                },
            },
            forall|o: RenderBufferId| o != lease.spec_id().buffer_id
                ==> #[trigger] final(self).spec_backing().slot_bytes(o) == old(self).spec_backing().slot_bytes(o),
            !(r is Ok) ==> forall|o: RenderBufferId| #[trigger] final(self).spec_backing().slot_bytes(o)
                == old(self).spec_backing().slot_bytes(o),
    {
        match self.pool.validate_write_lease(lease) {
            Err(e) => {
                return Err(RenderBufferAccessError::Transition(e));
            },
            Ok(()) => {},
        }
        let buffer_id = lease.id().buffer_id();
        let required = lease.requested_bytes();
        match self.backing.bytes_mut(buffer_id) {
            None => Err(RenderBufferAccessError::MissingBacking { buffer_id }),
            Some(bytes) => {
                if bytes.len() < required {
                    return Err(RenderBufferAccessError::BackingTooSmall { buffer_id, available: bytes.len(), required });
                }
                let (head, _) = bytes.split_at_mut(required);
                Ok(head)
            },
        }
    }

    /// The raster region of a live lease's storage that a descriptor names: the descriptor must
    /// bind to the lease and its range fit host offsets; then the lease's bytes are taken as
    /// `write_bytes` does and sliced to the range.
    pub fn write_raster_bytes(&mut self, lease: &RenderWriteLease, descriptor: RenderRasterDescriptor) -> (r: Result<&mut [u8], RenderRasterBufferAccessError>)
        requires
            old(self).wf(),
        ensures
            final(self).spec_pool() == old(self).spec_pool(),
            match write_binding(descriptor, *lease) {
                Err(e) => r == Err::<&mut [u8], RenderRasterBufferAccessError>(RenderRasterBufferAccessError::Descriptor(e)),
                Ok(()) => if descriptor.spec_range_end() > usize::MAX {
                    r == Err::<&mut [u8], RenderRasterBufferAccessError>(RenderRasterBufferAccessError::Descriptor(
                        RenderRasterBindingError::HostRangeNotRepresentable { offset: descriptor.spec_offset(), byte_length: descriptor.spec_length() }))
                } else {
                    match write_lease_check(old(self).spec_pool().spec_slots(), lease.spec_id(), lease.spec_scope()) {
                        Err(e) => r == Err::<&mut [u8], RenderRasterBufferAccessError>(
                            RenderRasterBufferAccessError::Buffer(RenderBufferAccessError::Transition(e))),
                        Ok(()) => match old(self).spec_backing().slot_bytes(lease.spec_id().buffer_id) {
                            None => r == Err::<&mut [u8], RenderRasterBufferAccessError>(RenderRasterBufferAccessError::Buffer(
                                RenderBufferAccessError::MissingBacking { buffer_id: lease.spec_id().buffer_id })),
                            Some(before) => if before.len() < lease.spec_requested() {
                                r == Err::<&mut [u8], RenderRasterBufferAccessError>(RenderRasterBufferAccessError::Buffer(
                                    RenderBufferAccessError::BackingTooSmall { buffer_id: lease.spec_id().buffer_id,
                                        available: before.len() as usize, required: lease.spec_requested() }))
                            } else {
                                r matches Ok(b) && b@ == before.subrange(descriptor.spec_offset() as int, descriptor.spec_range_end())
                                    && final(self).spec_backing().slot_bytes(lease.spec_id().buffer_id) == Some(
                                        before.subrange(0, descriptor.spec_offset() as int) + final(b)@
                                            + before.subrange(descriptor.spec_range_end(), before.len() as int))
                            },
                        },
                    }
                },
            },
    {
        match descriptor.validate_write_lease(lease) {
            Err(e) => {
                return Err(RenderRasterBufferAccessError::Descriptor(e));
            },
            Ok(()) => {},
        }
        let (start, end) = match descriptor.host_range() {
            Err(e) => {
                return Err(RenderRasterBufferAccessError::Descriptor(e));
            },
            Ok(range) => range,
        };
        let bytes = match self.write_bytes(lease) {
            Err(e) => {
                return Err(RenderRasterBufferAccessError::Buffer(e));
            },
            Ok(bytes) => bytes,
        };
        let (through_end, _) = bytes.split_at_mut(end);
        let (_, region) = through_end.split_at_mut(start);
        Ok(region)
    }

    /// Publishes `written_bytes` under a live lease, as the pool does.
    pub fn publish(&mut self, lease: &RenderWriteLease, written_bytes: usize) -> (r: Result<ReadyRenderBuffer, RenderBufferTransitionError>)
        requires
            old(self).wf(),
        ensures
            final(self).wf(),
            final(self).spec_pool().spec_limits() == old(self).spec_pool().spec_limits(),
            final(self).spec_backing() == old(self).spec_backing(),
            match publish_outcome(old(self).spec_pool().spec_slots(), lease.spec_id(), lease.spec_scope(), written_bytes) {
                Err(e) => r == Err::<ReadyRenderBuffer, RenderBufferTransitionError>(e) && final(self).spec_pool() == old(self).spec_pool(),
                Ok(after) => {
                    &&& final(self).spec_pool().spec_slots() == after
                    &&& r matches Ok(ready)
                    &&& ready.spec_id() == lease.spec_id()
                    &&& ready.spec_scope() == lease.spec_scope()
                    &&& ready.spec_capacity() == old(self).spec_pool().spec_slots()[lease.spec_id().buffer_id.0 as int].capacity_bytes
                    &&& ready.spec_written() == written_bytes
                },
            },
    {
        self.pool.publish(lease.id(), lease.scope(), written_bytes)
    }

    /// The published prefix of a readable buffer's storage. Refused, with the pool's reason,
    /// for a token that is no longer readable; refused when the backing has no storage for the
    /// slot or less than the published length.
    pub fn read_bytes(&self, ready: &ReadyRenderBuffer) -> (r: Result<&[u8], RenderBufferAccessError>)
        requires
            self.wf(),
        ensures
            match readable_check(self.spec_pool().spec_slots(), ready.spec_id(), ready.spec_scope()) {
                Err(e) => r == Err::<&[u8], RenderBufferAccessError>(RenderBufferAccessError::Transition(e)),
                Ok(()) => match self.spec_backing().slot_bytes(ready.spec_id().buffer_id) {
                    None => r == Err::<&[u8], RenderBufferAccessError>(
                        RenderBufferAccessError::MissingBacking { buffer_id: ready.spec_id().buffer_id }),
                    Some(b) => if b.len() < ready.spec_written() {
                        r == Err::<&[u8], RenderBufferAccessError>(RenderBufferAccessError::BackingTooSmall {
                            buffer_id: ready.spec_id().buffer_id, available: b.len() as usize, required: ready.spec_written() })
                    } else {
                        r matches Ok(s) && s@ == b.subrange(0, ready.spec_written() as int)
                    },
                },
            },
    {
        match self.pool.validate_readable_buffer(ready) {
            Err(e) => {
                return Err(RenderBufferAccessError::Transition(e));
            },
            Ok(()) => {},
        }
        let buffer_id = ready.id().buffer_id();
        let required = ready.written_bytes();
        match self.backing.bytes(buffer_id) {
            None => Err(RenderBufferAccessError::MissingBacking { buffer_id }),
            Some(bytes) => {
                if bytes.len() < required {
                    return Err(RenderBufferAccessError::BackingTooSmall { buffer_id, available: bytes.len(), required });
                }
                let (head, _) = bytes.split_at(required);
                Ok(head)
            },
        }
    }

    /// The raster region of a readable buffer that a descriptor names: the descriptor must bind
    /// to the publication and its range fit host offsets; then the bytes are taken as
    /// `read_bytes` does and sliced to the range.
    pub fn read_raster_bytes(&self, ready: &ReadyRenderBuffer, descriptor: RenderRasterDescriptor) -> (r: Result<&[u8], RenderRasterBufferAccessError>)
        requires
            self.wf(),
        ensures
            match ready_binding(descriptor, *ready) {
                Err(e) => r == Err::<&[u8], RenderRasterBufferAccessError>(RenderRasterBufferAccessError::Descriptor(e)),
                Ok(()) => if descriptor.spec_range_end() > usize::MAX {
                    r == Err::<&[u8], RenderRasterBufferAccessError>(RenderRasterBufferAccessError::Descriptor(
                        RenderRasterBindingError::HostRangeNotRepresentable { offset: descriptor.spec_offset(), byte_length: descriptor.spec_length() }))
                } else {
                    match readable_check(self.spec_pool().spec_slots(), ready.spec_id(), ready.spec_scope()) {
                        Err(e) => r == Err::<&[u8], RenderRasterBufferAccessError>(
                            RenderRasterBufferAccessError::Buffer(RenderBufferAccessError::Transition(e))),
                        Ok(()) => match self.spec_backing().slot_bytes(ready.spec_id().buffer_id) {
                            None => r == Err::<&[u8], RenderRasterBufferAccessError>(RenderRasterBufferAccessError::Buffer(
                                RenderBufferAccessError::MissingBacking { buffer_id: ready.spec_id().buffer_id })),
                            Some(b) => if b.len() < ready.spec_written() {
                                r == Err::<&[u8], RenderRasterBufferAccessError>(RenderRasterBufferAccessError::Buffer(
                                    RenderBufferAccessError::BackingTooSmall { buffer_id: ready.spec_id().buffer_id,
                                        available: b.len() as usize, required: ready.spec_written() }))
                            } else {
                                r matches Ok(s) && s@ == b.subrange(descriptor.spec_offset() as int, descriptor.spec_range_end())
                            },
                        },
                    }
                },
            },
    {
        match descriptor.validate_ready_buffer(ready) {
            Err(e) => {
                return Err(RenderRasterBufferAccessError::Descriptor(e));
            },
            Ok(()) => {},
        }
        let (start, end) = match descriptor.host_range() {
            Err(e) => {
                return Err(RenderRasterBufferAccessError::Descriptor(e));
            },
            Ok(range) => range,
        };
        let bytes = match self.read_bytes(ready) {
            Err(e) => {
                return Err(RenderRasterBufferAccessError::Buffer(e));
            },
            Ok(bytes) => bytes,
        };
        let (through_end, _) = bytes.split_at(end);
        let (_, region) = through_end.split_at(start);
        Ok(region)
    }

    /// Retains a ready buffer, as the pool does.
    pub fn retain(&mut self, ready: &ReadyRenderBuffer) -> (r: Result<(), RenderBufferTransitionError>)
        requires
            old(self).wf(),
        ensures
            final(self).wf(),
            final(self).spec_pool().spec_limits() == old(self).spec_pool().spec_limits(),
            final(self).spec_backing() == old(self).spec_backing(),
            match retain_outcome(old(self).spec_pool().spec_slots(), ready.spec_id(), ready.spec_scope()) {
                Err(e) => r == Err::<(), RenderBufferTransitionError>(e) && final(self).spec_pool() == old(self).spec_pool(),
                Ok(after) => r is Ok && final(self).spec_pool().spec_slots() == after,
            },
    {
        self.pool.retain(ready.id(), ready.scope())
    }

    /// Recycles a ready or retained buffer, as the pool does.
    pub fn recycle(&mut self, ready: &ReadyRenderBuffer) -> (r: Result<(), RenderBufferTransitionError>)
        requires
            old(self).wf(),
        ensures
            final(self).wf(),
            final(self).spec_pool().spec_limits() == old(self).spec_pool().spec_limits(),
            final(self).spec_backing() == old(self).spec_backing(),
            match recycle_outcome(old(self).spec_pool().spec_slots(), ready.spec_id(), ready.spec_scope()) {
                Err(e) => r == Err::<(), RenderBufferTransitionError>(e) && final(self).spec_pool() == old(self).spec_pool(),
                Ok(after) => r is Ok && final(self).spec_pool().spec_slots() == after,
            },
    {
        self.pool.recycle(ready.id(), ready.scope())
    }

    /// Cancels a live lease, as the pool does.
    pub fn cancel(&mut self, lease: &RenderWriteLease) -> (r: Result<(), RenderBufferTransitionError>)
        requires
            old(self).wf(),
        ensures
            final(self).wf(),
            final(self).spec_pool().spec_limits() == old(self).spec_pool().spec_limits(),
            final(self).spec_backing() == old(self).spec_backing(),
            match cancel_outcome(old(self).spec_pool().spec_slots(), lease.spec_id(), lease.spec_scope()) {
                Err(e) => r == Err::<(), RenderBufferTransitionError>(e) && final(self).spec_pool() == old(self).spec_pool(),
                Ok(after) => r is Ok && final(self).spec_pool().spec_slots() == after,
            },
    {
        self.pool.cancel(lease.id(), lease.scope())
    }

    /// Reclaims every slot of `scope`, as the pool does.
    pub fn invalidate_scope(&mut self, scope: &RenderScope) -> (r: RenderScopeInvalidation)
        requires
            old(self).wf(),
        ensures
            final(self).wf(),
            final(self).spec_pool().spec_limits() == old(self).spec_pool().spec_limits(),
            final(self).spec_backing() == old(self).spec_backing(),
            final(self).spec_pool().spec_slots() == invalidated(old(self).spec_pool().spec_slots(), *scope),
            r.leased_reclaimed == count_where(old(self).spec_pool().spec_slots(), leased_to(*scope)),
            r.ready_reclaimed == count_where(old(self).spec_pool().spec_slots(), ready_for(*scope)),
            r.retained_reclaimed == count_where(old(self).spec_pool().spec_slots(), retained_by(*scope)),
    {
        self.pool.invalidate_scope(scope)
    }

    pub fn pool(&self) -> (p: &RenderBufferPool)
        ensures
            *p == self.spec_pool(),
    {
        &self.pool
    }

    pub fn backing(&self) -> (b: &Backing)
        ensures
            *b == self.spec_backing(),
    {
        &self.backing
    }
}

/// The diagnostic text of an in-memory backing failure.
pub open spec fn backing_error_text(e: InMemoryRenderBufferBackingError) -> Seq<char> {
    match e {
        InMemoryRenderBufferBackingError::RequestedBytesExceedCapacity { requested, capacity } => "render backing request "@ + decimal(requested as nat) + " exceeds slot capacity "@ + decimal(capacity as nat),
        InMemoryRenderBufferBackingError::SlotTableAllocationFailed { buffer_id } => "could not allocate render backing slot table through buffer "@ + decimal(buffer_id.0 as nat),
        InMemoryRenderBufferBackingError::ByteAllocationFailed { buffer_id, capacity } => "could not allocate "@ + decimal(capacity as nat) + " bytes for render buffer "@ + decimal(buffer_id.0 as nat),
    }
}

impl InMemoryRenderBufferBackingError {
    /// The diagnostic text of the error.
    pub fn message(&self) -> (m: String)
        ensures
            m@ == backing_error_text(*self),
    {
        let mut m = String::new();
        match *self {
            InMemoryRenderBufferBackingError::RequestedBytesExceedCapacity { requested, capacity } => {
                push_text(&mut m, "render backing request ");
                push_decimal(&mut m, requested as u64);
                push_text(&mut m, " exceeds slot capacity ");
                push_decimal(&mut m, capacity as u64);
            },
            InMemoryRenderBufferBackingError::SlotTableAllocationFailed { buffer_id } => {
                push_text(&mut m, "could not allocate render backing slot table through buffer ");
                push_decimal(&mut m, buffer_id.0 as u64);
            },
            InMemoryRenderBufferBackingError::ByteAllocationFailed { buffer_id, capacity } => {
                push_text(&mut m, "could not allocate ");
                push_decimal(&mut m, capacity as u64);
                push_text(&mut m, " bytes for render buffer ");
                push_decimal(&mut m, buffer_id.0 as u64);
            },
        }
        proof {
            assert(m@ =~= backing_error_text(*self));
        }
        m
    }
}

/// The diagnostic text of refused buffer access.
pub open spec fn access_error_text(e: RenderBufferAccessError) -> Seq<char> {
    match e {
        RenderBufferAccessError::Transition(error) => transition_error_text(error),
        RenderBufferAccessError::MissingBacking { buffer_id } => "render buffer "@ + decimal(buffer_id.0 as nat) + " has no prepared host backing"@,
        RenderBufferAccessError::BackingTooSmall { buffer_id, available, required } => "render buffer "@ + decimal(buffer_id.0 as nat) + " backing has "@ + decimal(available as nat) + " bytes, requires "@ + decimal(required as nat),
    }
}

impl RenderBufferAccessError {
    /// The diagnostic text of the error.
    pub fn message(&self) -> (m: String)
        ensures
            m@ == access_error_text(*self),
    {
        let mut m = String::new();
        match *self {
            RenderBufferAccessError::Transition(error) => {
                let text = error.message();
                push_text(&mut m, text.as_str());
            },
            RenderBufferAccessError::MissingBacking { buffer_id } => {
                push_text(&mut m, "render buffer ");
                push_decimal(&mut m, buffer_id.0 as u64);
                push_text(&mut m, " has no prepared host backing");
            },
            RenderBufferAccessError::BackingTooSmall { buffer_id, available, required } => {
                push_text(&mut m, "render buffer ");
                push_decimal(&mut m, buffer_id.0 as u64);
                push_text(&mut m, " backing has ");
                push_decimal(&mut m, available as u64);
                push_text(&mut m, " bytes, requires ");
                push_decimal(&mut m, required as u64);
            },
        }
        proof {
            assert(m@ =~= access_error_text(*self));
        }
        m
    }
}

/// The diagnostic text of refused raster access.
pub open spec fn raster_access_error_text(e: RenderRasterBufferAccessError) -> Seq<char> {
    match e {
        RenderRasterBufferAccessError::Buffer(error) => access_error_text(error),
        RenderRasterBufferAccessError::Descriptor(error) => binding_error_text(error),
    }
}

impl RenderRasterBufferAccessError {
    /// The diagnostic text of the error.
    pub fn message(&self) -> (m: String)
        ensures
            m@ == raster_access_error_text(*self),
    {
        let mut m = String::new();
        match *self {
            RenderRasterBufferAccessError::Buffer(error) => {
                let text = error.message();
                push_text(&mut m, text.as_str());
            },
            RenderRasterBufferAccessError::Descriptor(error) => {
                let text = error.message();
                push_text(&mut m, text.as_str());
            },
        }
        proof {
            assert(m@ =~= raster_access_error_text(*self));
        }
        m
    }
}

} // verus!
