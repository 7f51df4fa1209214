use office_document::backed_pool::{
    BackedRenderBufferAcquireError, BackedRenderBufferPool, InMemoryRenderBufferBacking, RenderBufferAccessError,
    RenderBufferBacking, RenderRasterBufferAccessError,
};
use office_document::render_pool::RenderScope as Scope;
use office_document::render_pool::{
    RenderBufferAcquireError, RenderBufferId, RenderBufferPool, RenderBufferPoolLimits, RenderBufferPoolLimitsError,
    RenderBufferSlotState, RenderBufferTransitionError, RenderPixelFormat, RenderRasterBindingError,
    RenderRasterDescriptor, RenderRasterDescriptorError, RenderScopeInvalidation, RenderWriteLease,
    UnsupportedRenderPixelFormat,
};

fn limits(max_total_bytes: usize, max_slots: usize, max_slot_bytes: usize, max_outstanding_leases_per_scope: usize) -> RenderBufferPoolLimits {
    RenderBufferPoolLimits::new(max_total_bytes, max_slots, max_slot_bytes, max_outstanding_leases_per_scope)
        .expect("test limits must be valid")
}

#[test]
fn invalid_limits_are_rejected_before_pool_creation() {
    assert_eq!(RenderBufferPoolLimits::new(0, 1, 1, 1), Err(RenderBufferPoolLimitsError::ZeroTotalBytes));
    assert_eq!(RenderBufferPoolLimits::new(1, 0, 1, 1), Err(RenderBufferPoolLimitsError::ZeroSlots));
    assert_eq!(RenderBufferPoolLimits::new(8, 1, 0, 1), Err(RenderBufferPoolLimitsError::ZeroSlotBytes));
    assert_eq!(RenderBufferPoolLimits::new(8, 1, 9, 1), Err(RenderBufferPoolLimitsError::SlotExceedsTotalBudget));
    assert_eq!(RenderBufferPoolLimits::new(8, 1, 8, 0), Err(RenderBufferPoolLimitsError::ZeroOutstandingLeasesPerScope));
}

#[test]
fn acquisition_is_bounded_by_request_and_per_scope_limits() {
    let mut pool = RenderBufferPool::new(limits(256, 4, 128, 1));
    let scope = Scope(7);

    assert_eq!(pool.acquire(scope, 0), Err(RenderBufferAcquireError::ZeroByteRequest));
    assert_eq!(pool.acquire(scope, 129), Err(RenderBufferAcquireError::RequestExceedsSlotLimit { requested: 129, limit: 128 }));

    let first = pool.acquire(scope, 64).expect("first lease must fit");
    assert_eq!(pool.acquire(scope, 32), Err(RenderBufferAcquireError::ScopeLeaseLimitReached { limit: 1 }));

    pool.cancel(first.id(), &scope).expect("cancelling current lease must succeed");
    assert!(pool.acquire(scope, 32).is_ok());
}

#[test]
fn ready_and_retained_lifecycle_recycles_capacity_without_reallocation() {
    let mut pool = RenderBufferPool::new(limits(512, 4, 256, 2));
    let scope = Scope(1);

    let lease = pool.acquire(scope, 128).expect("lease must fit");
    let id = lease.id();
    assert_eq!(pool.slot_state(id.buffer_id()), Some(RenderBufferSlotState::Leased));

    let ready = pool.publish(id, &scope, 96).expect("valid completion must publish");
    assert_eq!(ready.written_bytes(), 96);
    assert_eq!(pool.slot_state(id.buffer_id()), Some(RenderBufferSlotState::Ready));
    assert_eq!(pool.slot_written_bytes(id.buffer_id()), Some(96));

    pool.retain(id, &scope).expect("ready buffer must be retainable");
    assert_eq!(pool.slot_state(id.buffer_id()), Some(RenderBufferSlotState::Retained));
    assert_eq!(pool.slot_written_bytes(id.buffer_id()), Some(96));

    pool.recycle(id, &scope).expect("retained buffer must be recyclable");
    assert_eq!(pool.slot_state(id.buffer_id()), Some(RenderBufferSlotState::Available));
    assert_eq!(pool.slot_written_bytes(id.buffer_id()), None);

    let reused = pool.acquire(scope, 64).expect("capacity must be reusable");
    assert_eq!(reused.id().buffer_id(), id.buffer_id());
    assert!(reused.id().generation() > id.generation());
    assert_eq!(pool.stats().slot_count, 1);
}

#[test]
fn stale_completion_cannot_publish_into_a_reused_slot() {
    let mut pool = RenderBufferPool::new(limits(128, 1, 128, 1));
    let scope = Scope(3);

    let first = pool.acquire(scope, 64).expect("first lease must fit");
    let stale_id = first.id();
    pool.cancel(stale_id, &scope).expect("first lease must cancel");

    let second = pool.acquire(scope, 64).expect("slot must be reusable");
    assert_eq!(second.id().buffer_id(), stale_id.buffer_id());
    assert!(second.id().generation() > stale_id.generation());

    let error = pool.publish(stale_id, &scope, 64).expect_err("stale generation must not publish");
    assert_eq!(
        error,
        RenderBufferTransitionError::StaleLease {
            buffer_id: stale_id.buffer_id(),
            expected_generation: second.id().generation(),
            actual_generation: stale_id.generation(),
        }
    );

    pool.publish(second.id(), &scope, 64).expect("current generation must still publish");
}

#[test]
fn wrong_scope_never_completes_or_recycles_another_scope_buffer() {
    let mut pool = RenderBufferPool::new(limits(256, 2, 128, 2));
    let owner = Scope(11);
    let stranger = Scope(12);

    let lease = pool.acquire(owner, 64).expect("lease must fit");
    assert_eq!(pool.publish(lease.id(), &stranger, 64), Err(RenderBufferTransitionError::WrongScope));

    let ready = pool.publish(lease.id(), &owner, 64).expect("owner completion must succeed");
    assert_eq!(pool.recycle(ready.id(), &stranger), Err(RenderBufferTransitionError::WrongScope));
    pool.recycle(ready.id(), &owner).expect("owner recycle must succeed");
}

#[test]
fn failed_completion_validation_does_not_consume_the_live_lease() {
    let mut pool = RenderBufferPool::new(limits(128, 1, 128, 1));
    let scope = Scope(9);
    let lease = pool.acquire(scope, 80).expect("lease must fit");

    assert_eq!(pool.publish(lease.id(), &scope, 0), Err(RenderBufferTransitionError::ZeroByteCompletion));
    assert_eq!(
        pool.publish(lease.id(), &scope, 81),
        Err(RenderBufferTransitionError::CompletionExceedsRequest { written: 81, requested: 80 })
    );
    assert_eq!(pool.slot_state(lease.id().buffer_id()), Some(RenderBufferSlotState::Leased));

    pool.publish(lease.id(), &scope, 80).expect("valid retry must publish");
}

#[test]
fn scope_invalidation_reclaims_leased_ready_and_retained_slots() {
    let mut pool = RenderBufferPool::new(limits(384, 3, 128, 3));
    let scope = Scope(21);

    let leased = pool.acquire(scope, 128).expect("leased slot");
    let ready_lease = pool.acquire(scope, 128).expect("ready slot");
    let retained_lease = pool.acquire(scope, 128).expect("retained slot");

    pool.publish(ready_lease.id(), &scope, 128).expect("ready publication");
    pool.publish(retained_lease.id(), &scope, 128).expect("retained publication");
    pool.retain(retained_lease.id(), &scope).expect("retain must succeed");

    let reclaimed = pool.invalidate_scope(&scope);
    assert_eq!(reclaimed, RenderScopeInvalidation { leased_reclaimed: 1, ready_reclaimed: 1, retained_reclaimed: 1 });
    assert_eq!(reclaimed.reclaimed_slots(), 3);

    let stats = pool.stats();
    assert_eq!(stats.available_slots, 3);
    assert_eq!(stats.leased_slots, 0);
    assert_eq!(stats.ready_slots, 0);
    assert_eq!(stats.retained_slots, 0);

    let replacement = pool.acquire(scope, 128).expect("scope budget must be reset after invalidation");
    assert!(replacement.id().generation() > leased.id().generation());
}

#[test]
fn pool_growth_obeys_total_bytes_and_slot_count() {
    let mut pool = RenderBufferPool::new(limits(100, 2, 80, 2));
    let first_scope = Scope(31);
    let second_scope = Scope(32);

    let small = pool.acquire(first_scope, 60).expect("initial slot");
    pool.cancel(small.id(), &first_scope).expect("initial slot cancel");

    let grown = pool.acquire(first_scope, 80).expect("slot can grow");
    assert_eq!(grown.capacity_bytes(), 80);
    assert_eq!(pool.stats().total_capacity_bytes, 80);

    let second = pool.acquire(second_scope, 20).expect("remaining budget");
    assert_eq!(second.capacity_bytes(), 20);
    assert_eq!(pool.stats().total_capacity_bytes, 100);
    assert_eq!(pool.stats().slot_count, 2);

    assert_eq!(pool.acquire(Scope(33), 1), Err(RenderBufferAcquireError::PoolExhausted));
}

fn descriptor_for(lease: &RenderWriteLease, offset_bytes: u64, byte_length: u64, width: u32, height: u32, stride_bytes: u32) -> RenderRasterDescriptor {
    RenderRasterDescriptor::new(
        lease.id().buffer_id().get(),
        lease.id().generation().get(),
        u64::try_from(lease.capacity_bytes()).expect("test capacity fits u64"),
        offset_bytes,
        byte_length,
        width,
        height,
        stride_bytes,
        RenderPixelFormat::Rgba8,
    )
    .expect("test descriptor must be structurally valid")
}

#[test]
fn pixel_format_wire_values_are_explicit_and_unknown_values_are_rejected() {
    assert_eq!(RenderPixelFormat::try_from(1), Ok(RenderPixelFormat::Rgba8));
    assert_eq!(RenderPixelFormat::try_from(2), Ok(RenderPixelFormat::Bgra8));
    assert_eq!(RenderPixelFormat::try_from(3), Err(UnsupportedRenderPixelFormat(3)));
}

#[test]
fn raster_descriptor_validates_geometry_and_capacity_before_lease_binding() {
    let descriptor = RenderRasterDescriptor::new(7, 11, 262_144, 0, 262_144, 256, 256, 1_024, RenderPixelFormat::Rgba8)
        .expect("qualified tile geometry must be valid");
    assert_eq!(descriptor.range_end(), 262_144);

    assert_eq!(
        RenderRasterDescriptor::new(7, 11, 262_144, 0, 262_144, 256, 256, 1_023, RenderPixelFormat::Rgba8),
        Err(RenderRasterDescriptorError::StrideTooSmall { stride: 1_023, minimum: 1_024 })
    );
    assert_eq!(
        RenderRasterDescriptor::new(7, 11, 262_144, 0, 262_143, 256, 256, 1_024, RenderPixelFormat::Rgba8),
        Err(RenderRasterDescriptorError::ByteLengthTooSmall { declared: 262_143, minimum: 262_144 })
    );
    assert_eq!(
        RenderRasterDescriptor::new(7, 11, 262_143, 0, 262_144, 256, 256, 1_024, RenderPixelFormat::Rgba8),
        Err(RenderRasterDescriptorError::RangeExceedsCapacity { range_end: 262_144, capacity: 262_143 })
    );
}

#[test]
fn raster_descriptor_rejects_fixed_width_range_and_geometry_overflow() {
    assert_eq!(
        RenderRasterDescriptor::new(1, 1, u64::MAX, u64::MAX - 3, 4, 1, 1, 4, RenderPixelFormat::Rgba8),
        Err(RenderRasterDescriptorError::RangeOverflow)
    );

    assert_eq!(
        RenderRasterDescriptor::new(1, 1, u64::MAX, 0, u64::MAX, u32::MAX, u32::MAX, u32::MAX, RenderPixelFormat::Rgba8),
        Err(RenderRasterDescriptorError::StrideTooSmall { stride: u32::MAX, minimum: u64::from(u32::MAX) * 4 })
    );
}

#[test]
fn raster_descriptor_binds_exactly_to_live_lease_identity_capacity_and_request() {
    let mut pool = RenderBufferPool::new(limits(1_024, 1, 1_024, 1));
    let scope = Scope(46);
    let warmup = pool.acquire(scope, 768).expect("warmup lease");
    pool.cancel(warmup.id(), &scope).expect("warmup lease must release");
    let lease = pool.acquire(scope, 512).expect("smaller reused lease");
    assert_eq!(lease.capacity_bytes(), 768);

    let valid = descriptor_for(&lease, 128, 256, 32, 2, 128);
    valid.validate_write_lease(&lease).expect("descriptor must fit current lease");

    let wrong_buffer = RenderRasterDescriptor::new(
        lease.id().buffer_id().get() + 1,
        lease.id().generation().get(),
        u64::try_from(lease.capacity_bytes()).expect("capacity fits"),
        128,
        256,
        32,
        2,
        128,
        RenderPixelFormat::Rgba8,
    )
    .expect("structurally valid");
    assert_eq!(
        wrong_buffer.validate_write_lease(&lease),
        Err(RenderRasterBindingError::BufferIdMismatch { declared: lease.id().buffer_id().get() + 1, actual: lease.id().buffer_id() })
    );

    let request_escape = descriptor_for(&lease, 384, 128, 16, 2, 64);
    request_escape.validate_write_lease(&lease).expect("range ending exactly at requested prefix is valid");

    let beyond_request = RenderRasterDescriptor::new(
        lease.id().buffer_id().get(),
        lease.id().generation().get(),
        u64::try_from(lease.capacity_bytes()).expect("capacity fits"),
        448,
        128,
        16,
        2,
        64,
        RenderPixelFormat::Rgba8,
    )
    .expect("descriptor fits capacity");
    assert_eq!(
        beyond_request.validate_write_lease(&lease),
        Err(RenderRasterBindingError::RangeExceedsLeaseRequest { range_end: 576, requested: 512 })
    );
}

#[test]
fn raster_access_is_sliced_to_validated_region_and_published_prefix() {
    let mut buffers = BackedRenderBufferPool::new(limits(1_024, 1, 1_024, 1), InMemoryRenderBufferBacking::new());
    let scope = Scope(47);
    let lease = buffers.acquire(scope, 512).expect("lease");
    let descriptor = descriptor_for(&lease, 128, 256, 32, 2, 128);

    let raster = buffers.write_raster_bytes(&lease, descriptor).expect("raster write region");
    assert_eq!(raster.len(), 256);
    raster.fill(0x5a);

    let ready = buffers.publish(&lease, 384).expect("publish through range end");
    assert_eq!(buffers.read_raster_bytes(&ready, descriptor).expect("published raster region"), vec![0x5a; 256].as_slice());

    let unpublished_descriptor = RenderRasterDescriptor::new(
        ready.id().buffer_id().get(),
        ready.id().generation().get(),
        u64::try_from(ready.capacity_bytes()).expect("capacity fits"),
        256,
        256,
        32,
        2,
        128,
        RenderPixelFormat::Rgba8,
    )
    .expect("descriptor fits capacity");
    assert_eq!(
        buffers.read_raster_bytes(&ready, unpublished_descriptor),
        Err(RenderRasterBufferAccessError::Descriptor(RenderRasterBindingError::RangeExceedsPublishedBytes {
            range_end: 512,
            published: 384,
        }))
    );
}

#[test]
fn stale_descriptor_generation_cannot_reopen_reused_backing() {
    let mut buffers = BackedRenderBufferPool::new(limits(512, 1, 512, 1), InMemoryRenderBufferBacking::new());
    let scope = Scope(48);

    let first = buffers.acquire(scope, 256).expect("first lease");
    let stale_descriptor = descriptor_for(&first, 0, 256, 32, 2, 128);
    buffers.cancel(&first).expect("cancel first lease");
    let second = buffers.acquire(scope, 256).expect("second lease");

    assert_eq!(
        buffers.write_raster_bytes(&second, stale_descriptor),
        Err(RenderRasterBufferAccessError::Descriptor(RenderRasterBindingError::LeaseGenerationMismatch {
            declared: first.id().generation().get(),
            actual: second.id().generation(),
        }))
    );
}

#[derive(Debug, Default)]
struct RejectingBacking {
    attempts: usize,
}

#[derive(Clone, Copy, Debug, Eq, PartialEq)]
struct RejectingBackingError;

impl RenderBufferBacking for RejectingBacking {
    type Error = RejectingBackingError;

    fn prepare_for_write(&mut self, _buffer_id: RenderBufferId, _capacity_bytes: usize, _requested_bytes: usize) -> Result<(), Self::Error> {
        self.attempts += 1;
        Err(RejectingBackingError)
    }

    fn bytes_mut(&mut self, _buffer_id: RenderBufferId) -> Option<&mut [u8]> {
        None
    }

    fn bytes(&self, _buffer_id: RenderBufferId) -> Option<&[u8]> {
        None
    }
}

#[test]
fn backed_acquire_prepares_and_clears_reused_bytes() {
    let mut buffers = BackedRenderBufferPool::new(limits(128, 1, 128, 1), InMemoryRenderBufferBacking::new());
    let scope = Scope(41);

    let first = buffers.acquire(scope, 64).expect("first lease");
    buffers.write_bytes(&first).expect("first writable bytes").fill(0xab);
    let first_ready = buffers.publish(&first, 64).expect("first publication");
    assert!(buffers.read_bytes(&first_ready).expect("first readable bytes").iter().all(|byte| *byte == 0xab));
    buffers.recycle(&first_ready).expect("first recycle");

    let second = buffers.acquire(scope, 32).expect("reused lease");
    assert_eq!(second.id().buffer_id(), first.id().buffer_id());
    assert!(buffers.write_bytes(&second).expect("reused writable bytes").iter().all(|byte| *byte == 0));
    assert_eq!(buffers.backing().capacity_bytes(second.id().buffer_id()), Some(64));
}

#[test]
fn backing_failure_rolls_back_lease_and_scope_budget() {
    let mut buffers = BackedRenderBufferPool::new(limits(128, 1, 128, 1), RejectingBacking::default());
    let scope = Scope(42);

    let error = buffers.acquire(scope, 64).expect_err("injected backing failure must reject acquisition");
    assert_eq!(error, BackedRenderBufferAcquireError::Backing { error: RejectingBackingError, rollback_error: None });
    let stats = buffers.pool().stats();
    assert_eq!(stats.available_slots, 1);
    assert_eq!(stats.leased_slots, 0);

    assert!(matches!(
        buffers.acquire(scope, 64),
        Err(BackedRenderBufferAcquireError::Backing { error: RejectingBackingError, rollback_error: None })
    ));
    assert_eq!(buffers.backing().attempts, 2);
}

#[test]
fn backed_access_rejects_stale_write_lease_after_slot_reuse() {
    let mut buffers = BackedRenderBufferPool::new(limits(128, 1, 128, 1), InMemoryRenderBufferBacking::new());
    let scope = Scope(43);

    let first = buffers.acquire(scope, 64).expect("first lease");
    buffers.cancel(&first).expect("cancel first lease");
    let second = buffers.acquire(scope, 64).expect("second lease");

    let error = buffers.write_bytes(&first).expect_err("stale lease must not reopen backing");
    assert_eq!(
        error,
        RenderBufferAccessError::Transition(RenderBufferTransitionError::StaleLease {
            buffer_id: first.id().buffer_id(),
            expected_generation: second.id().generation(),
            actual_generation: first.id().generation(),
        })
    );
}

#[test]
fn backed_ready_view_exposes_only_published_prefix() {
    let mut buffers = BackedRenderBufferPool::new(limits(128, 1, 128, 1), InMemoryRenderBufferBacking::new());
    let scope = Scope(44);

    let lease = buffers.acquire(scope, 64).expect("lease");
    let bytes = buffers.write_bytes(&lease).expect("writable bytes");
    bytes[..5].copy_from_slice(b"hello");

    let ready = buffers.publish(&lease, 5).expect("publication");
    assert_eq!(buffers.read_bytes(&ready).expect("readable bytes"), b"hello");
    buffers.retain(&ready).expect("retain");
    assert_eq!(buffers.read_bytes(&ready).expect("retained readable bytes"), b"hello");
}

#[test]
fn recycled_ready_token_cannot_read_reused_backing() {
    let mut buffers = BackedRenderBufferPool::new(limits(128, 1, 128, 1), InMemoryRenderBufferBacking::new());
    let scope = Scope(45);

    let first = buffers.acquire(scope, 16).expect("first lease");
    buffers.write_bytes(&first).expect("first writable bytes").fill(7);
    let first_ready = buffers.publish(&first, 16).expect("first publish");
    buffers.recycle(&first_ready).expect("first recycle");

    let second = buffers.acquire(scope, 16).expect("second lease");
    let error = buffers.read_bytes(&first_ready).expect_err("old ready token must be stale after reuse");
    assert_eq!(
        error,
        RenderBufferAccessError::Transition(RenderBufferTransitionError::StaleLease {
            buffer_id: first_ready.id().buffer_id(),
            expected_generation: second.id().generation(),
            actual_generation: first_ready.id().generation(),
        })
    );
}

#[test]
fn in_memory_backing_grows_and_clears_only_the_request() {
    let mut backing = InMemoryRenderBufferBacking::new();
    assert_eq!(backing.capacity_bytes(RenderBufferId(2)), None);
    backing.prepare_for_write(RenderBufferId(2), 8, 4).unwrap();
    assert_eq!(backing.capacity_bytes(RenderBufferId(0)), Some(0));
    assert_eq!(backing.capacity_bytes(RenderBufferId(2)), Some(8));
    backing.bytes_mut(RenderBufferId(2)).unwrap().fill(9);
    backing.prepare_for_write(RenderBufferId(2), 8, 3).unwrap();
    assert_eq!(backing.bytes(RenderBufferId(2)).unwrap(), &[0, 0, 0, 9, 9, 9, 9, 9]);
}

#[test]
fn in_memory_backing_refuses_a_request_beyond_capacity() {
    let mut backing = InMemoryRenderBufferBacking::new();
    assert!(backing.prepare_for_write(RenderBufferId(0), 4, 5).is_err());
    assert_eq!(backing.capacity_bytes(RenderBufferId(0)), None);
}

#[test]
fn pool_without_slots_reports_unknown_buffers() {
    let pool = RenderBufferPool::new(limits(64, 1, 64, 1));
    assert_eq!(pool.slot_state(RenderBufferId(0)), None);
    assert_eq!(pool.slot_capacity_bytes(RenderBufferId(0)), None);
    assert_eq!(pool.stats().slot_count, 0);
}

#[test]
fn generation_exhaustion_needs_many_reuses_but_each_reuse_advances() {
    let mut pool = RenderBufferPool::new(limits(64, 1, 64, 1));
    let scope = Scope(5);
    let mut previous = None;
    for _ in 0..5 {
        let lease = pool.acquire(scope, 8).unwrap();
        if let Some(previous) = previous {
            assert!(lease.id().generation() > previous);
        }
        previous = Some(lease.id().generation());
        pool.cancel(lease.id(), &scope).unwrap();
    }
    assert_eq!(previous.unwrap().get(), 5);
}
