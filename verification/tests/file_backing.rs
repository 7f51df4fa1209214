use office_document::file_backing::{lease_file_name, ExternalFileRenderBacking, ExternalFileRenderBackingError, PreparedExternalRenderLease};
use office_document::render_pool::{
    RenderBufferId, RenderBufferPool, RenderBufferPoolLimits, RenderLeaseGeneration, RenderLeaseId, RenderPixelFormat,
    RenderRasterBindingError, RenderRasterDescriptor, RenderScope,
};

fn pool() -> RenderBufferPool {
    RenderBufferPool::new(RenderBufferPoolLimits::new(4_096, 1, 4_096, 1).expect("limits"))
}

#[test]
fn lease_files_are_named_by_buffer_and_generation() {
    let id = RenderLeaseId { buffer_id: RenderBufferId(3), generation: RenderLeaseGeneration(17) };
    assert_eq!(lease_file_name(id), "buffer-3-generation-17.rgba");
    let other = RenderLeaseId { buffer_id: RenderBufferId(31), generation: RenderLeaseGeneration(7) };
    assert_ne!(lease_file_name(id), lease_file_name(other));
}

#[test]
fn prepared_record_matches_the_live_lease_it_was_made_for() {
    let mut pool = pool();
    let scope = RenderScope(1);
    let warmup = pool.acquire(scope, 2_048).expect("warmup");
    pool.cancel(warmup.id(), &scope).expect("warmup cancel");
    let lease = pool.acquire(scope, 1_280).expect("reused lease");
    assert_eq!(lease.capacity_bytes(), 2_048);

    let prepared = PreparedExternalRenderLease::for_lease(&lease, String::from("/tmp/x.rgba")).expect("prepared");
    assert_eq!(prepared.lease_id(), lease.id());
    assert_eq!(prepared.capacity_bytes(), 2_048);
    assert_eq!(prepared.requested_bytes(), 1_280);
    assert_eq!(prepared.path(), "/tmp/x.rgba");

    let backing = ExternalFileRenderBacking::new(String::from("/tmp"));
    assert_eq!(backing.root(), "/tmp");
    let descriptor = RenderRasterDescriptor::new(
        lease.id().buffer_id().get(),
        lease.id().generation().get(),
        2_048,
        128,
        256,
        32,
        2,
        128,
        RenderPixelFormat::Rgba8,
    )
    .unwrap();
    let capability = backing.raster_capability(&prepared, &lease, descriptor).expect("capability");
    assert_eq!(capability.lease_id(), lease.id());
    assert_eq!(capability.path(), "/tmp/x.rgba");
    assert_eq!(capability.offset_bytes(), 128);
    assert_eq!(capability.byte_length(), 256);

    let ready = pool.publish(lease.id(), &scope, 1_280).unwrap();
    backing.check_ready_raster(&prepared, &ready, descriptor).expect("readable");
    assert_eq!(backing.ready_raster_range(&prepared, descriptor, 2_048).unwrap(), (128, 256));
    assert!(matches!(
        backing.ready_raster_range(&prepared, descriptor, 2_047),
        Err(ExternalFileRenderBackingError::BackingTruncated { actual: 2_047, required: 2_048 })
    ));
}

#[test]
fn stale_prepared_record_and_foreign_descriptor_are_refused() {
    let mut pool = pool();
    let scope = RenderScope(2);
    let first = pool.acquire(scope, 512).unwrap();
    let stale = PreparedExternalRenderLease::for_lease(&first, String::from("old")).unwrap();
    pool.cancel(first.id(), &scope).unwrap();
    let second = pool.acquire(scope, 512).unwrap();
    let backing = ExternalFileRenderBacking::new(String::from("root"));
    let descriptor = RenderRasterDescriptor::new(0, second.id().generation().get(), 512, 0, 64, 16, 1, 64, RenderPixelFormat::Rgba8).unwrap();

    assert!(matches!(
        backing.raster_capability(&stale, &second, descriptor),
        Err(ExternalFileRenderBackingError::PreparedLeaseMismatch { prepared, live }) if prepared == first.id() && live == second.id()
    ));

    let fresh = PreparedExternalRenderLease::for_lease(&second, String::from("new")).unwrap();
    let foreign = RenderRasterDescriptor::new(0, first.id().generation().get(), 512, 0, 64, 16, 1, 64, RenderPixelFormat::Rgba8).unwrap();
    assert!(matches!(
        backing.raster_capability(&fresh, &second, foreign),
        Err(ExternalFileRenderBackingError::Descriptor(RenderRasterBindingError::LeaseGenerationMismatch { .. }))
    ));
}
