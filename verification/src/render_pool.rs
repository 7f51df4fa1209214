//! Bounded host-owned render-buffer admission and lease lifecycle.

use vstd::prelude::*;

use crate::text::{decimal, push_decimal, push_text};

verus! {

/// Stable host-owned identifier for one reusable render-buffer slot.
#[derive(Clone, Copy, Debug, Eq, Hash, Ord, PartialEq, PartialOrd, Structural)]
pub struct RenderBufferId(pub u32);

impl RenderBufferId {
    pub fn get(self) -> (v: u32)
        ensures
            v == self.0,
    {
        self.0
    }
}

/// Monotonic reuse generation for one render-buffer slot.
#[derive(Clone, Copy, Debug, Eq, Hash, Ord, PartialEq, PartialOrd, Structural)]
pub struct RenderLeaseGeneration(pub u64);

impl RenderLeaseGeneration {
    pub fn get(self) -> (v: u64)
        ensures
            v == self.0,
    {
        self.0
    }
}

/// Identity required to complete or release one specific slot lease.
#[derive(Clone, Copy, Debug, Eq, Hash, Ord, PartialEq, PartialOrd, Structural)]
pub struct RenderLeaseId {
    pub buffer_id: RenderBufferId,
    pub generation: RenderLeaseGeneration,
}

impl RenderLeaseId {
    pub fn buffer_id(self) -> (b: RenderBufferId)
        ensures
            b == self.buffer_id,
    {
        self.buffer_id
    }

    pub fn generation(self) -> (g: RenderLeaseGeneration)
        ensures
            g == self.generation,
    {
        self.generation
    }
}

/// The caller authority a lease belongs to (a renderer process, document view or similar).
#[derive(Clone, Copy, Debug, Eq, Hash, Ord, PartialEq, PartialOrd, Structural)]
pub struct RenderScope(pub u64);

/// Hard host-owned admission limits for one render-buffer pool.
#[derive(Clone, Copy, Debug, Eq, PartialEq, Structural)]
pub struct RenderBufferPoolLimits {
    max_total_bytes: usize,
    max_slots: usize,
    max_slot_bytes: usize,
    max_outstanding_leases_per_scope: usize,
}

#[derive(Clone, Copy, Debug, Eq, PartialEq, Structural)]
pub enum RenderBufferPoolLimitsError {
    ZeroTotalBytes,
    ZeroSlots,
    TooManySlots,
    ZeroSlotBytes,
    SlotExceedsTotalBudget,
    ZeroOutstandingLeasesPerScope,
}

/// Admissible limits: every budget nonzero, slot identities fit `u32`, and one slot fits the
/// total budget.
pub open spec fn limits_valid(l: RenderBufferPoolLimits) -> bool {
    &&& l.spec_total() > 0
    &&& l.spec_slots() > 0
    &&& l.spec_slots() <= u32::MAX
    &&& l.spec_slot_bytes() > 0
    &&& l.spec_slot_bytes() <= l.spec_total()
    &&& l.spec_per_scope() > 0
}

impl RenderBufferPoolLimits {
    pub closed spec fn spec_total(self) -> usize {
        self.max_total_bytes
    }

    pub closed spec fn spec_slots(self) -> usize {
        self.max_slots
    }

    pub closed spec fn spec_slot_bytes(self) -> usize {
        self.max_slot_bytes
    }

    pub closed spec fn spec_per_scope(self) -> usize {
        self.max_outstanding_leases_per_scope
    }

    /// Validates the four budgets, in this order.
    pub fn new(max_total_bytes: usize, max_slots: usize, max_slot_bytes: usize, max_outstanding_leases_per_scope: usize)
        -> (r: Result<Self, RenderBufferPoolLimitsError>)
        ensures
            max_total_bytes == 0 ==> r == Err::<Self, RenderBufferPoolLimitsError>(RenderBufferPoolLimitsError::ZeroTotalBytes),
            max_total_bytes > 0 && max_slots == 0 ==> r == Err::<Self, RenderBufferPoolLimitsError>(RenderBufferPoolLimitsError::ZeroSlots),
            max_total_bytes > 0 && max_slots > 0 && max_slots > u32::MAX
                ==> r == Err::<Self, RenderBufferPoolLimitsError>(RenderBufferPoolLimitsError::TooManySlots),
            max_total_bytes > 0 && 0 < max_slots <= u32::MAX && max_slot_bytes == 0
                ==> r == Err::<Self, RenderBufferPoolLimitsError>(RenderBufferPoolLimitsError::ZeroSlotBytes),
            max_total_bytes > 0 && 0 < max_slots <= u32::MAX && max_slot_bytes > 0 && max_slot_bytes > max_total_bytes
                ==> r == Err::<Self, RenderBufferPoolLimitsError>(RenderBufferPoolLimitsError::SlotExceedsTotalBudget),
            max_total_bytes > 0 && 0 < max_slots <= u32::MAX && 0 < max_slot_bytes <= max_total_bytes
                && max_outstanding_leases_per_scope == 0
                ==> r == Err::<Self, RenderBufferPoolLimitsError>(RenderBufferPoolLimitsError::ZeroOutstandingLeasesPerScope),
            max_total_bytes > 0 && 0 < max_slots <= u32::MAX && 0 < max_slot_bytes <= max_total_bytes
                && max_outstanding_leases_per_scope > 0 ==> r is Ok,
            r matches Ok(l) ==> limits_valid(l) && l.spec_total() == max_total_bytes && l.spec_slots() == max_slots
                && l.spec_slot_bytes() == max_slot_bytes && l.spec_per_scope() == max_outstanding_leases_per_scope,
    {
        if max_total_bytes == 0 {
            return Err(RenderBufferPoolLimitsError::ZeroTotalBytes);
        }
        if max_slots == 0 {
            return Err(RenderBufferPoolLimitsError::ZeroSlots);
        }
        if max_slots as u128 > u32::MAX as u128 {
            return Err(RenderBufferPoolLimitsError::TooManySlots);
        }
        if max_slot_bytes == 0 {
            return Err(RenderBufferPoolLimitsError::ZeroSlotBytes);
        }
        if max_slot_bytes > max_total_bytes {
            return Err(RenderBufferPoolLimitsError::SlotExceedsTotalBudget);
        }
        if max_outstanding_leases_per_scope == 0 {
            return Err(RenderBufferPoolLimitsError::ZeroOutstandingLeasesPerScope);
        }
        Ok(RenderBufferPoolLimits { max_total_bytes, max_slots, max_slot_bytes, max_outstanding_leases_per_scope })
    }

    pub fn max_total_bytes(self) -> (v: usize)
        ensures
            v == self.spec_total(),
    {
        self.max_total_bytes
    }

    pub fn max_slots(self) -> (v: usize)
        ensures
            v == self.spec_slots(),
    {
        self.max_slots
    }

    pub fn max_slot_bytes(self) -> (v: usize)
        ensures
            v == self.spec_slot_bytes(),
    {
        self.max_slot_bytes
    }

    pub fn max_outstanding_leases_per_scope(self) -> (v: usize)
        ensures
            v == self.spec_per_scope(),
    {
        self.max_outstanding_leases_per_scope
    }
}

/// Public lifecycle state without exposing a caller's scope.
#[derive(Clone, Copy, Debug, Eq, PartialEq, Structural)]
pub enum RenderBufferSlotState {
    Available,
    Leased,
    Ready,
    Retained,
}

/// Host-issued write authority for one buffer slot generation.
#[derive(Clone, Debug, Eq, PartialEq, Structural)]
pub struct RenderWriteLease {
    id: RenderLeaseId,
    scope: RenderScope,
    capacity_bytes: usize,
    requested_bytes: usize,
}

impl RenderWriteLease {
    pub closed spec fn spec_id(&self) -> RenderLeaseId {
        self.id
    }

    pub closed spec fn spec_scope(&self) -> RenderScope {
        self.scope
    }

    pub closed spec fn spec_capacity(&self) -> usize {
        self.capacity_bytes
    }

    pub closed spec fn spec_requested(&self) -> usize {
        self.requested_bytes
    }

    pub fn id(&self) -> (i: RenderLeaseId)
        ensures
            i == self.spec_id(),
    {
        self.id
    }

    pub fn scope(&self) -> (s: &RenderScope)
        ensures
            *s == self.spec_scope(),
    {
        &self.scope
    }

    pub fn capacity_bytes(&self) -> (c: usize)
        ensures
            c == self.spec_capacity(),
    {
        self.capacity_bytes
    }

    pub fn requested_bytes(&self) -> (r: usize)
        ensures
            r == self.spec_requested(),
    {
        self.requested_bytes
    }
}

/// Host-visible publication token for bytes completed under one valid write lease.
#[derive(Clone, Debug, Eq, PartialEq, Structural)]
pub struct ReadyRenderBuffer {
    id: RenderLeaseId,
    scope: RenderScope,
    capacity_bytes: usize,
    written_bytes: usize,
}

impl ReadyRenderBuffer {
    pub closed spec fn spec_id(&self) -> RenderLeaseId {
        self.id
    }

    pub closed spec fn spec_scope(&self) -> RenderScope {
        self.scope
    }

    pub closed spec fn spec_capacity(&self) -> usize {
        self.capacity_bytes
    }

    pub closed spec fn spec_written(&self) -> usize {
        self.written_bytes
    }

    pub fn id(&self) -> (i: RenderLeaseId)
        ensures
            i == self.spec_id(),
    {
        self.id
    }

    pub fn scope(&self) -> (s: &RenderScope)
        ensures
            *s == self.spec_scope(),
    {
        &self.scope
    }

    pub fn capacity_bytes(&self) -> (c: usize)
        ensures
            c == self.spec_capacity(),
    {
        self.capacity_bytes
    }

    pub fn written_bytes(&self) -> (w: usize)
        ensures
            w == self.spec_written(),
    {
        self.written_bytes
    }
}

/// Pixel layout of a raster.
#[derive(Clone, Copy, Debug, Eq, PartialEq, Structural)]
pub enum RenderPixelFormat {
    Rgba8,
    Bgra8,
}

impl RenderPixelFormat {
    pub fn bytes_per_pixel(self) -> (b: u32)
        ensures
            b == 4,
    {
        match self {
            RenderPixelFormat::Rgba8 => 4,
            RenderPixelFormat::Bgra8 => 4,
        }
    }

    /// The wire byte of a pixel format.
    pub fn wire(self) -> (b: u8)
        ensures
            self == RenderPixelFormat::Rgba8 ==> b == 1,
            self == RenderPixelFormat::Bgra8 ==> b == 2,
    {
        match self {
            RenderPixelFormat::Rgba8 => 1,
            RenderPixelFormat::Bgra8 => 2,
        }
    }
}

/// A wire byte that names no pixel format.
#[derive(Clone, Copy, Debug, Eq, PartialEq, Structural)]
pub struct UnsupportedRenderPixelFormat(pub u8);

impl TryFrom<u8> for RenderPixelFormat {
    type Error = UnsupportedRenderPixelFormat;

    fn try_from(value: u8) -> (r: Result<Self, Self::Error>) {
        match value {
            1 => Ok(RenderPixelFormat::Rgba8),
            2 => Ok(RenderPixelFormat::Bgra8),
            other => Err(UnsupportedRenderPixelFormat(other)),
        }
    }
}

impl vstd::std_specs::convert::TryFromSpecImpl<u8> for RenderPixelFormat {
    open spec fn obeys_try_from_spec() -> bool {
        true
    }

    open spec fn try_from_spec(v: u8) -> Result<Self, UnsupportedRenderPixelFormat> {
        if v == 1 {
            Ok(RenderPixelFormat::Rgba8)
        } else if v == 2 {
            Ok(RenderPixelFormat::Bgra8)
        } else {
            Err(UnsupportedRenderPixelFormat(v))
        }
    }
}

/// The pixel format a wire byte names.
pub fn pixel_format_from_wire(value: u8) -> (r: Result<RenderPixelFormat, UnsupportedRenderPixelFormat>)
    ensures
        value == 1 ==> r == Ok::<RenderPixelFormat, UnsupportedRenderPixelFormat>(RenderPixelFormat::Rgba8),
        value == 2 ==> r == Ok::<RenderPixelFormat, UnsupportedRenderPixelFormat>(RenderPixelFormat::Bgra8),
        value != 1 && value != 2 ==> r == Err::<RenderPixelFormat, UnsupportedRenderPixelFormat>(UnsupportedRenderPixelFormat(value)),
{
    match value {
        1 => Ok(RenderPixelFormat::Rgba8),
        2 => Ok(RenderPixelFormat::Bgra8),
        other => Err(UnsupportedRenderPixelFormat(other)),
    }
}

#[derive(Clone, Copy, Debug, Eq, PartialEq, Structural)]
pub enum RenderRasterDescriptorError {
    ZeroWidth,
    ZeroHeight,
    StrideTooSmall { stride: u32, minimum: u64 },
    GeometryOverflow,
    ByteLengthTooSmall { declared: u64, minimum: u64 },
    RangeOverflow,
    RangeExceedsCapacity { range_end: u64, capacity: u64 },
}

#[derive(Clone, Copy, Debug, Eq, PartialEq, Structural)]
pub enum RenderRasterBindingError {
    BufferIdMismatch { declared: u32, actual: RenderBufferId },
    LeaseGenerationMismatch { declared: u64, actual: RenderLeaseGeneration },
    CapacityMismatch { declared: u64, actual: usize },
    RangeExceedsLeaseRequest { range_end: u64, requested: usize },
    RangeExceedsPublishedBytes { range_end: u64, published: usize },
    HostRangeNotRepresentable { offset: u64, byte_length: u64 },
}

/// Why raster metadata is refused, checked in this order: nonzero geometry, a stride that
/// holds one row, a byte length that holds every row, and a range inside the capacity.
pub open spec fn descriptor_error(
    capacity_bytes: u64,
    offset_bytes: u64,
    byte_length: u64,
    width: u32,
    height: u32,
    stride_bytes: u32,
    bytes_per_pixel: u32,
) -> Option<RenderRasterDescriptorError> {
    let row = width as int * bytes_per_pixel as int;
    let minimum = (height as int - 1) * stride_bytes as int + row;
    if width == 0 {
        Some(RenderRasterDescriptorError::ZeroWidth)
    } else if height == 0 {
        Some(RenderRasterDescriptorError::ZeroHeight)
    } else if row > u64::MAX {
        Some(RenderRasterDescriptorError::GeometryOverflow)
    } else if (stride_bytes as int) < row {
        Some(RenderRasterDescriptorError::StrideTooSmall { stride: stride_bytes, minimum: row as u64 })
    } else if minimum > u64::MAX {
        Some(RenderRasterDescriptorError::GeometryOverflow)
    } else if (byte_length as int) < minimum {
        Some(RenderRasterDescriptorError::ByteLengthTooSmall { declared: byte_length, minimum: minimum as u64 })
    } else if offset_bytes as int + byte_length as int > u64::MAX {
        Some(RenderRasterDescriptorError::RangeOverflow)
    } else if offset_bytes as int + byte_length as int > capacity_bytes {
        Some(RenderRasterDescriptorError::RangeExceedsCapacity {
            range_end: (offset_bytes + byte_length) as u64,
            capacity: capacity_bytes,
        })
    } else {
        None
    }
}

/// Fixed-width raster metadata for a bounded worker-control descriptor, validated for
/// geometry arithmetic and containment inside the declared slot capacity.
#[derive(Clone, Copy, Debug, Eq, PartialEq, Structural)]
pub struct RenderRasterDescriptor {
    buffer_id: u32,
    lease_generation: u64,
    capacity_bytes: u64,
    offset_bytes: u64,
    byte_length: u64,
    width: u32,
    height: u32,
    stride_bytes: u32,
    pixel_format: RenderPixelFormat,
}

impl RenderRasterDescriptor {
    /// Every descriptor holds a range inside its capacity.
    #[verifier::type_invariant]
    spec fn range_inside(self) -> bool {
        self.offset_bytes as int + self.byte_length as int <= self.capacity_bytes as int
    }

    pub closed spec fn spec_buffer_id(self) -> u32 {
        self.buffer_id
    }

    pub closed spec fn spec_generation(self) -> u64 {
        self.lease_generation
    }

    pub closed spec fn spec_capacity(self) -> u64 {
        self.capacity_bytes
    }

    pub closed spec fn spec_offset(self) -> u64 {
        self.offset_bytes
    }

    pub closed spec fn spec_length(self) -> u64 {
        self.byte_length
    }

    pub closed spec fn spec_width(self) -> u32 {
        self.width
    }

    pub closed spec fn spec_height(self) -> u32 {
        self.height
    }

    pub closed spec fn spec_stride(self) -> u32 {
        self.stride_bytes
    }

    pub closed spec fn spec_format(self) -> RenderPixelFormat {
        self.pixel_format
    }

    /// End of the raster range.
    pub open spec fn spec_range_end(self) -> int {
        self.spec_offset() + self.spec_length()
    }

    /// Validates raster geometry and containment, then records the metadata.
    pub fn new(
        buffer_id: u32,
        lease_generation: u64,
        capacity_bytes: u64,
        offset_bytes: u64,
        byte_length: u64,
        width: u32,
        height: u32,
        stride_bytes: u32,
        pixel_format: RenderPixelFormat,
    ) -> (r: Result<Self, RenderRasterDescriptorError>)
        ensures
            match descriptor_error(capacity_bytes, offset_bytes, byte_length, width, height, stride_bytes, 4) {
                Some(e) => r == Err::<Self, RenderRasterDescriptorError>(e),
                None => r matches Ok(d) && d.spec_buffer_id() == buffer_id && d.spec_generation() == lease_generation
                    && d.spec_capacity() == capacity_bytes && d.spec_offset() == offset_bytes && d.spec_length() == byte_length
                    && d.spec_width() == width && d.spec_height() == height && d.spec_stride() == stride_bytes
                    && d.spec_format() == pixel_format,
            },
    {
        if width == 0 {
            return Err(RenderRasterDescriptorError::ZeroWidth);
        }
        if height == 0 {
            return Err(RenderRasterDescriptorError::ZeroHeight);
        }
        let bpp = pixel_format.bytes_per_pixel();
        let row_bytes = match (width as u64).checked_mul(bpp as u64) {
            None => {
                return Err(RenderRasterDescriptorError::GeometryOverflow);
            },
            Some(r) => r,
        };
        let stride = stride_bytes as u64;
        if stride < row_bytes {
            return Err(RenderRasterDescriptorError::StrideTooSmall { stride: stride_bytes, minimum: row_bytes });
        }
        let minimum_byte_length = match ((height - 1) as u64).checked_mul(stride) {
            None => {
                proof {
                    assert((height as int - 1) * stride_bytes as int > u64::MAX);
                    assert((height as int - 1) * stride_bytes as int + row_bytes > u64::MAX);
                }
                return Err(RenderRasterDescriptorError::GeometryOverflow);
            },
            Some(prefix) => match prefix.checked_add(row_bytes) {
                None => {
                    return Err(RenderRasterDescriptorError::GeometryOverflow);
                },
                Some(m) => m,
            },
        };
        if byte_length < minimum_byte_length {
            return Err(RenderRasterDescriptorError::ByteLengthTooSmall { declared: byte_length, minimum: minimum_byte_length });
        }
        let range_end = match offset_bytes.checked_add(byte_length) {
            None => {
                return Err(RenderRasterDescriptorError::RangeOverflow);
            },
            Some(e) => e,
        };
        if range_end > capacity_bytes {
            return Err(RenderRasterDescriptorError::RangeExceedsCapacity { range_end, capacity: capacity_bytes });
        }
        Ok(RenderRasterDescriptor {
            buffer_id,
            lease_generation,
            capacity_bytes,
            offset_bytes,
            byte_length,
            width,
            height,
            stride_bytes,
            pixel_format,
        })
    }

    pub fn buffer_id(self) -> (v: u32)
        ensures
            v == self.spec_buffer_id(),
    {
        self.buffer_id
    }

    pub fn lease_generation(self) -> (v: u64)
        ensures
            v == self.spec_generation(),
    {
        self.lease_generation
    }

    pub fn capacity_bytes(self) -> (v: u64)
        ensures
            v == self.spec_capacity(),
    {
        self.capacity_bytes
    }

    pub fn offset_bytes(self) -> (v: u64)
        ensures
            v == self.spec_offset(),
    {
        self.offset_bytes
    }

    pub fn byte_length(self) -> (v: u64)
        ensures
            v == self.spec_length(),
    {
        self.byte_length
    }

    pub fn width(self) -> (v: u32)
        ensures
            v == self.spec_width(),
    {
        self.width
    }

    pub fn height(self) -> (v: u32)
        ensures
            v == self.spec_height(),
    {
        self.height
    }

    pub fn stride_bytes(self) -> (v: u32)
        ensures
            v == self.spec_stride(),
    {
        self.stride_bytes
    }

    pub fn pixel_format(self) -> (v: RenderPixelFormat)
        ensures
            v == self.spec_format(),
    {
        self.pixel_format
    }

    /// End of the raster range (never past the declared capacity).
    pub fn range_end(self) -> (e: u64)
        ensures
            e == self.spec_range_end(),
            e <= self.spec_capacity(),
    {
        proof {
            use_type_invariant(self);
        }
        self.offset_bytes + self.byte_length
    }

    /// The descriptor names the lease's buffer, generation and capacity exactly.
    fn validate_identity_and_capacity(self, lease_id: RenderLeaseId, actual_capacity: usize) -> (r: Result<(), RenderRasterBindingError>)
        ensures
            r == identity_check(self, lease_id, actual_capacity),
    {
        if self.buffer_id != lease_id.buffer_id().get() {
            return Err(RenderRasterBindingError::BufferIdMismatch { declared: self.buffer_id, actual: lease_id.buffer_id() });
        }
        if self.lease_generation != lease_id.generation().get() {
            return Err(RenderRasterBindingError::LeaseGenerationMismatch {
                declared: self.lease_generation,
                actual: lease_id.generation(),
            });
        }
        if self.capacity_bytes as u128 != actual_capacity as u128 {
            return Err(RenderRasterBindingError::CapacityMismatch { declared: self.capacity_bytes, actual: actual_capacity });
        }
        Ok(())
    }

    /// Binds the descriptor to a live write lease: same identity and capacity, and a range
    /// inside the requested prefix.
    pub fn validate_write_lease(self, lease: &RenderWriteLease) -> (r: Result<(), RenderRasterBindingError>)
        ensures
            r == write_binding(self, *lease),
    {
        match self.validate_identity_and_capacity(lease.id(), lease.capacity_bytes()) {
            Err(e) => {
                return Err(e);
            },
            Ok(()) => {},
        }
        let range_end = self.range_end();
        if range_end as u128 > lease.requested_bytes() as u128 {
            return Err(RenderRasterBindingError::RangeExceedsLeaseRequest { range_end, requested: lease.requested_bytes() });
        }
        Ok(())
    }

    /// Binds the descriptor to a published buffer: same identity and capacity, and a range
    /// inside the published prefix.
    pub fn validate_ready_buffer(self, ready: &ReadyRenderBuffer) -> (r: Result<(), RenderRasterBindingError>)
        ensures
            r == ready_binding(self, *ready),
    {
        match self.validate_identity_and_capacity(ready.id(), ready.capacity_bytes()) {
            Err(e) => {
                return Err(e);
            },
            Ok(()) => {},
        }
        let range_end = self.range_end();
        if range_end as u128 > ready.written_bytes() as u128 {
            return Err(RenderRasterBindingError::RangeExceedsPublishedBytes { range_end, published: ready.written_bytes() });
        }
        Ok(())
    }

    /// The raster range as host offsets.
    pub(crate) fn host_range(self) -> (r: Result<(usize, usize), RenderRasterBindingError>)
        ensures
            self.spec_range_end() <= usize::MAX ==> r == Ok::<(usize, usize), RenderRasterBindingError>(
                (self.spec_offset() as usize, self.spec_range_end() as usize)),
            self.spec_range_end() > usize::MAX ==> r == Err::<(usize, usize), RenderRasterBindingError>(
                RenderRasterBindingError::HostRangeNotRepresentable { offset: self.spec_offset(), byte_length: self.spec_length() }),
    {
        let end = self.range_end();
        if end as u128 > usize::MAX as u128 {
            return Err(RenderRasterBindingError::HostRangeNotRepresentable { offset: self.offset_bytes, byte_length: self.byte_length });
        }
        Ok((self.offset_bytes as usize, end as usize))
    }
}

/// Whether a descriptor binds to a write lease: same identity and capacity, and a range inside
/// the requested prefix.
pub open spec fn write_binding(d: RenderRasterDescriptor, lease: RenderWriteLease) -> Result<(), RenderRasterBindingError> {
    match identity_check(d, lease.spec_id(), lease.spec_capacity()) {
        Err(e) => Err(e),
        Ok(()) => if d.spec_range_end() > lease.spec_requested() {
            Err(RenderRasterBindingError::RangeExceedsLeaseRequest { range_end: d.spec_range_end() as u64, requested: lease.spec_requested() })
        } else {
            Ok(())
        },
    }
}

/// Whether a descriptor binds to a publication: same identity and capacity, and a range inside
/// the published prefix.
pub open spec fn ready_binding(d: RenderRasterDescriptor, ready: ReadyRenderBuffer) -> Result<(), RenderRasterBindingError> {
    match identity_check(d, ready.spec_id(), ready.spec_capacity()) {
        Err(e) => Err(e),
        Ok(()) => if d.spec_range_end() > ready.spec_written() {
            Err(RenderRasterBindingError::RangeExceedsPublishedBytes { range_end: d.spec_range_end() as u64, published: ready.spec_written() })
        } else {
            Ok(())
        },
    }
}

/// Whether a descriptor names a lease's buffer, generation and capacity, in this order.
pub open spec fn identity_check(d: RenderRasterDescriptor, lease_id: RenderLeaseId, actual_capacity: usize) -> Result<(), RenderRasterBindingError> {
    if d.spec_buffer_id() != lease_id.buffer_id.0 {
        Err(RenderRasterBindingError::BufferIdMismatch { declared: d.spec_buffer_id(), actual: lease_id.buffer_id })
    } else if d.spec_generation() != lease_id.generation.0 {
        Err(RenderRasterBindingError::LeaseGenerationMismatch { declared: d.spec_generation(), actual: lease_id.generation })
    } else if d.spec_capacity() != actual_capacity {
        Err(RenderRasterBindingError::CapacityMismatch { declared: d.spec_capacity(), actual: actual_capacity })
    } else {
        Ok(())
    }
}

#[derive(Clone, Copy, Debug, Eq, PartialEq, Structural)]
pub enum RenderBufferAcquireError {
    ZeroByteRequest,
    RequestExceedsSlotLimit { requested: usize, limit: usize },
    ScopeLeaseLimitReached { limit: usize },
    PoolExhausted,
    LeaseGenerationExhausted { buffer_id: RenderBufferId },
}

#[derive(Clone, Copy, Debug, Eq, PartialEq, Structural)]
pub enum RenderBufferTransitionError {
    UnknownBuffer(RenderBufferId),
    StaleLease { buffer_id: RenderBufferId, expected_generation: RenderLeaseGeneration, actual_generation: RenderLeaseGeneration },
    WrongState { expected: RenderBufferSlotState, actual: RenderBufferSlotState },
    WrongScope,
    ZeroByteCompletion,
    CompletionExceedsRequest { written: usize, requested: usize },
}

#[derive(Clone, Copy, Debug, Default, Eq, PartialEq, Structural)]
pub struct RenderBufferPoolStats {
    pub total_capacity_bytes: usize,
    pub slot_count: usize,
    pub available_slots: usize,
    pub leased_slots: usize,
    pub ready_slots: usize,
    pub retained_slots: usize,
}

#[derive(Clone, Copy, Debug, Default, Eq, PartialEq, Structural)]
pub struct RenderScopeInvalidation {
    pub leased_reclaimed: usize,
    pub ready_reclaimed: usize,
    pub retained_reclaimed: usize,
}

impl RenderScopeInvalidation {
    /// Total slots reclaimed.
    pub fn reclaimed_slots(self) -> (n: usize)
        requires
            self.leased_reclaimed + self.ready_reclaimed + self.retained_reclaimed <= usize::MAX,
        ensures
            n == self.leased_reclaimed + self.ready_reclaimed + self.retained_reclaimed,
    {
        self.leased_reclaimed + self.ready_reclaimed + self.retained_reclaimed
    }
}

/// Lifecycle state of one slot, with the scope it belongs to.
#[derive(Clone, Copy, Debug, Eq, PartialEq, Structural)]
pub enum SlotState {
    Available,
    Leased { scope: RenderScope, requested_bytes: usize },
    Ready { scope: RenderScope, written_bytes: usize },
    Retained { scope: RenderScope, written_bytes: usize },
}

/// The public view of a slot state.
pub open spec fn public_state(s: SlotState) -> RenderBufferSlotState {
    match s {
        SlotState::Available => RenderBufferSlotState::Available,
        SlotState::Leased { .. } => RenderBufferSlotState::Leased,
        SlotState::Ready { .. } => RenderBufferSlotState::Ready,
        SlotState::Retained { .. } => RenderBufferSlotState::Retained,
    }
}

impl SlotState {
    fn public(&self) -> (p: RenderBufferSlotState)
        ensures
            p == public_state(*self),
    {
        match self {
            SlotState::Available => RenderBufferSlotState::Available,
            SlotState::Leased { .. } => RenderBufferSlotState::Leased,
            SlotState::Ready { .. } => RenderBufferSlotState::Ready,
            SlotState::Retained { .. } => RenderBufferSlotState::Retained,
        }
    }
}

/// One reusable slot: identity, reuse generation, capacity and state.
#[derive(Clone, Copy, Debug, Eq, PartialEq, Structural)]
pub struct Slot {
    pub id: RenderBufferId,
    pub generation: RenderLeaseGeneration,
    pub capacity_bytes: usize,
    pub state: SlotState,
}

/// Sum of slot capacities.
pub open spec fn total_capacity(slots: Seq<Slot>) -> int
    decreases slots.len(),
{
    if slots.len() == 0 { 0 } else { total_capacity(slots.drop_last()) + slots.last().capacity_bytes }
}

/// Whether a slot counts toward a predicate.
pub open spec fn count_where(slots: Seq<Slot>, f: spec_fn(Slot) -> bool) -> nat
    decreases slots.len(),
{
    if slots.len() == 0 { 0 } else { count_where(slots.drop_last(), f) + (if f(slots.last()) { 1nat } else { 0nat }) }
}

/// The slot is leased to `scope`.
pub open spec fn leased_to(scope: RenderScope) -> spec_fn(Slot) -> bool {
    |s: Slot| s.state matches SlotState::Leased { scope: owner, .. } && owner == scope
}

/// The slot is ready for `scope`.
pub open spec fn ready_for(scope: RenderScope) -> spec_fn(Slot) -> bool {
    |s: Slot| s.state matches SlotState::Ready { scope: owner, .. } && owner == scope
}

/// The slot is retained by `scope`.
pub open spec fn retained_by(scope: RenderScope) -> spec_fn(Slot) -> bool {
    |s: Slot| s.state matches SlotState::Retained { scope: owner, .. } && owner == scope
}

/// The slot belongs to `scope` in any state but available.
pub open spec fn owned_by(s: Slot, scope: RenderScope) -> bool {
    leased_to(scope)(s) || ready_for(scope)(s) || retained_by(scope)(s)
}

/// The slot is in public state `p`.
pub open spec fn in_state(p: RenderBufferSlotState) -> spec_fn(Slot) -> bool {
    |s: Slot| public_state(s.state) == p
}

proof fn lemma_total_update(slots: Seq<Slot>, i: int, x: Slot)
    requires
        0 <= i < slots.len(),
    ensures
        total_capacity(slots.update(i, x)) == total_capacity(slots) - slots[i].capacity_bytes + x.capacity_bytes,
    decreases slots.len(),
{
    if i == slots.len() - 1 {
        assert(slots.update(i, x).drop_last() =~= slots.drop_last());
    } else {
        assert(slots.update(i, x).drop_last() =~= slots.drop_last().update(i, x));
        lemma_total_update(slots.drop_last(), i, x);
    }
}

proof fn lemma_count_update(slots: Seq<Slot>, i: int, x: Slot, f: spec_fn(Slot) -> bool)
    requires
        0 <= i < slots.len(),
    ensures
        count_where(slots.update(i, x), f) + (if f(slots[i]) { 1int } else { 0int })
            == count_where(slots, f) + (if f(x) { 1int } else { 0int }),
    decreases slots.len(),
{
    if i == slots.len() - 1 {
        assert(slots.update(i, x).drop_last() =~= slots.drop_last());
    } else {
        assert(slots.update(i, x).drop_last() =~= slots.drop_last().update(i, x));
        lemma_count_update(slots.drop_last(), i, x, f);
    }
}

proof fn lemma_count_bound(slots: Seq<Slot>, f: spec_fn(Slot) -> bool)
    ensures
        count_where(slots, f) <= slots.len(),
    decreases slots.len(),
{
    if slots.len() > 0 {
        lemma_count_bound(slots.drop_last(), f);
    }
}

proof fn lemma_prefix_step(slots: Seq<Slot>, i: int)
    requires
        0 <= i < slots.len(),
    ensures
        slots.subrange(0, i + 1).drop_last() == slots.subrange(0, i),
        slots.subrange(0, i + 1).last() == slots[i],
{
    assert(slots.subrange(0, i + 1).drop_last() =~= slots.subrange(0, i));
}

/// Counts the slots satisfying `f` (given as a ghost predicate `f` and its exec test).
fn count_leased_to(slots: &Vec<Slot>, scope: RenderScope) -> (n: usize)
    ensures
        n == count_where(slots@, leased_to(scope)),
{
    let mut n: usize = 0;
    let mut i: usize = 0;
    proof {
        assert(slots@.subrange(0, 0) =~= Seq::<Slot>::empty());
    }
    while i < slots.len()
        invariant
            0 <= i <= slots@.len(),
            n == count_where(slots@.subrange(0, i as int), leased_to(scope)),
        decreases slots@.len() - i,
    {
        proof {
            lemma_prefix_step(slots@, i as int);
            lemma_count_bound(slots@.subrange(0, i as int), leased_to(scope));
        }
        match slots[i].state {
            SlotState::Leased { scope: owner, .. } => {
                if owner == scope {
                    n = n + 1;
                }
            },
            _ => {},
        }
        i = i + 1;
    }
    proof {
        assert(slots@.subrange(0, slots@.len() as int) =~= slots@);
    }
    n
}

/// A slot that may serve a request without growing.
pub open spec fn reusable(s: Slot, req: usize) -> bool {
    s.state == SlotState::Available && s.capacity_bytes >= req
}

/// An available slot too small for a request.
pub open spec fn growable(s: Slot, req: usize) -> bool {
    s.state == SlotState::Available && s.capacity_bytes < req
}

/// `i` is the smallest reusable slot (the first, among equals).
pub open spec fn best_fit(slots: Seq<Slot>, req: usize, i: int) -> bool {
    &&& 0 <= i < slots.len()
    &&& reusable(slots[i], req)
    &&& forall|j: int| 0 <= j < slots.len() && #[trigger] reusable(slots[j], req) ==> slots[i].capacity_bytes <= slots[j].capacity_bytes
    &&& forall|j: int| 0 <= j < i && #[trigger] reusable(slots[j], req) ==> slots[j].capacity_bytes > slots[i].capacity_bytes
}

/// `i` is the largest growable slot (the last, among equals).
pub open spec fn widest_growable(slots: Seq<Slot>, req: usize, i: int) -> bool {
    &&& 0 <= i < slots.len()
    &&& growable(slots[i], req)
    &&& forall|j: int| 0 <= j < slots.len() && #[trigger] growable(slots[j], req) ==> slots[j].capacity_bytes <= slots[i].capacity_bytes
    &&& forall|j: int| i < j < slots.len() && #[trigger] growable(slots[j], req) ==> slots[j].capacity_bytes < slots[i].capacity_bytes
}

/// Where a request is placed: the best-fitting available slot; else the largest too-small
/// available slot grown to the request when the byte budget allows; else a new slot when the
/// slot and byte budgets allow; else nowhere.
pub enum Placement {
    Reuse(usize),
    Grow(usize),
    Allocate,
    Exhausted,
}

pub open spec fn placement(slots: Seq<Slot>, total: int, limits: RenderBufferPoolLimits, req: usize) -> Placement {
    if exists|i: int| best_fit(slots, req, i) {
        Placement::Reuse((choose|i: int| best_fit(slots, req, i)) as usize)
    } else if exists|i: int| widest_growable(slots, req, i) && total + req - slots[i].capacity_bytes <= limits.spec_total() {
        Placement::Grow((choose|i: int| widest_growable(slots, req, i) && total + req - slots[i].capacity_bytes <= limits.spec_total()) as usize)
    } else if slots.len() < limits.spec_slots() && total + req <= limits.spec_total() {
        Placement::Allocate
    } else {
        Placement::Exhausted
    }
}

/// The slots after placing a request (before the lease is recorded).
pub open spec fn placed_slots(slots: Seq<Slot>, p: Placement, req: usize) -> Seq<Slot> {
    match p {
        Placement::Grow(i) => slots.update(i as int, Slot { capacity_bytes: req, ..slots[i as int] }),
        Placement::Allocate => slots.push(Slot {
            id: RenderBufferId(slots.len() as u32),
            generation: RenderLeaseGeneration(0),
            capacity_bytes: req,
            state: SlotState::Available,
        }),
        _ => slots,
    }
}

/// The slot a request is placed in.
pub open spec fn placed_index(slots: Seq<Slot>, p: Placement) -> int {
    match p {
        Placement::Reuse(i) => i as int,
        Placement::Grow(i) => i as int,
        _ => slots.len() as int,
    }
}

/// Why a request is refused, checked in this order: a zero-byte request, one over the slot
/// budget, a scope at its lease budget, no room to place it, a placed slot whose generation
/// cannot advance.
pub open spec fn acquire_error(slots: Seq<Slot>, total: int, limits: RenderBufferPoolLimits, scope: RenderScope, req: usize) -> Option<RenderBufferAcquireError> {
    let p = placement(slots, total, limits, req);
    let placed = placed_slots(slots, p, req);
    let i = placed_index(slots, p);
    if req == 0 {
        Some(RenderBufferAcquireError::ZeroByteRequest)
    } else if req > limits.spec_slot_bytes() {
        Some(RenderBufferAcquireError::RequestExceedsSlotLimit { requested: req, limit: limits.spec_slot_bytes() })
    } else if count_where(slots, leased_to(scope)) >= limits.spec_per_scope() {
        Some(RenderBufferAcquireError::ScopeLeaseLimitReached { limit: limits.spec_per_scope() })
    } else if p is Exhausted {
        Some(RenderBufferAcquireError::PoolExhausted)
    } else if placed[i].generation.0 == u64::MAX {
        Some(RenderBufferAcquireError::LeaseGenerationExhausted { buffer_id: placed[i].id })
    } else {
        None
    }
}

/// The slot a request is leased in.
pub open spec fn acquired_index(slots: Seq<Slot>, total: int, limits: RenderBufferPoolLimits, req: usize) -> int {
    placed_index(slots, placement(slots, total, limits, req))
}

/// The slots after a request: unchanged when it is refused before placement, placed when its
/// slot's generation cannot advance, and otherwise placed with that slot leased to `scope`
/// under the next generation.
pub open spec fn acquired_slots(slots: Seq<Slot>, total: int, limits: RenderBufferPoolLimits, scope: RenderScope, req: usize) -> Seq<Slot> {
    let p = placement(slots, total, limits, req);
    let placed = placed_slots(slots, p, req);
    let i = placed_index(slots, p);
    if req == 0 || req > limits.spec_slot_bytes() || count_where(slots, leased_to(scope)) >= limits.spec_per_scope() || p is Exhausted {
        slots
    } else if placed[i].generation.0 == u64::MAX {
        placed
    } else {
        placed.update(i, Slot {
            generation: RenderLeaseGeneration((placed[i].generation.0 + 1) as u64),
            state: SlotState::Leased { scope, requested_bytes: req },
            ..placed[i]
        })
    }
}

/// A write lease names a slot's identity, generation and capacity, for `scope` and `req`.
pub open spec fn lease_of(lease: RenderWriteLease, s: Slot, scope: RenderScope, req: usize) -> bool {
    &&& lease.spec_id() == (RenderLeaseId { buffer_id: s.id, generation: s.generation })
    &&& lease.spec_scope() == scope
    &&& lease.spec_capacity() == s.capacity_bytes
    &&& lease.spec_requested() == req
}

/// Bounded render-buffer slots with generation-checked leases.
#[derive(Debug)]
pub struct RenderBufferPool {
    limits: RenderBufferPoolLimits,
    slots: Vec<Slot>,
    total_capacity_bytes: usize,
}

/// A slot is consistent: its identity is its position, its capacity is within the slot
/// budget, and a lease or publication stays inside the capacity.
pub open spec fn slot_wf(s: Slot, i: int, limits: RenderBufferPoolLimits) -> bool {
    &&& s.id.0 == i
    &&& 0 < s.capacity_bytes <= limits.spec_slot_bytes()
    &&& (s.state matches SlotState::Leased { requested_bytes, .. } ==> 0 < requested_bytes <= s.capacity_bytes)
    &&& (s.state matches SlotState::Ready { written_bytes, .. } ==> 0 < written_bytes <= s.capacity_bytes)
    &&& (s.state matches SlotState::Retained { written_bytes, .. } ==> 0 < written_bytes <= s.capacity_bytes)
}

impl RenderBufferPool {
    pub closed spec fn spec_limits(&self) -> RenderBufferPoolLimits {
        self.limits
    }

    pub closed spec fn spec_slots(&self) -> Seq<Slot> {
        self.slots@
    }

    pub closed spec fn spec_total(&self) -> usize {
        self.total_capacity_bytes
    }

    /// The pool invariant: valid limits, slot and byte budgets respected, the running total
    /// equal to the slots' capacities, and every scope within its lease budget.
    pub open spec fn wf(&self) -> bool {
        &&& limits_valid(self.spec_limits())
        &&& self.spec_slots().len() <= self.spec_limits().spec_slots()
        &&& forall|i: int| 0 <= i < self.spec_slots().len() ==> slot_wf(#[trigger] self.spec_slots()[i], i, self.spec_limits())
        &&& self.spec_total() == total_capacity(self.spec_slots())
        &&& self.spec_total() <= self.spec_limits().spec_total()
        &&& forall|scope: RenderScope| #[trigger] count_where(self.spec_slots(), leased_to(scope)) <= self.spec_limits().spec_per_scope()
    }

    /// An empty pool under valid limits.
    pub fn new(limits: RenderBufferPoolLimits) -> (p: Self)
        requires
            limits_valid(limits),
        ensures
            p.wf(),
            p.spec_limits() == limits,
            p.spec_slots().len() == 0,
            p.spec_total() == 0,
    {
        let p = RenderBufferPool { limits, slots: Vec::new(), total_capacity_bytes: 0 };
        proof {
            assert forall|scope: RenderScope| #[trigger] count_where(p.spec_slots(), leased_to(scope)) <= p.spec_limits().spec_per_scope() by {
                assert(count_where(p.spec_slots(), leased_to(scope)) == 0);
            }
        }
        p
    }

    pub fn limits(&self) -> (l: RenderBufferPoolLimits)
        ensures
            l == self.spec_limits(),
    {
        self.limits
    }

    /// The smallest available slot that fits the request (the first among equals).
    fn best_reusable_slot(&self, requested_bytes: usize) -> (r: Option<usize>)
        ensures
            r matches Some(i) ==> best_fit(self.spec_slots(), requested_bytes, i as int)
                && forall|j: int| #[trigger] best_fit(self.spec_slots(), requested_bytes, j) ==> j == i,
            r is None ==> forall|j: int| 0 <= j < self.spec_slots().len() ==> !#[trigger] reusable(self.spec_slots()[j], requested_bytes),
    {
        let ghost sl = self.slots@;
        let mut best: Option<usize> = None;
        let mut k: usize = 0;
        while k < self.slots.len()
            invariant
                sl == self.slots@,
                0 <= k <= sl.len(),
                best is None ==> forall|j: int| 0 <= j < k ==> !#[trigger] reusable(sl[j], requested_bytes),
                best matches Some(b) ==> {
                    &&& b < k
                    &&& reusable(sl[b as int], requested_bytes)
                    &&& forall|j: int| 0 <= j < k && #[trigger] reusable(sl[j], requested_bytes) ==> sl[b as int].capacity_bytes <= sl[j].capacity_bytes
                    &&& forall|j: int| 0 <= j < b && #[trigger] reusable(sl[j], requested_bytes) ==> sl[j].capacity_bytes > sl[b as int].capacity_bytes
                },
            decreases sl.len() - k,
        {
            let slot = &self.slots[k];
            if slot.state == SlotState::Available && slot.capacity_bytes >= requested_bytes {
                match best {
                    None => {
                        best = Some(k);
                    },
                    Some(b) => {
                        if slot.capacity_bytes < self.slots[b].capacity_bytes {
                            best = Some(k);
                        }
                    },
                }
            }
            k = k + 1;
        }
        proof {
            if let Some(b) = best {
                assert forall|j: int| #[trigger] best_fit(sl, requested_bytes, j) implies j == b by {
                    if j < b {
                        assert(sl[j].capacity_bytes > sl[b as int].capacity_bytes);
                        assert(sl[b as int].capacity_bytes <= sl[j].capacity_bytes);
                    } else if j > b {
                        assert(sl[b as int].capacity_bytes > sl[j].capacity_bytes);
                    }
                }
            }
        }
        best
    }

    /// Grows the largest available slot that is too small for the request (the last among
    /// equals), when the byte budget allows.
    fn grow_reusable_slot(&mut self, requested_bytes: usize) -> (r: Option<usize>)
        requires
            old(self).wf(),
            0 < requested_bytes <= old(self).spec_limits().spec_slot_bytes(),
        ensures
            final(self).spec_limits() == old(self).spec_limits(),
            r is None ==> *final(self) == *old(self) && !exists|i: int| widest_growable(old(self).spec_slots(), requested_bytes, i)
                && old(self).spec_total() + requested_bytes - old(self).spec_slots()[i].capacity_bytes <= old(self).spec_limits().spec_total(),
            r matches Some(i) ==> {
                &&& widest_growable(old(self).spec_slots(), requested_bytes, i as int)
                &&& forall|j: int| #[trigger] widest_growable(old(self).spec_slots(), requested_bytes, j) ==> j == i
                &&& old(self).spec_total() + requested_bytes - old(self).spec_slots()[i as int].capacity_bytes <= old(self).spec_limits().spec_total()
                &&& final(self).spec_slots() == old(self).spec_slots().update(i as int,
                    Slot { capacity_bytes: requested_bytes, ..old(self).spec_slots()[i as int] })
                &&& final(self).spec_total() == old(self).spec_total() + requested_bytes - old(self).spec_slots()[i as int].capacity_bytes
            },
    {
        let ghost sl = self.slots@;
        let mut widest: Option<usize> = None;
        let mut k: usize = 0;
        while k < self.slots.len()
            invariant
                sl == self.slots@,
                0 <= k <= sl.len(),
                widest is None ==> forall|j: int| 0 <= j < k ==> !#[trigger] growable(sl[j], requested_bytes),
                widest matches Some(w) ==> {
                    &&& w < k
                    &&& growable(sl[w as int], requested_bytes)
                    &&& forall|j: int| 0 <= j < k && #[trigger] growable(sl[j], requested_bytes) ==> sl[j].capacity_bytes <= sl[w as int].capacity_bytes
                    &&& forall|j: int| w < j < k && #[trigger] growable(sl[j], requested_bytes) ==> sl[j].capacity_bytes < sl[w as int].capacity_bytes
                },
            decreases sl.len() - k,
        {
            let slot = &self.slots[k];
            if slot.state == SlotState::Available && slot.capacity_bytes < requested_bytes {
                match widest {
                    None => {
                        widest = Some(k);
                    },
                    Some(w) => {
                        if slot.capacity_bytes >= self.slots[w].capacity_bytes {
                            widest = Some(k);
                        }
                    },
                }
            }
            k = k + 1;
        }
        let index = match widest {
            None => {
                return None;
            },
            Some(w) => w,
        };
        proof {
            assert forall|i: int| widest_growable(sl, requested_bytes, i) implies i == index by {
                if i != index {
                    if i < index {
                        assert(sl[i].capacity_bytes <= sl[index as int].capacity_bytes);
                        assert(sl[index as int].capacity_bytes <= sl[i].capacity_bytes);
                    } else {
                        assert(sl[i].capacity_bytes < sl[index as int].capacity_bytes);
                    }
                }
            }
        }
        let current_capacity = self.slots[index].capacity_bytes;
        let additional = requested_bytes - current_capacity;
        let new_total = match self.total_capacity_bytes.checked_add(additional) {
            None => {
                return None;
            },
            Some(t) => t,
        };
        if new_total > self.limits.max_total_bytes {
            return None;
        }
        let old_slot = self.slots[index];
        self.slots.set(index, Slot { capacity_bytes: requested_bytes, ..old_slot });
        self.total_capacity_bytes = new_total;
        Some(index)
    }

    /// Adds a new slot for the request, when the slot and byte budgets allow.
    fn allocate_slot(&mut self, requested_bytes: usize) -> (r: Option<usize>)
        requires
            old(self).wf(),
        ensures
            final(self).spec_limits() == old(self).spec_limits(),
            r is None ==> *final(self) == *old(self) && !(old(self).spec_slots().len() < old(self).spec_limits().spec_slots()
                && old(self).spec_total() + requested_bytes <= old(self).spec_limits().spec_total()),
            r matches Some(i) ==> {
                &&& i == old(self).spec_slots().len()
                &&& old(self).spec_slots().len() < old(self).spec_limits().spec_slots()
                &&& old(self).spec_total() + requested_bytes <= old(self).spec_limits().spec_total()
                &&& final(self).spec_slots() == old(self).spec_slots().push(Slot {
                    id: RenderBufferId(old(self).spec_slots().len() as u32),
                    generation: RenderLeaseGeneration(0),
                    capacity_bytes: requested_bytes,
                    state: SlotState::Available,
                })
                &&& final(self).spec_total() == old(self).spec_total() + requested_bytes
            },
    {
        if self.slots.len() >= self.limits.max_slots {
            return None;
        }
        let new_total = match self.total_capacity_bytes.checked_add(requested_bytes) {
            None => {
                return None;
            },
            Some(t) => t,
        };
        if new_total > self.limits.max_total_bytes {
            return None;
        }
        let id = RenderBufferId(self.slots.len() as u32);
        self.slots.push(Slot { id, generation: RenderLeaseGeneration(0), capacity_bytes: requested_bytes, state: SlotState::Available });
        self.total_capacity_bytes = new_total;
        Some(self.slots.len() - 1)
    }

    /// Leases a slot for `requested_bytes` to `scope`: the request must be nonzero and within
    /// the slot budget, and the scope within its lease budget; the slot is placed as
    /// `placement` says and its generation advances, so no earlier lease id names it again.
    #[verifier::rlimit(40)]
    pub fn acquire(&mut self, scope: RenderScope, requested_bytes: usize) -> (r: Result<RenderWriteLease, RenderBufferAcquireError>)
        requires
            old(self).wf(),
        ensures
            final(self).wf(),
            final(self).spec_limits() == old(self).spec_limits(),
            pool_step(*old(self), *final(self)),
            requested_bytes == 0 ==> r == Err::<RenderWriteLease, RenderBufferAcquireError>(RenderBufferAcquireError::ZeroByteRequest)
                && *final(self) == *old(self),
            requested_bytes > 0 && requested_bytes > old(self).spec_limits().spec_slot_bytes() ==> r == Err::<RenderWriteLease, RenderBufferAcquireError>(
                RenderBufferAcquireError::RequestExceedsSlotLimit { requested: requested_bytes, limit: old(self).spec_limits().spec_slot_bytes() })
                && *final(self) == *old(self),
            0 < requested_bytes <= old(self).spec_limits().spec_slot_bytes()
                && count_where(old(self).spec_slots(), leased_to(scope)) >= old(self).spec_limits().spec_per_scope()
                ==> r == Err::<RenderWriteLease, RenderBufferAcquireError>(
                    RenderBufferAcquireError::ScopeLeaseLimitReached { limit: old(self).spec_limits().spec_per_scope() })
                && *final(self) == *old(self),
            final(self).spec_slots() == acquired_slots(old(self).spec_slots(), old(self).spec_total() as int, old(self).spec_limits(), scope, requested_bytes),
            match acquire_error(old(self).spec_slots(), old(self).spec_total() as int, old(self).spec_limits(), scope, requested_bytes) {
                Some(e) => r == Err::<RenderWriteLease, RenderBufferAcquireError>(e),
                None => r matches Ok(lease) && lease_of(lease, final(self).spec_slots()[
                    acquired_index(old(self).spec_slots(), old(self).spec_total() as int, old(self).spec_limits(), requested_bytes)], scope, requested_bytes),
            },
            acquire_error(old(self).spec_slots(), old(self).spec_total() as int, old(self).spec_limits(), scope, requested_bytes)
                matches Some(e) && !(e is LeaseGenerationExhausted) ==> *final(self) == *old(self),
    {
        if requested_bytes == 0 {
            return Err(RenderBufferAcquireError::ZeroByteRequest);
        }
        if requested_bytes > self.limits.max_slot_bytes {
            return Err(RenderBufferAcquireError::RequestExceedsSlotLimit { requested: requested_bytes, limit: self.limits.max_slot_bytes });
        }
        let outstanding = count_leased_to(&self.slots, scope);
        if outstanding >= self.limits.max_outstanding_leases_per_scope {
            return Err(RenderBufferAcquireError::ScopeLeaseLimitReached { limit: self.limits.max_outstanding_leases_per_scope });
        }
        let ghost old_slots = self.slots@;
        let ghost old_total = self.total_capacity_bytes as int;
        let ghost p = placement(old_slots, old_total, self.limits, requested_bytes);
        let slot_index = match self.best_reusable_slot(requested_bytes) {
            Some(i) => {
                proof {
                    assert(exists|j: int| best_fit(old_slots, requested_bytes, j));
                }
                i
            },
            None => {
                proof {
                    assert(!exists|j: int| best_fit(old_slots, requested_bytes, j));
                }
                match self.grow_reusable_slot(requested_bytes) {
                    Some(i) => {
                        proof {
                            let wit = i as int;
                            assert(widest_growable(old_slots, requested_bytes, wit)
                                && old_total + requested_bytes - old_slots[wit].capacity_bytes <= self.limits.spec_total());
                            lemma_total_update(old_slots, i as int, self.slots@[i as int]);
                            assert forall|sc: RenderScope| #[trigger] count_where(self.slots@, leased_to(sc)) == count_where(old_slots, leased_to(sc)) by {
                                lemma_count_update(old_slots, i as int, self.slots@[i as int], leased_to(sc));
                            }
                        }
                        i
                    },
                    None => match self.allocate_slot(requested_bytes) {
                        Some(i) => {
                            proof {
                                assert(self.slots@.drop_last() =~= old_slots);
                                assert forall|sc: RenderScope| #[trigger] count_where(self.slots@, leased_to(sc)) == count_where(old_slots, leased_to(sc)) by {
                                    assert(self.slots@.drop_last() =~= old_slots);
                                }
                            }
                            i
                        },
                        None => {
                            return Err(RenderBufferAcquireError::PoolExhausted);
                        },
                    },
                }
            },
        };
        proof {
            assert(self.slots@ == placed_slots(old_slots, p, requested_bytes));
            assert(slot_index == placed_index(old_slots, p));
            assert forall|sc: RenderScope| #[trigger] count_where(self.slots@, leased_to(sc)) <= self.limits.spec_per_scope() by {
                assert(count_where(old_slots, leased_to(sc)) <= self.limits.spec_per_scope());
            }
            assert forall|j: int| 0 <= j < self.slots@.len() implies slot_wf(#[trigger] self.slots@[j], j, self.limits) by {
                if j < old_slots.len() {
                    assert(slot_wf(old_slots[j], j, self.limits));
                }
            }
        }
        let slot = self.slots[slot_index];
        if slot.generation.0 == u64::MAX {
            return Err(RenderBufferAcquireError::LeaseGenerationExhausted { buffer_id: slot.id });
        }
        let generation = RenderLeaseGeneration(slot.generation.0 + 1);
        let ghost placed = self.slots@;
        let leased = Slot { generation, state: SlotState::Leased { scope, requested_bytes }, ..slot };
        self.slots.set(slot_index, leased);
        proof {
            lemma_total_update(placed, slot_index as int, leased);
            assert forall|sc: RenderScope| #[trigger] count_where(self.slots@, leased_to(sc)) <= self.limits.spec_per_scope() by {
                lemma_count_update(placed, slot_index as int, leased, leased_to(sc));
                assert(count_where(placed, leased_to(sc)) == count_where(old_slots, leased_to(sc)));
            }
            assert forall|j: int| 0 <= j < self.slots@.len() implies slot_wf(#[trigger] self.slots@[j], j, self.limits) by {
                assert(slot_wf(placed[j], j, self.limits));
            }
        }
        Ok(RenderWriteLease {
            id: RenderLeaseId { buffer_id: slot.id, generation },
            scope,
            capacity_bytes: slot.capacity_bytes,
            requested_bytes,
        })
    }

    /// The live slot a lease id names, or why it names none.
    fn validate_generation(&self, lease_id: RenderLeaseId) -> (r: Result<usize, RenderBufferTransitionError>)
        ensures
            r == generation_check(self.spec_slots(), lease_id),
    {
        let index = lease_id.buffer_id.0 as usize;
        if index >= self.slots.len() {
            return Err(RenderBufferTransitionError::UnknownBuffer(lease_id.buffer_id));
        }
        let slot = &self.slots[index];
        if slot.id != lease_id.buffer_id {
            return Err(RenderBufferTransitionError::UnknownBuffer(lease_id.buffer_id));
        }
        if slot.generation != lease_id.generation {
            return Err(RenderBufferTransitionError::StaleLease {
                buffer_id: lease_id.buffer_id,
                expected_generation: slot.generation,
                actual_generation: lease_id.generation,
            });
        }
        Ok(index)
    }

    /// Publishes `written_bytes` completed under a live lease of `scope`: the slot becomes
    /// ready for that scope and the scope's lease budget is released.
    pub fn publish(&mut self, lease_id: RenderLeaseId, scope: &RenderScope, written_bytes: usize) -> (r: Result<ReadyRenderBuffer, RenderBufferTransitionError>)
        requires
            old(self).wf(),
        ensures
            final(self).wf(),
            final(self).spec_limits() == old(self).spec_limits(),
            pool_step(*old(self), *final(self)),
            match publish_outcome(old(self).spec_slots(), lease_id, *scope, written_bytes) {
                Err(e) => r == Err::<ReadyRenderBuffer, RenderBufferTransitionError>(e) && *final(self) == *old(self),
                Ok(after) => {
                    &&& final(self).spec_slots() == after
                    &&& r matches Ok(ready)
                    &&& ready.spec_id() == lease_id
                    &&& ready.spec_scope() == *scope
                    &&& ready.spec_capacity() == old(self).spec_slots()[lease_id.buffer_id.0 as int].capacity_bytes
                    &&& ready.spec_written() == written_bytes
                },
            },
    {
        let index = match self.validate_generation(lease_id) {
            Err(e) => {
                return Err(e);
            },
            Ok(i) => i,
        };
        let slot = self.slots[index];
        let (owner, requested_bytes) = match slot.state {
            SlotState::Leased { scope: owner, requested_bytes } => (owner, requested_bytes),
            other => {
                return Err(RenderBufferTransitionError::WrongState { expected: RenderBufferSlotState::Leased, actual: other.public() });
            },
        };
        if owner != *scope {
            return Err(RenderBufferTransitionError::WrongScope);
        }
        if written_bytes == 0 {
            return Err(RenderBufferTransitionError::ZeroByteCompletion);
        }
        if written_bytes > requested_bytes {
            return Err(RenderBufferTransitionError::CompletionExceedsRequest { written: written_bytes, requested: requested_bytes });
        }
        let ghost before = self.slots@;
        let updated = Slot { state: SlotState::Ready { scope: owner, written_bytes }, ..slot };
        self.slots.set(index, updated);
        proof {
            self.lemma_state_change_keeps_wf(before, index as int, updated);
        }
        Ok(ReadyRenderBuffer { id: lease_id, scope: owner, capacity_bytes: slot.capacity_bytes, written_bytes })
    }

    /// Replacing one slot's state (same identity, generation and capacity) by one that is
    /// consistent and leases no more than before keeps the pool invariant.
    proof fn lemma_state_change_keeps_wf(&self, before: Seq<Slot>, i: int, x: Slot)
        requires
            limits_valid(self.limits),
            before.len() <= self.limits.spec_slots(),
            forall|j: int| 0 <= j < before.len() ==> slot_wf(#[trigger] before[j], j, self.limits),
            self.total_capacity_bytes == total_capacity(before),
            self.total_capacity_bytes <= self.limits.spec_total(),
            forall|scope: RenderScope| #[trigger] count_where(before, leased_to(scope)) <= self.limits.spec_per_scope(),
            0 <= i < before.len(),
            x.id == before[i].id,
            x.capacity_bytes == before[i].capacity_bytes,
            slot_wf(x, i, self.limits),
            !(x.state is Leased),
            self.slots@ == before.update(i, x),
        ensures
            self.wf(),
    {
        lemma_total_update(before, i, x);
        assert forall|scope: RenderScope| #[trigger] count_where(self.slots@, leased_to(scope)) <= self.limits.spec_per_scope() by {
            lemma_count_update(before, i, x, leased_to(scope));
        }
        assert forall|j: int| 0 <= j < self.slots@.len() implies slot_wf(#[trigger] self.slots@[j], j, self.limits) by {
            if j != i {
                assert(slot_wf(before[j], j, self.limits));
            }
        }
    }

    /// Keeps a ready buffer of `scope` retained.
    pub fn retain(&mut self, lease_id: RenderLeaseId, scope: &RenderScope) -> (r: Result<(), RenderBufferTransitionError>)
        requires
            old(self).wf(),
        ensures
            final(self).wf(),
            final(self).spec_limits() == old(self).spec_limits(),
            pool_step(*old(self), *final(self)),
            match retain_outcome(old(self).spec_slots(), lease_id, *scope) {
                Err(e) => r == Err::<(), RenderBufferTransitionError>(e) && *final(self) == *old(self),
                Ok(after) => r is Ok && final(self).spec_slots() == after,
            },
    {
        let index = match self.validate_generation(lease_id) {
            Err(e) => {
                return Err(e);
            },
            Ok(i) => i,
        };
        let slot = self.slots[index];
        let (owner, written_bytes) = match slot.state {
            SlotState::Ready { scope: owner, written_bytes } => (owner, written_bytes),
            other => {
                return Err(RenderBufferTransitionError::WrongState { expected: RenderBufferSlotState::Ready, actual: other.public() });
            },
        };
        if owner != *scope {
            return Err(RenderBufferTransitionError::WrongScope);
        }
        let ghost before = self.slots@;
        let updated = Slot { state: SlotState::Retained { scope: owner, written_bytes }, ..slot };
        self.slots.set(index, updated);
        proof {
            self.lemma_state_change_keeps_wf(before, index as int, updated);
        }
        Ok(())
    }

    /// Returns a ready or retained buffer of `scope` to the available slots.
    pub fn recycle(&mut self, lease_id: RenderLeaseId, scope: &RenderScope) -> (r: Result<(), RenderBufferTransitionError>)
        requires
            old(self).wf(),
        ensures
            final(self).wf(),
            final(self).spec_limits() == old(self).spec_limits(),
            pool_step(*old(self), *final(self)),
            match recycle_outcome(old(self).spec_slots(), lease_id, *scope) {
                Err(e) => r == Err::<(), RenderBufferTransitionError>(e) && *final(self) == *old(self),
                Ok(after) => r is Ok && final(self).spec_slots() == after,
            },
    {
        let index = match self.validate_generation(lease_id) {
            Err(e) => {
                return Err(e);
            },
            Ok(i) => i,
        };
        let slot = self.slots[index];
        let owner = match slot.state {
            SlotState::Ready { scope: owner, .. } => owner,
            SlotState::Retained { scope: owner, .. } => owner,
            other => {
                return Err(RenderBufferTransitionError::WrongState { expected: RenderBufferSlotState::Ready, actual: other.public() });
            },
        };
        if owner != *scope {
            return Err(RenderBufferTransitionError::WrongScope);
        }
        let ghost before = self.slots@;
        let updated = Slot { state: SlotState::Available, ..slot };
        self.slots.set(index, updated);
        proof {
            self.lemma_state_change_keeps_wf(before, index as int, updated);
        }
        Ok(())
    }

    /// Reclaims every slot of `scope` (leased, ready or retained): each becomes available with
    /// its generation kept, so an old lease id is refused now for the state and, once the slot
    /// is leased again, for the generation. Returns how many slots of each state were reclaimed.
    pub fn invalidate_scope(&mut self, scope: &RenderScope) -> (r: RenderScopeInvalidation)
        requires
            old(self).wf(),
        ensures
            final(self).wf(),
            final(self).spec_limits() == old(self).spec_limits(),
            pool_step(*old(self), *final(self)),
            final(self).spec_total() == old(self).spec_total(),
            final(self).spec_slots() == invalidated(old(self).spec_slots(), *scope),
            r.leased_reclaimed == count_where(old(self).spec_slots(), leased_to(*scope)),
            r.ready_reclaimed == count_where(old(self).spec_slots(), ready_for(*scope)),
            r.retained_reclaimed == count_where(old(self).spec_slots(), retained_by(*scope)),
    {
        let ghost old_slots = self.slots@;
        let ghost sc = *scope;
        let mut result = RenderScopeInvalidation { leased_reclaimed: 0, ready_reclaimed: 0, retained_reclaimed: 0 };
        let mut i: usize = 0;
        proof {
            assert(old_slots.subrange(0, 0) =~= Seq::<Slot>::empty());
        }
        while i < self.slots.len()
            invariant
                self.wf(),
                self.limits == old(self).limits,
                self.total_capacity_bytes == old(self).total_capacity_bytes,
                old_slots == old(self).slots@,
                sc == *scope,
                self.slots@.len() == old_slots.len(),
                0 <= i <= old_slots.len(),
                forall|j: int| 0 <= j < i ==> self.slots@[j] == reclaimed_for(old_slots[j], sc),
                forall|j: int| i <= j < old_slots.len() ==> self.slots@[j] == old_slots[j],
                result.leased_reclaimed == count_where(old_slots.subrange(0, i as int), leased_to(sc)),
                result.ready_reclaimed == count_where(old_slots.subrange(0, i as int), ready_for(sc)),
                result.retained_reclaimed == count_where(old_slots.subrange(0, i as int), retained_by(sc)),
            decreases old_slots.len() - i,
        {
            proof {
                lemma_prefix_step(old_slots, i as int);
                lemma_count_bound(old_slots.subrange(0, i as int), leased_to(sc));
                lemma_count_bound(old_slots.subrange(0, i as int), ready_for(sc));
                lemma_count_bound(old_slots.subrange(0, i as int), retained_by(sc));
            }
            let slot = self.slots[i];
            let reclaimed = match slot.state {
                SlotState::Leased { scope: owner, .. } => {
                    if owner == *scope {
                        result.leased_reclaimed = result.leased_reclaimed + 1;
                        true
                    } else {
                        false
                    }
                },
                SlotState::Ready { scope: owner, .. } => {
                    if owner == *scope {
                        result.ready_reclaimed = result.ready_reclaimed + 1;
                        true
                    } else {
                        false
                    }
                },
                SlotState::Retained { scope: owner, .. } => {
                    if owner == *scope {
                        result.retained_reclaimed = result.retained_reclaimed + 1;
                        true
                    } else {
                        false
                    }
                },
                SlotState::Available => false,
            };
            if reclaimed {
                let ghost before = self.slots@;
                let updated = Slot { state: SlotState::Available, ..slot };
                self.slots.set(i, updated);
                proof {
                    self.lemma_state_change_keeps_wf(before, i as int, updated);
                }
            }
            i = i + 1;
        }
        proof {
            assert(old_slots.subrange(0, old_slots.len() as int) =~= old_slots);
            assert(self.slots@ =~= invalidated(old_slots, sc));
        }
        result
    }

    /// Whether a write lease is still live for its scope.
    pub fn validate_write_lease(&self, lease: &RenderWriteLease) -> (r: Result<(), RenderBufferTransitionError>)
        ensures
            r == write_lease_check(self.spec_slots(), lease.spec_id(), lease.spec_scope()),
    {
        let index = match self.validate_generation(lease.id()) {
            Err(e) => {
                return Err(e);
            },
            Ok(i) => i,
        };
        match self.slots[index].state {
            SlotState::Leased { scope, .. } => {
                if scope != *lease.scope() {
                    return Err(RenderBufferTransitionError::WrongScope);
                }
                Ok(())
            },
            other => Err(RenderBufferTransitionError::WrongState { expected: RenderBufferSlotState::Leased, actual: other.public() }),
        }
    }

    /// Whether a publication token still names a ready or retained buffer of its scope.
    pub fn validate_readable_buffer(&self, ready: &ReadyRenderBuffer) -> (r: Result<(), RenderBufferTransitionError>)
        ensures
            r == readable_check(self.spec_slots(), ready.spec_id(), ready.spec_scope()),
    {
        let index = match self.validate_generation(ready.id()) {
            Err(e) => {
                return Err(e);
            },
            Ok(i) => i,
        };
        let owner = match self.slots[index].state {
            SlotState::Ready { scope: owner, .. } => owner,
            SlotState::Retained { scope: owner, .. } => owner,
            other => {
                return Err(RenderBufferTransitionError::WrongState { expected: RenderBufferSlotState::Ready, actual: other.public() });
            },
        };
        if owner != *ready.scope() {
            return Err(RenderBufferTransitionError::WrongScope);
        }
        Ok(())
    }

    /// The slot a buffer id names.
    fn slot(&self, buffer_id: RenderBufferId) -> (r: Option<&Slot>)
        ensures
            match slot_named(self.spec_slots(), buffer_id) {
                Some(s) => r matches Some(x) && *x == s,
                None => r is None,
            },
    {
        let index = buffer_id.0 as usize;
        if index >= self.slots.len() {
            return None;
        }
        let slot = &self.slots[index];
        if slot.id != buffer_id {
            return None;
        }
        Some(slot)
    }

    /// The public state of the slot a buffer id names.
    pub fn slot_state(&self, buffer_id: RenderBufferId) -> (r: Option<RenderBufferSlotState>)
        ensures
            match slot_named(self.spec_slots(), buffer_id) {
                Some(s) => r == Some(public_state(s.state)),
                None => r is None,
            },
    {
        match self.slot(buffer_id) {
            Some(slot) => Some(slot.state.public()),
            None => None,
        }
    }

    /// The capacity of the slot a buffer id names.
    pub fn slot_capacity_bytes(&self, buffer_id: RenderBufferId) -> (r: Option<usize>)
        ensures
            match slot_named(self.spec_slots(), buffer_id) {
                Some(s) => r == Some(s.capacity_bytes),
                None => r is None,
            },
    {
        match self.slot(buffer_id) {
            Some(slot) => Some(slot.capacity_bytes),
            None => None,
        }
    }

    /// The published byte count of the slot a buffer id names, while it is ready or retained.
    pub fn slot_written_bytes(&self, buffer_id: RenderBufferId) -> (r: Option<usize>)
        ensures
            match slot_named(self.spec_slots(), buffer_id) {
                Some(s) => match s.state {
                    SlotState::Ready { written_bytes, .. } | SlotState::Retained { written_bytes, .. } => r == Some(written_bytes),
                    _ => r is None,
                },
                None => r is None,
            },
    {
        match self.slot(buffer_id) {
            Some(slot) => match slot.state {
                SlotState::Ready { written_bytes, .. } => Some(written_bytes),
                SlotState::Retained { written_bytes, .. } => Some(written_bytes),
                _ => None,
            },
            None => None,
        }
    }

    /// Capacity, slot count and the number of slots in each state.
    pub fn stats(&self) -> (st: RenderBufferPoolStats)
        ensures
            st.total_capacity_bytes == self.spec_total(),
            st.slot_count == self.spec_slots().len(),
            st.available_slots == count_where(self.spec_slots(), in_state(RenderBufferSlotState::Available)),
            st.leased_slots == count_where(self.spec_slots(), in_state(RenderBufferSlotState::Leased)),
            st.ready_slots == count_where(self.spec_slots(), in_state(RenderBufferSlotState::Ready)),
            st.retained_slots == count_where(self.spec_slots(), in_state(RenderBufferSlotState::Retained)),
    {
        let ghost sl = self.slots@;
        let mut st = RenderBufferPoolStats {
            total_capacity_bytes: self.total_capacity_bytes,
            slot_count: self.slots.len(),
            available_slots: 0,
            leased_slots: 0,
            ready_slots: 0,
            retained_slots: 0,
        };
        let mut i: usize = 0;
        proof {
            assert(sl.subrange(0, 0) =~= Seq::<Slot>::empty());
        }
        while i < self.slots.len()
            invariant
                sl == self.slots@,
                0 <= i <= sl.len(),
                st.total_capacity_bytes == self.total_capacity_bytes,
                st.slot_count == sl.len(),
                st.available_slots == count_where(sl.subrange(0, i as int), in_state(RenderBufferSlotState::Available)),
                st.leased_slots == count_where(sl.subrange(0, i as int), in_state(RenderBufferSlotState::Leased)),
                st.ready_slots == count_where(sl.subrange(0, i as int), in_state(RenderBufferSlotState::Ready)),
                st.retained_slots == count_where(sl.subrange(0, i as int), in_state(RenderBufferSlotState::Retained)),
            decreases sl.len() - i,
        {
            proof {
                lemma_prefix_step(sl, i as int);
                lemma_count_bound(sl.subrange(0, i as int), in_state(RenderBufferSlotState::Available));
                lemma_count_bound(sl.subrange(0, i as int), in_state(RenderBufferSlotState::Leased));
                lemma_count_bound(sl.subrange(0, i as int), in_state(RenderBufferSlotState::Ready));
                lemma_count_bound(sl.subrange(0, i as int), in_state(RenderBufferSlotState::Retained));
            }
            match self.slots[i].state {
                SlotState::Available => st.available_slots = st.available_slots + 1,
                SlotState::Leased { .. } => st.leased_slots = st.leased_slots + 1,
                SlotState::Ready { .. } => st.ready_slots = st.ready_slots + 1,
                SlotState::Retained { .. } => st.retained_slots = st.retained_slots + 1,
            }
            i = i + 1;
        }
        proof {
            assert(sl.subrange(0, sl.len() as int) =~= sl);
        }
        st
    }

    /// Releases a live lease of `scope` without publishing; its slot becomes available.
    pub fn cancel(&mut self, lease_id: RenderLeaseId, scope: &RenderScope) -> (r: Result<(), RenderBufferTransitionError>)
        requires
            old(self).wf(),
        ensures
            final(self).wf(),
            final(self).spec_limits() == old(self).spec_limits(),
            pool_step(*old(self), *final(self)),
            match cancel_outcome(old(self).spec_slots(), lease_id, *scope) {
                Err(e) => r == Err::<(), RenderBufferTransitionError>(e) && *final(self) == *old(self),
                Ok(after) => r is Ok && final(self).spec_slots() == after,
            },
    {
        let index = match self.validate_generation(lease_id) {
            Err(e) => {
                return Err(e);
            },
            Ok(i) => i,
        };
        let slot = self.slots[index];
        let owner = match slot.state {
            SlotState::Leased { scope: owner, .. } => owner,
            other => {
                return Err(RenderBufferTransitionError::WrongState { expected: RenderBufferSlotState::Leased, actual: other.public() });
            },
        };
        if owner != *scope {
            return Err(RenderBufferTransitionError::WrongScope);
        }
        let ghost before = self.slots@;
        let updated = Slot { state: SlotState::Available, ..slot };
        self.slots.set(index, updated);
        proof {
            self.lemma_state_change_keeps_wf(before, index as int, updated);
        }
        Ok(())
    }
}

/// Publishing `written` bytes under a lease of `scope`: the lease must be live, `scope` its
/// owner, and `written` nonzero and within the request; the slot becomes ready.
pub open spec fn publish_outcome(slots: Seq<Slot>, lease_id: RenderLeaseId, scope: RenderScope, written: usize) -> Result<Seq<Slot>, RenderBufferTransitionError> {
    match generation_check(slots, lease_id) {
        Err(e) => Err(e),
        Ok(i) => match slots[i as int].state {
            SlotState::Leased { scope: owner, requested_bytes } => if owner != scope {
                Err(RenderBufferTransitionError::WrongScope)
            } else if written == 0 {
                Err(RenderBufferTransitionError::ZeroByteCompletion)
            } else if written > requested_bytes {
                Err(RenderBufferTransitionError::CompletionExceedsRequest { written, requested: requested_bytes })
            } else {
                Ok(slots.update(i as int, Slot { state: SlotState::Ready { scope: owner, written_bytes: written }, ..slots[i as int] }))
            },
            other => Err(RenderBufferTransitionError::WrongState { expected: RenderBufferSlotState::Leased, actual: public_state(other) }),
        },
    }
}

/// Retaining a ready buffer of `scope`.
pub open spec fn retain_outcome(slots: Seq<Slot>, lease_id: RenderLeaseId, scope: RenderScope) -> Result<Seq<Slot>, RenderBufferTransitionError> {
    match generation_check(slots, lease_id) {
        Err(e) => Err(e),
        Ok(i) => match slots[i as int].state {
            SlotState::Ready { scope: owner, written_bytes } => if owner != scope {
                Err(RenderBufferTransitionError::WrongScope)
            } else {
                Ok(slots.update(i as int, Slot { state: SlotState::Retained { scope: owner, written_bytes }, ..slots[i as int] }))
            },
            other => Err(RenderBufferTransitionError::WrongState { expected: RenderBufferSlotState::Ready, actual: public_state(other) }),
        },
    }
}

/// Recycling a ready or retained buffer of `scope` to an available slot.
pub open spec fn recycle_outcome(slots: Seq<Slot>, lease_id: RenderLeaseId, scope: RenderScope) -> Result<Seq<Slot>, RenderBufferTransitionError> {
    match generation_check(slots, lease_id) {
        Err(e) => Err(e),
        Ok(i) => match slots[i as int].state {
            SlotState::Ready { scope: owner, .. } | SlotState::Retained { scope: owner, .. } => if owner != scope {
                Err(RenderBufferTransitionError::WrongScope)
            } else {
                Ok(slots.update(i as int, Slot { state: SlotState::Available, ..slots[i as int] }))
            },
            other => Err(RenderBufferTransitionError::WrongState { expected: RenderBufferSlotState::Ready, actual: public_state(other) }),
        },
    }
}

/// Cancelling a live lease of `scope`: its slot becomes available.
pub open spec fn cancel_outcome(slots: Seq<Slot>, lease_id: RenderLeaseId, scope: RenderScope) -> Result<Seq<Slot>, RenderBufferTransitionError> {
    match generation_check(slots, lease_id) {
        Err(e) => Err(e),
        Ok(i) => match slots[i as int].state {
            SlotState::Leased { scope: owner, .. } => if owner != scope {
                Err(RenderBufferTransitionError::WrongScope)
            } else {
                Ok(slots.update(i as int, Slot { state: SlotState::Available, ..slots[i as int] }))
            },
            other => Err(RenderBufferTransitionError::WrongState { expected: RenderBufferSlotState::Leased, actual: public_state(other) }),
        },
    }
}

/// A slot with its state reclaimed when it belongs to `scope`.
pub open spec fn reclaimed_for(s: Slot, scope: RenderScope) -> Slot {
    if owned_by(s, scope) {
        Slot { state: SlotState::Available, ..s }
    } else {
        s
    }
}

/// The slots after every slot of `scope` is reclaimed.
pub open spec fn invalidated(slots: Seq<Slot>, scope: RenderScope) -> Seq<Slot> {
    slots.map_values(|s: Slot| reclaimed_for(s, scope))
}

/// Why a write lease is not live, if it is not: its generation must name the slot and the
/// slot must be leased to the lease's scope.
pub open spec fn write_lease_check(slots: Seq<Slot>, lease_id: RenderLeaseId, scope: RenderScope) -> Result<(), RenderBufferTransitionError> {
    match generation_check(slots, lease_id) {
        Err(e) => Err(e),
        Ok(i) => match slots[i as int].state {
            SlotState::Leased { scope: owner, .. } => if owner != scope {
                Err(RenderBufferTransitionError::WrongScope)
            } else {
                Ok(())
            },
            other => Err(RenderBufferTransitionError::WrongState { expected: RenderBufferSlotState::Leased, actual: public_state(other) }),
        },
    }
}

/// Why a publication token is not readable, if it is not: its generation must name the slot
/// and the slot must be ready or retained for the token's scope.
pub open spec fn readable_check(slots: Seq<Slot>, lease_id: RenderLeaseId, scope: RenderScope) -> Result<(), RenderBufferTransitionError> {
    match generation_check(slots, lease_id) {
        Err(e) => Err(e),
        Ok(i) => match slots[i as int].state {
            SlotState::Ready { scope: owner, .. } | SlotState::Retained { scope: owner, .. } => if owner != scope {
                Err(RenderBufferTransitionError::WrongScope)
            } else {
                Ok(())
            },
            other => Err(RenderBufferTransitionError::WrongState { expected: RenderBufferSlotState::Ready, actual: public_state(other) }),
        },
    }
}

/// The slot a buffer id names, if any.
pub open spec fn slot_named(slots: Seq<Slot>, buffer_id: RenderBufferId) -> Option<Slot> {
    let i = buffer_id.0 as int;
    if i < slots.len() && slots[i].id == buffer_id {
        Some(slots[i])
    } else {
        None
    }
}

/// Whether a lease id names a live slot generation, or why not.
pub open spec fn generation_check(slots: Seq<Slot>, lease_id: RenderLeaseId) -> Result<usize, RenderBufferTransitionError> {
    let i = lease_id.buffer_id.0 as int;
    if i >= slots.len() {
        Err(RenderBufferTransitionError::UnknownBuffer(lease_id.buffer_id))
    } else if slots[i].id != lease_id.buffer_id {
        Err(RenderBufferTransitionError::UnknownBuffer(lease_id.buffer_id))
    } else if slots[i].generation != lease_id.generation {
        Err(RenderBufferTransitionError::StaleLease {
            buffer_id: lease_id.buffer_id,
            expected_generation: slots[i].generation,
            actual_generation: lease_id.generation,
        })
    } else {
        Ok(i as usize)
    }
}

/// A pool's slots are consistent with its limits.
pub open spec fn slots_wf(slots: Seq<Slot>, limits: RenderBufferPoolLimits) -> bool {
    forall|j: int| 0 <= j < slots.len() ==> slot_wf(#[trigger] slots[j], j, limits)
}

/// Acquisition never lowers a slot's generation and never removes a slot; an admitted request
/// leaves its slot one generation above where it was.
pub proof fn law_acquire_generations_monotonic(slots: Seq<Slot>, total: int, limits: RenderBufferPoolLimits, scope: RenderScope, req: usize)
    requires
        slots_wf(slots, limits),
    ensures
        ({
            let after = acquired_slots(slots, total, limits, scope, req);
            &&& after.len() >= slots.len()
            &&& forall|j: int| 0 <= j < slots.len() ==> #[trigger] after[j].generation.0 >= slots[j].generation.0
            &&& acquire_error(slots, total, limits, scope, req) is None ==> {
                let i = acquired_index(slots, total, limits, req);
                &&& 0 <= i < after.len()
                &&& after[i].generation.0 == placed_slots(slots, placement(slots, total, limits, req), req)[i].generation.0 + 1
                &&& (i < slots.len() ==> after[i].generation.0 == slots[i].generation.0 + 1)
            }
        }),
{
    let p = placement(slots, total, limits, req);
    if p is Reuse {
        let i = choose|i: int| best_fit(slots, req, i);
        assert(best_fit(slots, req, i));
    } else if p is Grow {
        let i = choose|i: int| widest_growable(slots, req, i) && total + req - slots[i].capacity_bytes <= limits.spec_total();
        assert(widest_growable(slots, req, i));
    }
}

/// Once a slot is leased again, every lease id issued for it earlier is refused as stale.
pub proof fn law_reacquire_refuses_earlier_leases(
    slots: Seq<Slot>,
    total: int,
    limits: RenderBufferPoolLimits,
    scope: RenderScope,
    req: usize,
    earlier: RenderLeaseId,
)
    requires
        slots_wf(slots, limits),
        acquire_error(slots, total, limits, scope, req) is None,
        acquired_index(slots, total, limits, req) < slots.len(),
        earlier.buffer_id.0 == acquired_index(slots, total, limits, req),
        earlier.generation.0 <= slots[acquired_index(slots, total, limits, req)].generation.0,
    ensures
        ({
            let after = acquired_slots(slots, total, limits, scope, req);
            let i = acquired_index(slots, total, limits, req);
            generation_check(after, earlier) == Err::<usize, RenderBufferTransitionError>(RenderBufferTransitionError::StaleLease {
                buffer_id: earlier.buffer_id,
                expected_generation: after[i].generation,
                actual_generation: earlier.generation,
            })
        }),
{
    law_acquire_generations_monotonic(slots, total, limits, scope, req);
    let i = acquired_index(slots, total, limits, req);
    assert(slot_wf(slots[i], i, limits));
    let p = placement(slots, total, limits, req);
    assert(placed_slots(slots, p, req)[i].id == slots[i].id);
}

/// Publishing, retaining, recycling, cancelling and invalidating keep every slot's identity,
/// generation and capacity: only states change.
pub proof fn law_transitions_keep_generations(slots: Seq<Slot>, lease_id: RenderLeaseId, scope: RenderScope, written: usize)
    ensures
        publish_outcome(slots, lease_id, scope, written) matches Ok(after) ==> same_identities(slots, after),
        retain_outcome(slots, lease_id, scope) matches Ok(after) ==> same_identities(slots, after),
        recycle_outcome(slots, lease_id, scope) matches Ok(after) ==> same_identities(slots, after),
        cancel_outcome(slots, lease_id, scope) matches Ok(after) ==> same_identities(slots, after),
        same_identities(slots, invalidated(slots, scope)),
{
}

/// `b` keeps every slot of `a` (identity, no lower generation, no smaller capacity) and may
/// add slots.
pub open spec fn pool_grows(a: Seq<Slot>, b: Seq<Slot>) -> bool {
    &&& a.len() <= b.len()
    &&& forall|j: int| 0 <= j < a.len() ==> #[trigger] b[j].id == a[j].id && b[j].generation.0 >= a[j].generation.0
        && b[j].capacity_bytes >= a[j].capacity_bytes
}

/// One operation of a pool's history: the budgets hold afterwards, the limits are the same and
/// no slot shrinks, loses generations or disappears.
pub open spec fn pool_step(a: RenderBufferPool, b: RenderBufferPool) -> bool {
    &&& b.wf()
    &&& b.spec_limits() == a.spec_limits()
    &&& pool_grows(a.spec_slots(), b.spec_slots())
}

/// Over any history of pool operations from a pool that holds its budgets, every pool holds
/// them under the same limits: the slot count and total capacity stay within budget, every
/// slot within the slot budget, every scope within its lease budget; and no slot ever shrinks,
/// goes back a generation or disappears.
pub proof fn law_pool_history(h: Seq<RenderBufferPool>)
    requires
        h.len() >= 1,
        h[0].wf(),
        forall|k: int| 0 <= k < h.len() - 1 ==> pool_step(#[trigger] h[k], h[k + 1]),
    ensures
        forall|k: int| 0 <= k < h.len() ==> (#[trigger] h[k]).wf() && h[k].spec_limits() == h[0].spec_limits(),
        forall|j: int, k: int| 0 <= j <= k < h.len() ==> pool_grows(#[trigger] h[j].spec_slots(), #[trigger] h[k].spec_slots()),
    decreases h.len(),
{
    if h.len() > 1 {
        let rest = h.drop_first();
        assert forall|k: int| 0 <= k < rest.len() - 1 implies pool_step(#[trigger] rest[k], rest[k + 1]) by {
            assert(rest[k] == h[k + 1]);
            assert(rest[k + 1] == h[k + 2]);
            assert(pool_step(h[k + 1], h[k + 2]));
        }
        assert(pool_step(h[0], h[1]));
        law_pool_history(rest);
        assert forall|k: int| 0 <= k < h.len() implies (#[trigger] h[k]).wf() && h[k].spec_limits() == h[0].spec_limits() by {
            if k > 0 {
                assert(rest[k - 1] == h[k]);
                assert(rest[0] == h[1]);
            }
        }
        assert forall|j: int, k: int| 0 <= j <= k < h.len() implies pool_grows(#[trigger] h[j].spec_slots(), #[trigger] h[k].spec_slots()) by {
            if j == 0 {
                if k > 0 {
                    assert(rest[k - 1] == h[k]);
                    assert(rest[0] == h[1]);
                    assert(pool_grows(rest[0].spec_slots(), rest[k - 1].spec_slots()));
                    let a = h[0].spec_slots();
                    let m = h[1].spec_slots();
                    let c = h[k].spec_slots();
                    assert forall|q: int| 0 <= q < a.len() implies #[trigger] c[q].id == a[q].id && c[q].generation.0 >= a[q].generation.0
                        && c[q].capacity_bytes >= a[q].capacity_bytes by {
                        assert(m[q].id == a[q].id);
                        assert(c[q].id == m[q].id);
                    }
                } else {
                    let a = h[0].spec_slots();
                    assert forall|q: int| 0 <= q < a.len() implies #[trigger] a[q].id == a[q].id by {}
                }
            } else {
                assert(rest[j - 1] == h[j]);
                assert(rest[k - 1] == h[k]);
                assert(pool_grows(rest[j - 1].spec_slots(), rest[k - 1].spec_slots()));
            }
        }
    } else {
        assert forall|j: int, k: int| 0 <= j <= k < h.len() implies pool_grows(#[trigger] h[j].spec_slots(), #[trigger] h[k].spec_slots()) by {
            let a = h[0].spec_slots();
            assert forall|q: int| 0 <= q < a.len() implies #[trigger] a[q].id == a[q].id by {}
        }
    }
}

/// Two slot tables with the same slots up to state.
pub open spec fn same_identities(a: Seq<Slot>, b: Seq<Slot>) -> bool {
    &&& a.len() == b.len()
    &&& forall|j: int| 0 <= j < a.len() ==> {
        &&& #[trigger] b[j].id == a[j].id
        &&& b[j].generation == a[j].generation
        &&& b[j].capacity_bytes == a[j].capacity_bytes
    }
}

/// The diagnostic text of refused pool limits.
pub open spec fn limits_error_text(e: RenderBufferPoolLimitsError) -> Seq<char> {
    match e {
        RenderBufferPoolLimitsError::ZeroTotalBytes => "render pool total byte budget must be nonzero"@,
        RenderBufferPoolLimitsError::ZeroSlots => "render pool slot budget must be nonzero"@,
        RenderBufferPoolLimitsError::TooManySlots => "render pool slot budget exceeds u32 identity space"@,
        RenderBufferPoolLimitsError::ZeroSlotBytes => "render pool maximum slot capacity must be nonzero"@,
        RenderBufferPoolLimitsError::SlotExceedsTotalBudget => "render pool maximum slot capacity exceeds total byte budget"@,
        RenderBufferPoolLimitsError::ZeroOutstandingLeasesPerScope => "render pool per-scope outstanding lease budget must be nonzero"@,
    }
}

impl RenderBufferPoolLimitsError {
    /// The diagnostic text of the error.
    pub fn message(&self) -> (m: String)
        ensures
            m@ == limits_error_text(*self),
    {
        let mut m = String::new();
        match *self {
            RenderBufferPoolLimitsError::ZeroTotalBytes => {
                push_text(&mut m, "render pool total byte budget must be nonzero");
            },
            RenderBufferPoolLimitsError::ZeroSlots => {
                push_text(&mut m, "render pool slot budget must be nonzero");
            },
            RenderBufferPoolLimitsError::TooManySlots => {
                push_text(&mut m, "render pool slot budget exceeds u32 identity space");
            },
            RenderBufferPoolLimitsError::ZeroSlotBytes => {
                push_text(&mut m, "render pool maximum slot capacity must be nonzero");
            },
            RenderBufferPoolLimitsError::SlotExceedsTotalBudget => {
                push_text(&mut m, "render pool maximum slot capacity exceeds total byte budget");
            },
            RenderBufferPoolLimitsError::ZeroOutstandingLeasesPerScope => {
                push_text(&mut m, "render pool per-scope outstanding lease budget must be nonzero");
            },
        }
        proof {
            assert(m@ =~= limits_error_text(*self));
        }
        m
    }
}

/// The diagnostic text of an unknown pixel-format byte.
pub open spec fn unsupported_format_text(e: UnsupportedRenderPixelFormat) -> Seq<char> {
    "unsupported render pixel format "@ + decimal(e.0 as nat)
}

impl UnsupportedRenderPixelFormat {
    /// The diagnostic text of the error.
    pub fn message(&self) -> (m: String)
        ensures
            m@ == unsupported_format_text(*self),
    {
        let mut m = String::new();
        push_text(&mut m, "unsupported render pixel format ");
        push_decimal(&mut m, self.0 as u64);
        m
    }
}

/// The diagnostic text of refused raster metadata.
pub open spec fn descriptor_error_text(e: RenderRasterDescriptorError) -> Seq<char> {
    match e {
        RenderRasterDescriptorError::ZeroWidth => "render raster width must be nonzero"@,
        RenderRasterDescriptorError::ZeroHeight => "render raster height must be nonzero"@,
        RenderRasterDescriptorError::StrideTooSmall { stride, minimum } => "render raster stride "@ + decimal(stride as nat) + " is smaller than minimum row width "@ + decimal(minimum as nat),
        RenderRasterDescriptorError::GeometryOverflow => "render raster geometry overflows fixed-width byte arithmetic"@,
        RenderRasterDescriptorError::ByteLengthTooSmall { declared, minimum } => "render raster byte length "@ + decimal(declared as nat) + " is smaller than geometry minimum "@ + decimal(minimum as nat),
        RenderRasterDescriptorError::RangeOverflow => "render raster offset plus byte length overflows u64"@,
        RenderRasterDescriptorError::RangeExceedsCapacity { range_end, capacity } => "render raster range ends at byte "@ + decimal(range_end as nat) + ", exceeding declared capacity "@ + decimal(capacity as nat),
    }
}

impl RenderRasterDescriptorError {
    /// The diagnostic text of the error.
    pub fn message(&self) -> (m: String)
        ensures
            m@ == descriptor_error_text(*self),
    {
        let mut m = String::new();
        match *self {
            RenderRasterDescriptorError::ZeroWidth => {
                push_text(&mut m, "render raster width must be nonzero");
            },
            RenderRasterDescriptorError::ZeroHeight => {
                push_text(&mut m, "render raster height must be nonzero");
            },
            RenderRasterDescriptorError::StrideTooSmall { stride, minimum } => {
                push_text(&mut m, "render raster stride ");
                push_decimal(&mut m, stride as u64);
                push_text(&mut m, " is smaller than minimum row width ");
                push_decimal(&mut m, minimum as u64);
            },
            RenderRasterDescriptorError::GeometryOverflow => {
                push_text(&mut m, "render raster geometry overflows fixed-width byte arithmetic");
            },
            RenderRasterDescriptorError::ByteLengthTooSmall { declared, minimum } => {
                push_text(&mut m, "render raster byte length ");
                push_decimal(&mut m, declared as u64);
                push_text(&mut m, " is smaller than geometry minimum ");
                push_decimal(&mut m, minimum as u64);
            },
            RenderRasterDescriptorError::RangeOverflow => {
                push_text(&mut m, "render raster offset plus byte length overflows u64");
            },
            RenderRasterDescriptorError::RangeExceedsCapacity { range_end, capacity } => {
                push_text(&mut m, "render raster range ends at byte ");
                push_decimal(&mut m, range_end as u64);
                push_text(&mut m, ", exceeding declared capacity ");
                push_decimal(&mut m, capacity as u64);
            },
        }
        proof {
            assert(m@ =~= descriptor_error_text(*self));
        }
        m
    }
}

/// The diagnostic text of a descriptor that does not bind.
pub open spec fn binding_error_text(e: RenderRasterBindingError) -> Seq<char> {
    match e {
        RenderRasterBindingError::BufferIdMismatch { declared, actual } => "render descriptor names buffer "@ + decimal(declared as nat) + ", live lease names "@ + decimal(actual.0 as nat),
        RenderRasterBindingError::LeaseGenerationMismatch { declared, actual } => "render descriptor names lease generation "@ + decimal(declared as nat) + ", live generation is "@ + decimal(actual.0 as nat),
        RenderRasterBindingError::CapacityMismatch { declared, actual } => "render descriptor declares capacity "@ + decimal(declared as nat) + ", live slot capacity is "@ + decimal(actual as nat),
        RenderRasterBindingError::RangeExceedsLeaseRequest { range_end, requested } => "render descriptor range ends at byte "@ + decimal(range_end as nat) + ", exceeding lease request "@ + decimal(requested as nat),
        RenderRasterBindingError::RangeExceedsPublishedBytes { range_end, published } => "render descriptor range ends at byte "@ + decimal(range_end as nat) + ", exceeding published prefix "@ + decimal(published as nat),
        RenderRasterBindingError::HostRangeNotRepresentable { offset, byte_length } => "render descriptor range offset="@ + decimal(offset as nat) + " length="@ + decimal(byte_length as nat) + " is not representable on this host"@,
    }
}

impl RenderRasterBindingError {
    /// The diagnostic text of the error.
    pub fn message(&self) -> (m: String)
        ensures
            m@ == binding_error_text(*self),
    {
        let mut m = String::new();
        match *self {
            RenderRasterBindingError::BufferIdMismatch { declared, actual } => {
                push_text(&mut m, "render descriptor names buffer ");
                push_decimal(&mut m, declared as u64);
                push_text(&mut m, ", live lease names ");
                push_decimal(&mut m, actual.0 as u64);
            },
            RenderRasterBindingError::LeaseGenerationMismatch { declared, actual } => {
                push_text(&mut m, "render descriptor names lease generation ");
                push_decimal(&mut m, declared as u64);
                push_text(&mut m, ", live generation is ");
                push_decimal(&mut m, actual.0 as u64);
            },
            RenderRasterBindingError::CapacityMismatch { declared, actual } => {
                push_text(&mut m, "render descriptor declares capacity ");
                push_decimal(&mut m, declared as u64);
                push_text(&mut m, ", live slot capacity is ");
                push_decimal(&mut m, actual as u64);
            },
            RenderRasterBindingError::RangeExceedsLeaseRequest { range_end, requested } => {
                push_text(&mut m, "render descriptor range ends at byte ");
                push_decimal(&mut m, range_end as u64);
                push_text(&mut m, ", exceeding lease request ");
                push_decimal(&mut m, requested as u64);
            },
            RenderRasterBindingError::RangeExceedsPublishedBytes { range_end, published } => {
                push_text(&mut m, "render descriptor range ends at byte ");
                push_decimal(&mut m, range_end as u64);
                push_text(&mut m, ", exceeding published prefix ");
                push_decimal(&mut m, published as u64);
            },
            RenderRasterBindingError::HostRangeNotRepresentable { offset, byte_length } => {
                push_text(&mut m, "render descriptor range offset=");
                push_decimal(&mut m, offset as u64);
                push_text(&mut m, " length=");
                push_decimal(&mut m, byte_length as u64);
                push_text(&mut m, " is not representable on this host");
            },
        }
        proof {
            assert(m@ =~= binding_error_text(*self));
        }
        m
    }
}

/// The diagnostic text of a refused lease request.
pub open spec fn acquire_error_text(e: RenderBufferAcquireError) -> Seq<char> {
    match e {
        RenderBufferAcquireError::ZeroByteRequest => "render lease request must be nonzero"@,
        RenderBufferAcquireError::RequestExceedsSlotLimit { requested, limit } => "render lease requests "@ + decimal(requested as nat) + " bytes, exceeding slot limit "@ + decimal(limit as nat),
        RenderBufferAcquireError::ScopeLeaseLimitReached { limit } => "render scope already owns the maximum "@ + decimal(limit as nat) + " outstanding write leases"@,
        RenderBufferAcquireError::PoolExhausted => "render buffer pool is exhausted"@,
        RenderBufferAcquireError::LeaseGenerationExhausted { buffer_id } => "render buffer "@ + decimal(buffer_id.0 as nat) + " exhausted its lease generation space"@,
    }
}

impl RenderBufferAcquireError {
    /// The diagnostic text of the error.
    pub fn message(&self) -> (m: String)
        ensures
            m@ == acquire_error_text(*self),
    {
        let mut m = String::new();
        match *self {
            RenderBufferAcquireError::ZeroByteRequest => {
                push_text(&mut m, "render lease request must be nonzero");
            },
            RenderBufferAcquireError::RequestExceedsSlotLimit { requested, limit } => {
                push_text(&mut m, "render lease requests ");
                push_decimal(&mut m, requested as u64);
                push_text(&mut m, " bytes, exceeding slot limit ");
                push_decimal(&mut m, limit as u64);
            },
            RenderBufferAcquireError::ScopeLeaseLimitReached { limit } => {
                push_text(&mut m, "render scope already owns the maximum ");
                push_decimal(&mut m, limit as u64);
                push_text(&mut m, " outstanding write leases");
            },
            RenderBufferAcquireError::PoolExhausted => {
                push_text(&mut m, "render buffer pool is exhausted");
            },
            RenderBufferAcquireError::LeaseGenerationExhausted { buffer_id } => {
                push_text(&mut m, "render buffer ");
                push_decimal(&mut m, buffer_id.0 as u64);
                push_text(&mut m, " exhausted its lease generation space");
            },
        }
        proof {
            assert(m@ =~= acquire_error_text(*self));
        }
        m
    }
}

/// A public slot state as `{:?}` names it.
pub open spec fn slot_state_name(s: RenderBufferSlotState) -> Seq<char> {
    match s {
        RenderBufferSlotState::Available => "Available"@,
        RenderBufferSlotState::Leased => "Leased"@,
        RenderBufferSlotState::Ready => "Ready"@,
        RenderBufferSlotState::Retained => "Retained"@,
    }
}

fn push_slot_state(m: &mut String, s: RenderBufferSlotState)
    ensures
        final(m)@ == old(m)@ + slot_state_name(s),
{
    match s {
        RenderBufferSlotState::Available => push_text(m, "Available"),
        RenderBufferSlotState::Leased => push_text(m, "Leased"),
        RenderBufferSlotState::Ready => push_text(m, "Ready"),
        RenderBufferSlotState::Retained => push_text(m, "Retained"),
    }
}

/// The diagnostic text of a refused lease transition.
pub open spec fn transition_error_text(e: RenderBufferTransitionError) -> Seq<char> {
    match e {
        RenderBufferTransitionError::UnknownBuffer(buffer_id) => "unknown render buffer "@ + decimal(buffer_id.0 as nat),
        RenderBufferTransitionError::StaleLease { buffer_id, expected_generation, actual_generation } => "stale render lease for buffer "@ + decimal(buffer_id.0 as nat) + ": expected generation "@ + decimal(expected_generation.0 as nat) + ", got "@ + decimal(actual_generation.0 as nat),
        RenderBufferTransitionError::WrongState { expected, actual } => "render buffer is in state "@ + slot_state_name(actual) + ", expected "@ + slot_state_name(expected),
        RenderBufferTransitionError::WrongScope => "render buffer lease belongs to another scope"@,
        RenderBufferTransitionError::ZeroByteCompletion => "render buffer completion must publish at least one byte"@,
        RenderBufferTransitionError::CompletionExceedsRequest { written, requested } => "render completion publishes "@ + decimal(written as nat) + " bytes, exceeding requested "@ + decimal(requested as nat) + " bytes"@,
    }
}

impl RenderBufferTransitionError {
    /// The diagnostic text of the error.
    pub fn message(&self) -> (m: String)
        ensures
            m@ == transition_error_text(*self),
    {
        let mut m = String::new();
        match *self {
            RenderBufferTransitionError::UnknownBuffer(buffer_id) => {
                push_text(&mut m, "unknown render buffer ");
                push_decimal(&mut m, buffer_id.0 as u64);
            },
            RenderBufferTransitionError::StaleLease { buffer_id, expected_generation, actual_generation } => {
                push_text(&mut m, "stale render lease for buffer ");
                push_decimal(&mut m, buffer_id.0 as u64);
                push_text(&mut m, ": expected generation ");
                push_decimal(&mut m, expected_generation.0 as u64);
                push_text(&mut m, ", got ");
                push_decimal(&mut m, actual_generation.0 as u64);
            },
            RenderBufferTransitionError::WrongState { expected, actual } => {
                push_text(&mut m, "render buffer is in state ");
                push_slot_state(&mut m, actual);
                push_text(&mut m, ", expected ");
                push_slot_state(&mut m, expected);
            },
            RenderBufferTransitionError::WrongScope => {
                push_text(&mut m, "render buffer lease belongs to another scope");
            },
            RenderBufferTransitionError::ZeroByteCompletion => {
                push_text(&mut m, "render buffer completion must publish at least one byte");
            },
            RenderBufferTransitionError::CompletionExceedsRequest { written, requested } => {
                push_text(&mut m, "render completion publishes ");
                push_decimal(&mut m, written as u64);
                push_text(&mut m, " bytes, exceeding requested ");
                push_decimal(&mut m, requested as u64);
                push_text(&mut m, " bytes");
            },
        }
        proof {
            assert(m@ =~= transition_error_text(*self));
        }
        m
    }
}

} // verus!
