//! External-file render backing: the checks and records that bind one file per lease
//! generation to the lease state machine. Creating, sizing, reading and removing the files is
//! the host shell's work; this module decides what is allowed and where.

use vstd::prelude::*;
use crate::text::{decimal, decimal_string, is_digit, lemma_decimal_digits, lemma_decimal_injective, push_decimal, push_text};
use crate::transport::io_error_text;
use crate::render_pool::{
    binding_error_text,
    ready_binding, write_binding, ReadyRenderBuffer, RenderLeaseId, RenderRasterBindingError, RenderRasterDescriptor,
    RenderWriteLease,
};

verus! {

/// The file that holds one lease generation: `buffer-<id>-generation-<generation>.rgba`.
pub open spec fn lease_file_name_of(lease_id: RenderLeaseId) -> Seq<char> {
    "buffer-"@ + decimal(lease_id.buffer_id.0 as nat) + "-generation-"@ + decimal(lease_id.generation.0 as nat) + ".rgba"@
}

/// Each lease generation receives its own file: two different lease ids never name the same
/// file, so a writer holding an old generation's file cannot reach a newer generation's storage.
pub proof fn law_lease_files_are_distinct(a: RenderLeaseId, b: RenderLeaseId)
    requires
        a != b,
    ensures
        lease_file_name_of(a) != lease_file_name_of(b),
{
    if lease_file_name_of(a) == lease_file_name_of(b) {
        reveal_strlit("buffer-");
        reveal_strlit("-generation-");
        reveal_strlit(".rgba");
        let p = "buffer-"@;
        let g = "-generation-"@;
        let r = ".rgba"@;
        let da = decimal(a.buffer_id.0 as nat);
        let db = decimal(b.buffer_id.0 as nat);
        let ea = decimal(a.generation.0 as nat);
        let eb = decimal(b.generation.0 as nat);
        lemma_decimal_digits(a.buffer_id.0 as nat);
        lemma_decimal_digits(b.buffer_id.0 as nat);
        lemma_decimal_digits(a.generation.0 as nat);
        lemma_decimal_digits(b.generation.0 as nat);
        let na = p + da + g + ea + r;
        let nb = p + db + g + eb + r;
        assert(na == nb);
        assert(p.len() == 7);
        assert(g.len() == 12);
        assert(r.len() == 5);
        assert(g[0] == '-');
        if da.len() < db.len() {
            assert(na[7 + da.len() as int] == g[0]);
            assert(nb[7 + da.len() as int] == db[da.len() as int]);
            assert(is_digit(db[da.len() as int]));
        } else if db.len() < da.len() {
            assert(nb[7 + db.len() as int] == g[0]);
            assert(na[7 + db.len() as int] == da[db.len() as int]);
            assert(is_digit(da[db.len() as int]));
        }
        assert(da.len() == db.len());
        assert(da =~= na.subrange(7, 7 + da.len() as int));
        assert(db =~= nb.subrange(7, 7 + db.len() as int));
        lemma_decimal_injective(a.buffer_id.0 as nat, b.buffer_id.0 as nat);
        assert(ea.len() == eb.len());
        let start: int = 19 + da.len() as int;
        assert(ea =~= na.subrange(start, start + ea.len() as int));
        assert(eb =~= nb.subrange(start, start + eb.len() as int));
        lemma_decimal_injective(a.generation.0 as nat, b.generation.0 as nat);
        assert(a == b);
    }
}

/// The file name of one lease generation.
pub fn lease_file_name(lease_id: RenderLeaseId) -> (s: String)
    ensures
        s@ == lease_file_name_of(lease_id),
{
    let mut name = "buffer-".to_owned();
    let id = decimal_string(lease_id.buffer_id.0 as u64);
    push_text(&mut name, id.as_str());
    push_text(&mut name, "-generation-");
    let generation = decimal_string(lease_id.generation.0);
    push_text(&mut name, generation.as_str());
    push_text(&mut name, ".rgba");
    proof {
        reveal_strlit("buffer-");
        reveal_strlit("-generation-");
        reveal_strlit(".rgba");
        assert(name@ =~= lease_file_name_of(lease_id));
    }
    name
}

#[derive(Debug)]
pub enum ExternalFileRenderBackingError {
    Io(std::io::Error),
    Descriptor(RenderRasterBindingError),
    HostSizeNotRepresentable { bytes: usize },
    PreparedLeaseMismatch { prepared: RenderLeaseId, live: RenderLeaseId },
    PreparedCapacityMismatch { prepared: usize, live: usize },
    PreparedRequestMismatch { prepared: usize, live: usize },
    ExternalRangeNotRepresentable { offset: u64, byte_length: u64 },
    BackingTruncated { actual: u64, required: u64 },
}

/// Qualification-only external backing rooted in a host-owned directory: each lease
/// generation gets a file of its own under the root.
#[derive(Debug)]
pub struct ExternalFileRenderBacking {
    root: String,
}

/// The file prepared for one lease generation.
#[derive(Clone, Debug, Eq, PartialEq)]
pub struct PreparedExternalRenderLease {
    lease_id: RenderLeaseId,
    capacity_bytes: usize,
    requested_bytes: usize,
    path: String,
}

/// What a worker may write: one file and the raster range inside it.
#[derive(Clone, Debug, Eq, PartialEq)]
pub struct ExternalRasterCapability {
    lease_id: RenderLeaseId,
    path: String,
    offset_bytes: u64,
    byte_length: u64,
}

impl PreparedExternalRenderLease {
    pub closed spec fn spec_lease_id(&self) -> RenderLeaseId {
        self.lease_id
    }

    pub closed spec fn spec_capacity(&self) -> usize {
        self.capacity_bytes
    }

    pub closed spec fn spec_requested(&self) -> usize {
        self.requested_bytes
    }

    pub closed spec fn spec_path(&self) -> Seq<char> {
        self.path@
    }

    /// The record of a lease's file at `path`, refused when the capacity is not a `u64`.
    pub fn for_lease(lease: &RenderWriteLease, path: String) -> (r: Result<Self, ExternalFileRenderBackingError>)
        ensures
            lease.spec_capacity() > u64::MAX ==> (r matches Err(ExternalFileRenderBackingError::HostSizeNotRepresentable { bytes })
                && bytes == lease.spec_capacity()),
            lease.spec_capacity() <= u64::MAX ==> (r matches Ok(p) && {
                &&& p.spec_lease_id() == lease.spec_id()
                &&& p.spec_capacity() == lease.spec_capacity()
                &&& p.spec_requested() == lease.spec_requested()
                &&& p.spec_path() == path@
            }),
    {
        if lease.capacity_bytes() as u128 > u64::MAX as u128 {
            return Err(ExternalFileRenderBackingError::HostSizeNotRepresentable { bytes: lease.capacity_bytes() });
        }
        Ok(PreparedExternalRenderLease {
            lease_id: lease.id(),
            capacity_bytes: lease.capacity_bytes(),
            requested_bytes: lease.requested_bytes(),
            path,
        })
    }

    pub fn lease_id(&self) -> (i: RenderLeaseId)
        ensures
            i == self.spec_lease_id(),
    {
        self.lease_id
    }

    pub fn capacity_bytes(&self) -> (c: usize)
        ensures
            c == self.spec_capacity(),
    {
        self.capacity_bytes
    }

    pub fn requested_bytes(&self) -> (r: usize)
        ensures
            r == self.spec_requested(),
    {
        self.requested_bytes
    }

    pub fn path(&self) -> (p: &str)
        ensures
            p@ == self.spec_path(),
    {
        self.path.as_str()
    }

    /// The file was prepared for exactly this live lease: same id, capacity and request.
    fn validate_write_lease(&self, lease: &RenderWriteLease) -> (r: Result<(), ExternalFileRenderBackingError>)
        ensures
            self.spec_lease_id() != lease.spec_id() ==> (r matches Err(ExternalFileRenderBackingError::PreparedLeaseMismatch { prepared, live })
                && prepared == self.spec_lease_id() && live == lease.spec_id()),
            self.spec_lease_id() == lease.spec_id() && self.spec_capacity() != lease.spec_capacity()
                ==> (r matches Err(ExternalFileRenderBackingError::PreparedCapacityMismatch { prepared, live })
                && prepared == self.spec_capacity() && live == lease.spec_capacity()),
            self.spec_lease_id() == lease.spec_id() && self.spec_capacity() == lease.spec_capacity()
                && self.spec_requested() != lease.spec_requested()
                ==> (r matches Err(ExternalFileRenderBackingError::PreparedRequestMismatch { prepared, live })
                && prepared == self.spec_requested() && live == lease.spec_requested()),
            r is Ok <==> prepared_for_lease(*self, *lease),
    {
        if self.lease_id != lease.id() {
            return Err(ExternalFileRenderBackingError::PreparedLeaseMismatch { prepared: self.lease_id, live: lease.id() });
        }
        if self.capacity_bytes != lease.capacity_bytes() {
            return Err(ExternalFileRenderBackingError::PreparedCapacityMismatch { prepared: self.capacity_bytes, live: lease.capacity_bytes() });
        }
        if self.requested_bytes != lease.requested_bytes() {
            return Err(ExternalFileRenderBackingError::PreparedRequestMismatch { prepared: self.requested_bytes, live: lease.requested_bytes() });
        }
        Ok(())
    }

    /// The file was prepared for the lease a publication came from: same id and capacity.
    fn validate_ready_buffer(&self, ready: &ReadyRenderBuffer) -> (r: Result<(), ExternalFileRenderBackingError>)
        ensures
            self.spec_lease_id() != ready.spec_id() ==> (r matches Err(ExternalFileRenderBackingError::PreparedLeaseMismatch { prepared, live })
                && prepared == self.spec_lease_id() && live == ready.spec_id()),
            self.spec_lease_id() == ready.spec_id() && self.spec_capacity() != ready.spec_capacity()
                ==> (r matches Err(ExternalFileRenderBackingError::PreparedCapacityMismatch { prepared, live })
                && prepared == self.spec_capacity() && live == ready.spec_capacity()),
            r is Ok <==> prepared_for_ready(*self, *ready),
    {
        if self.lease_id != ready.id() {
            return Err(ExternalFileRenderBackingError::PreparedLeaseMismatch { prepared: self.lease_id, live: ready.id() });
        }
        if self.capacity_bytes != ready.capacity_bytes() {
            return Err(ExternalFileRenderBackingError::PreparedCapacityMismatch { prepared: self.capacity_bytes, live: ready.capacity_bytes() });
        }
        Ok(())
    }
}

/// A prepared file matches a live lease in id, capacity and request.
pub open spec fn prepared_for_lease(p: PreparedExternalRenderLease, lease: RenderWriteLease) -> bool {
    &&& p.spec_lease_id() == lease.spec_id()
    &&& p.spec_capacity() == lease.spec_capacity()
    &&& p.spec_requested() == lease.spec_requested()
}

/// A prepared file matches a publication in id and capacity.
pub open spec fn prepared_for_ready(p: PreparedExternalRenderLease, ready: ReadyRenderBuffer) -> bool {
    &&& p.spec_lease_id() == ready.spec_id()
    &&& p.spec_capacity() == ready.spec_capacity()
}

impl ExternalRasterCapability {
    pub closed spec fn spec_lease_id(&self) -> RenderLeaseId {
        self.lease_id
    }

    pub closed spec fn spec_path(&self) -> Seq<char> {
        self.path@
    }

    pub closed spec fn spec_offset(&self) -> u64 {
        self.offset_bytes
    }

    pub closed spec fn spec_length(&self) -> u64 {
        self.byte_length
    }

    pub fn lease_id(&self) -> (i: RenderLeaseId)
        ensures
            i == self.spec_lease_id(),
    {
        self.lease_id
    }

    pub fn path(&self) -> (p: &str)
        ensures
            p@ == self.spec_path(),
    {
        self.path.as_str()
    }

    pub fn offset_bytes(&self) -> (o: u64)
        ensures
            o == self.spec_offset(),
    {
        self.offset_bytes
    }

    pub fn byte_length(&self) -> (l: u64)
        ensures
            l == self.spec_length(),
    {
        self.byte_length
    }
}

impl ExternalFileRenderBacking {
    pub closed spec fn spec_root(&self) -> Seq<char> {
        self.root@
    }

    /// A backing rooted at a directory the host has created.
    pub fn new(root: String) -> (b: Self)
        ensures
            b.spec_root() == root@,
    {
        ExternalFileRenderBacking { root }
    }

    pub fn root(&self) -> (r: &str)
        ensures
            r@ == self.spec_root(),
    {
        self.root.as_str()
    }

    /// What a worker may write for a live lease: the prepared file must match the lease and the
    /// descriptor must bind to it; the capability names the file and the descriptor's range.
    pub fn raster_capability(&self, prepared: &PreparedExternalRenderLease, lease: &RenderWriteLease, descriptor: RenderRasterDescriptor)
        -> (r: Result<ExternalRasterCapability, ExternalFileRenderBackingError>)
        ensures
            !prepared_for_lease(*prepared, *lease) ==> r is Err && !(r matches Err(ExternalFileRenderBackingError::Descriptor(_))),
            prepared_for_lease(*prepared, *lease) ==> match write_binding(descriptor, *lease) {
                Err(e) => r matches Err(ExternalFileRenderBackingError::Descriptor(x)) && x == e,
                Ok(()) => r matches Ok(c) && {
                    &&& c.spec_lease_id() == lease.spec_id()
                    &&& c.spec_path() == prepared.spec_path()
                    &&& c.spec_offset() == descriptor.spec_offset()
                    &&& c.spec_length() == descriptor.spec_length()
                },
            },
    {
        match prepared.validate_write_lease(lease) {
            Err(e) => {
                return Err(e);
            },
            Ok(()) => {},
        }
        match descriptor.validate_write_lease(lease) {
            Err(e) => {
                return Err(ExternalFileRenderBackingError::Descriptor(e));
            },
            Ok(()) => {},
        }
        Ok(ExternalRasterCapability {
            lease_id: lease.id(),
            path: prepared.path.clone(),
            offset_bytes: descriptor.offset_bytes(),
            byte_length: descriptor.byte_length(),
        })
    }

    /// Whether a publication may be read back from its prepared file through a descriptor: the
    /// file must match the publication and the descriptor bind to it.
    pub fn check_ready_raster(&self, prepared: &PreparedExternalRenderLease, ready: &ReadyRenderBuffer, descriptor: RenderRasterDescriptor)
        -> (r: Result<(), ExternalFileRenderBackingError>)
        ensures
            !prepared_for_ready(*prepared, *ready) ==> r is Err && !(r matches Err(ExternalFileRenderBackingError::Descriptor(_))),
            prepared_for_ready(*prepared, *ready) ==> match ready_binding(descriptor, *ready) {
                Err(e) => r matches Err(ExternalFileRenderBackingError::Descriptor(x)) && x == e,
                Ok(()) => r is Ok,
            },
    {
        match prepared.validate_ready_buffer(ready) {
            Err(e) => {
                return Err(e);
            },
            Ok(()) => {},
        }
        match descriptor.validate_ready_buffer(ready) {
            Err(e) => Err(ExternalFileRenderBackingError::Descriptor(e)),
            Ok(()) => Ok(()),
        }
    }

    /// Where to read a publication's raster once its file is open and `file_len` bytes long:
    /// the file must hold the prepared capacity, and the raster length fit `usize`. Returns the
    /// offset and length to read.
    pub fn ready_raster_range(&self, prepared: &PreparedExternalRenderLease, descriptor: RenderRasterDescriptor, file_len: u64)
        -> (r: Result<(u64, usize), ExternalFileRenderBackingError>)
        ensures
            prepared.spec_capacity() > u64::MAX ==> (r matches Err(ExternalFileRenderBackingError::HostSizeNotRepresentable { bytes })
                && bytes == prepared.spec_capacity()),
            prepared.spec_capacity() <= u64::MAX && file_len < prepared.spec_capacity()
                ==> (r matches Err(ExternalFileRenderBackingError::BackingTruncated { actual, required })
                && actual == file_len && required == prepared.spec_capacity()),
            prepared.spec_capacity() <= u64::MAX && file_len >= prepared.spec_capacity() && descriptor.spec_length() > usize::MAX
                ==> (r matches Err(ExternalFileRenderBackingError::ExternalRangeNotRepresentable { offset, byte_length })
                && offset == descriptor.spec_offset() && byte_length == descriptor.spec_length()),
            prepared.spec_capacity() <= u64::MAX && file_len >= prepared.spec_capacity() && descriptor.spec_length() <= usize::MAX
                ==> (r matches Ok((offset, length)) && offset == descriptor.spec_offset() && length == descriptor.spec_length()),
    {
        if prepared.capacity_bytes as u128 > u64::MAX as u128 {
            return Err(ExternalFileRenderBackingError::HostSizeNotRepresentable { bytes: prepared.capacity_bytes });
        }
        let required = prepared.capacity_bytes as u64;
        if file_len < required {
            return Err(ExternalFileRenderBackingError::BackingTruncated { actual: file_len, required });
        }
        let length = descriptor.byte_length();
        if length as u128 > usize::MAX as u128 {
            return Err(ExternalFileRenderBackingError::ExternalRangeNotRepresentable { offset: descriptor.offset_bytes(), byte_length: length });
        }
        Ok((descriptor.offset_bytes(), length as usize))
    }
}

/// The diagnostic text of an external-file backing error; for an I/O failure, the text before the system's description.
pub open spec fn file_backing_error_text(e: ExternalFileRenderBackingError) -> Seq<char> {
    match e {
        ExternalFileRenderBackingError::Io(error) => "external render backing I/O failed: "@ ,
        ExternalFileRenderBackingError::Descriptor(error) => binding_error_text(error),
        ExternalFileRenderBackingError::HostSizeNotRepresentable { bytes } => "render backing size "@ + decimal(bytes as nat) + " is not representable as u64"@,
        ExternalFileRenderBackingError::PreparedLeaseMismatch { prepared, live } => "prepared external backing belongs to "@ + "buffer "@ + decimal(prepared.buffer_id.0 as nat) + " generation "@ + decimal(prepared.generation.0 as nat) + ", live lease is "@ + "buffer "@ + decimal(live.buffer_id.0 as nat) + " generation "@ + decimal(live.generation.0 as nat),
        ExternalFileRenderBackingError::PreparedCapacityMismatch { prepared, live } => "prepared external backing capacity "@ + decimal(prepared as nat) + " differs from live capacity "@ + decimal(live as nat),
        ExternalFileRenderBackingError::PreparedRequestMismatch { prepared, live } => "prepared external backing request "@ + decimal(prepared as nat) + " differs from live request "@ + decimal(live as nat),
        ExternalFileRenderBackingError::ExternalRangeNotRepresentable { offset, byte_length } => "external render range offset="@ + decimal(offset as nat) + " length="@ + decimal(byte_length as nat) + " is not representable on this host"@,
        ExternalFileRenderBackingError::BackingTruncated { actual, required } => "external render backing has "@ + decimal(actual as nat) + " bytes, requires at least "@ + decimal(required as nat),
    }
}

impl ExternalFileRenderBackingError {
    /// The diagnostic text of the error.
    pub fn message(&self) -> (m: String)
        ensures
            !(*self is Io) ==> m@ == file_backing_error_text(*self),
            *self is Io ==> m@.len() >= file_backing_error_text(*self).len()
                && m@.subrange(0, file_backing_error_text(*self).len() as int) == file_backing_error_text(*self),
    {
        let mut m = String::new();
        match self {
            ExternalFileRenderBackingError::Io(error) => {
                push_text(&mut m, "external render backing I/O failed: ");
                let ghost before = m@;
                let detail = io_error_text(error);
                push_text(&mut m, detail.as_str());
                assert(m@.subrange(0, before.len() as int) =~= before);
            },
            ExternalFileRenderBackingError::Descriptor(error) => {
                let text = error.message();
                push_text(&mut m, text.as_str());
            },
            ExternalFileRenderBackingError::HostSizeNotRepresentable { bytes } => {
                push_text(&mut m, "render backing size ");
                push_decimal(&mut m, *bytes as u64);
                push_text(&mut m, " is not representable as u64");
            },
            ExternalFileRenderBackingError::PreparedLeaseMismatch { prepared, live } => {
                push_text(&mut m, "prepared external backing belongs to ");
                push_text(&mut m, "buffer ");
                push_decimal(&mut m, prepared.buffer_id.0 as u64);
                push_text(&mut m, " generation ");
                push_decimal(&mut m, prepared.generation.0 as u64);
                push_text(&mut m, ", live lease is ");
                push_text(&mut m, "buffer ");
                push_decimal(&mut m, live.buffer_id.0 as u64);
                push_text(&mut m, " generation ");
                push_decimal(&mut m, live.generation.0 as u64);
            },
            ExternalFileRenderBackingError::PreparedCapacityMismatch { prepared, live } => {
                push_text(&mut m, "prepared external backing capacity ");
                push_decimal(&mut m, *prepared as u64);
                push_text(&mut m, " differs from live capacity ");
                push_decimal(&mut m, *live as u64);
            },
            ExternalFileRenderBackingError::PreparedRequestMismatch { prepared, live } => {
                push_text(&mut m, "prepared external backing request ");
                push_decimal(&mut m, *prepared as u64);
                push_text(&mut m, " differs from live request ");
                push_decimal(&mut m, *live as u64);
            },
            ExternalFileRenderBackingError::ExternalRangeNotRepresentable { offset, byte_length } => {
                push_text(&mut m, "external render range offset=");
                push_decimal(&mut m, *offset as u64);
                push_text(&mut m, " length=");
                push_decimal(&mut m, *byte_length as u64);
                push_text(&mut m, " is not representable on this host");
            },
            ExternalFileRenderBackingError::BackingTruncated { actual, required } => {
                push_text(&mut m, "external render backing has ");
                push_decimal(&mut m, *actual as u64);
                push_text(&mut m, " bytes, requires at least ");
                push_decimal(&mut m, *required as u64);
            },
        }
        proof {
            if !(*self is Io) {
                assert(m@ =~= file_backing_error_text(*self));
            }
        }
        m
    }
}

} // verus!
