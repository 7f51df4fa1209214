//! The computed side of the desktop UI qualification: the synthetic page tile, its FNV-1a
//! checksum, and the snapshot stress schedule with its verdict. The window, the renderer and
//! the clock stay with the shell that drives them.

use vstd::prelude::*;

verus! {

pub const TILE_WIDTH: u32 = 256;

pub const TILE_HEIGHT: u32 = 256;

/// Pages laid out in the qualification document.
pub const QUALIFICATION_PAGE_COUNT: i32 = 96;

/// Bytes of one RGBA tile.
pub const EXPECTED_TILE_BYTES: usize = 262144;

/// Checksum the qualification tile must have.
pub const EXPECTED_TILE_FNV1A64: u64 = 6744427103266065219;

pub const FNV1A64_OFFSET: u64 = 1469598103934665603;

pub const FNV1A64_PRIME: u64 = 1099511628211;

/// Longest a whole stress run may take, in nanoseconds.
pub const STRESS_TOTAL_LIMIT_NANOS: u128 = 60000000000;

/// Longest one stress snapshot may take, in nanoseconds.
pub const STRESS_FRAME_LIMIT_NANOS: u128 = 10000000000;

/// One FNV-1a step.
pub open spec fn fnv1a64_step(hash: u64, byte: u8) -> u64 {
    (((hash ^ (byte as u64)) as nat * FNV1A64_PRIME as nat) % 0x1_0000_0000_0000_0000nat) as u64
}

/// 64-bit FNV-1a of a byte sequence.
pub open spec fn fnv1a64_of(bytes: Seq<u8>) -> u64
    decreases bytes.len(),
{
    if bytes.len() == 0 {
        FNV1A64_OFFSET
    } else {
        fnv1a64_step(fnv1a64_of(bytes.drop_last()), bytes.last())
    }
}

/// 64-bit FNV-1a checksum.
pub fn fnv1a64(bytes: &[u8]) -> (h: u64)
    ensures
        h == fnv1a64_of(bytes@),
{
    let mut hash: u64 = FNV1A64_OFFSET;
    let mut i: usize = 0;
    proof {
        assert(bytes@.subrange(0, 0) =~= Seq::<u8>::empty());
    }
    while i < bytes.len()
        invariant
            0 <= i <= bytes@.len(),
            hash == fnv1a64_of(bytes@.subrange(0, i as int)),
        decreases bytes@.len() - i,
    {
        proof {
            assert(bytes@.subrange(0, i as int + 1).drop_last() =~= bytes@.subrange(0, i as int));
        }
        hash = (hash ^ (bytes[i] as u64)).wrapping_mul(FNV1A64_PRIME);
        i = i + 1;
    }
    proof {
        assert(bytes@.subrange(0, bytes@.len() as int) =~= bytes@);
    }
    hash
}

/// Whether a tile pixel lies in the page margin.
pub open spec fn in_margin(x: int, y: int) -> bool {
    !(18 <= x < 238 && 18 <= y < 238)
}

/// Whether a tile pixel lies on a ruled text line.
pub open spec fn on_text_rule(x: int, y: int) -> bool {
    !in_margin(x, y) && y >= 42 && (y - 42) % 24 < 2 && x < 210
}

/// The colour channel `c` of tile pixel `(x, y)`: grey margin, blue-grey text rules, white page.
pub open spec fn tile_channel(x: int, y: int, c: int) -> u8 {
    if c == 3 {
        255
    } else if in_margin(x, y) {
        244
    } else if on_text_rule(x, y) {
        if c == 0 { 205 } else if c == 1 { 212 } else { 220 }
    } else {
        255
    }
}

/// Byte `k` of the row-major RGBA tile.
pub open spec fn tile_byte(k: int) -> u8 {
    tile_channel((k / 4) % 256, (k / 4) / 256, k % 4)
}

/// The synthetic page tile that stands for renderer output in the qualification shell.
#[derive(Clone, Debug, Eq, PartialEq)]
pub struct QualificationTile {
    width: u32,
    height: u32,
    bytes: Vec<u8>,
}

impl QualificationTile {
    pub closed spec fn spec_bytes(&self) -> Seq<u8> {
        self.bytes@
    }

    pub closed spec fn spec_width(&self) -> u32 {
        self.width
    }

    pub closed spec fn spec_height(&self) -> u32 {
        self.height
    }

    pub fn width(&self) -> (w: u32)
        ensures
            w == self.spec_width(),
    {
        self.width
    }

    pub fn height(&self) -> (h: u32)
        ensures
            h == self.spec_height(),
    {
        self.height
    }

    pub fn as_bytes(&self) -> (b: &[u8])
        ensures
            b@ == self.spec_bytes(),
    {
        self.bytes.as_slice()
    }
}

proof fn lemma_tile_position(x: int, y: int, c: int)
    requires
        0 <= x < 256,
        0 <= y < 256,
        0 <= c < 4,
    ensures
        ((y * 256 + x) * 4 + c) / 4 == y * 256 + x,
        ((y * 256 + x) * 4 + c) % 4 == c,
        (y * 256 + x) % 256 == x,
        (y * 256 + x) / 256 == y,
{
}

/// The qualification tile: 256 by 256 RGBA pixels, every byte as `tile_byte` says.
pub fn qualification_tile() -> (t: QualificationTile)
    ensures
        t.spec_width() == TILE_WIDTH,
        t.spec_height() == TILE_HEIGHT,
        t.spec_bytes().len() == EXPECTED_TILE_BYTES,
        forall|k: int| 0 <= k < EXPECTED_TILE_BYTES ==> #[trigger] t.spec_bytes()[k] == tile_byte(k),
{
    let mut bytes: Vec<u8> = Vec::new();
    let mut y: u32 = 0;
    while y < TILE_HEIGHT
        invariant
            0 <= y <= 256,
            bytes@.len() == y * 1024,
            forall|k: int| 0 <= k < bytes@.len() ==> #[trigger] bytes@[k] == tile_byte(k),
        decreases 256 - y,
    {
        let mut x: u32 = 0;
        while x < TILE_WIDTH
            invariant
                0 <= y < 256,
                0 <= x <= 256,
                bytes@.len() == (y * 256 + x) * 4,
                forall|k: int| 0 <= k < bytes@.len() ==> #[trigger] bytes@[k] == tile_byte(k),
            decreases 256 - x,
        {
            let in_body_x = 18 <= x && x < TILE_WIDTH - 18;
            let in_body_y = 18 <= y && y < TILE_HEIGHT - 18;
            let margin = !(in_body_x && in_body_y);
            let text_rule = !margin && y >= 42 && (y - 42) % 24 < 2 && x < 210;
            let (r, g, b): (u8, u8, u8) = if margin {
                (244, 244, 244)
            } else if text_rule {
                (205, 212, 220)
            } else {
                (255, 255, 255)
            };
            let ghost base = bytes@.len() as int;
            proof {
                lemma_tile_position(x as int, y as int, 0);
                lemma_tile_position(x as int, y as int, 1);
                lemma_tile_position(x as int, y as int, 2);
                lemma_tile_position(x as int, y as int, 3);
            }
            bytes.push(r);
            bytes.push(g);
            bytes.push(b);
            bytes.push(255u8);
            proof {
                assert(bytes@[base] == tile_byte(base));
                assert(bytes@[base + 1] == tile_byte(base + 1));
                assert(bytes@[base + 2] == tile_byte(base + 2));
                assert(bytes@[base + 3] == tile_byte(base + 3));
            }
            x = x + 1;
        }
        y = y + 1;
    }
    QualificationTile { width: TILE_WIDTH, height: TILE_HEIGHT, bytes }
}

/// The stress schedule: page index and zoom percent of each snapshot, in order.
pub open spec fn stress_steps() -> Seq<(i32, i32)> {
    seq![(0i32, 70i32), (12, 100), (24, 125), (48, 150), (72, 200), (95, 100), (48, 80), (0, 100)]
}

pub fn snapshot_stress_steps() -> (v: Vec<(i32, i32)>)
    ensures
        v@ == stress_steps(),
{
    let v = vec![(0i32, 70i32), (12, 100), (24, 125), (48, 150), (72, 200), (95, 100), (48, 80), (0, 100)];
    proof {
        assert(v@ =~= stress_steps());
    }
    v
}

#[derive(Clone, Copy, Debug, Eq, PartialEq, Structural)]
pub enum StressFailure {
    WindowAreaTooLarge { width: u32, height: u32 },
    SnapshotWidthMismatch { expected: u32, actual: u32 },
    SnapshotHeightMismatch { expected: u32, actual: u32 },
    SnapshotLengthMismatch { expected: usize, actual: usize },
    FrameTooSlow { step: usize, nanos: u128 },
    TotalTooSlow { nanos: u128 },
    ScheduleComplete,
    ScheduleIncomplete { recorded: usize },
}

/// What a finished stress run reports.
#[derive(Clone, Copy, Debug, Eq, PartialEq, Structural)]
pub struct StressReport {
    pub pages: i32,
    pub snapshots: usize,
    pub total_nanos: u128,
    pub slowest_nanos: u128,
    pub checksum_xor: u64,
}

/// Running verdict over the snapshots of one stress run at a fixed physical window size.
#[derive(Clone, Debug, Eq, PartialEq)]
pub struct SnapshotStress {
    width: u32,
    height: u32,
    expected_bytes: usize,
    recorded: usize,
    checksum_xor: u64,
    slowest_nanos: u128,
}

impl SnapshotStress {
    pub closed spec fn spec_expected_bytes(&self) -> usize {
        self.expected_bytes
    }

    pub closed spec fn spec_recorded(&self) -> usize {
        self.recorded
    }

    pub closed spec fn spec_checksum_xor(&self) -> u64 {
        self.checksum_xor
    }

    pub closed spec fn spec_slowest(&self) -> u128 {
        self.slowest_nanos
    }

    pub closed spec fn spec_width(&self) -> u32 {
        self.width
    }

    pub closed spec fn spec_height(&self) -> u32 {
        self.height
    }

    /// A run for a window of `width` by `height` physical pixels, refused when the snapshot
    /// size does not fit: the window area in `u32`, and four bytes a pixel in `usize`.
    pub fn new(width: u32, height: u32) -> (r: Result<Self, StressFailure>)
        ensures
            width as int * height as int > u32::MAX || width as int * height as int * 4 > usize::MAX
                ==> r == Err::<Self, StressFailure>(StressFailure::WindowAreaTooLarge { width, height }),
            width as int * height as int <= u32::MAX && width as int * height as int * 4 <= usize::MAX ==> (r matches Ok(s) && {
                &&& s.spec_width() == width
                &&& s.spec_height() == height
                &&& s.spec_expected_bytes() == width * height * 4
                &&& s.spec_recorded() == 0
                &&& s.spec_checksum_xor() == 0
                &&& s.spec_slowest() == 0
            }),
    {
        let area = match width.checked_mul(height) {
            None => {
                return Err(StressFailure::WindowAreaTooLarge { width, height });
            },
            Some(a) => a,
        };
        let expected_bytes = match (area as usize).checked_mul(4) {
            None => {
                return Err(StressFailure::WindowAreaTooLarge { width, height });
            },
            Some(b) => b,
        };
        Ok(SnapshotStress { width, height, expected_bytes, recorded: 0, checksum_xor: 0, slowest_nanos: 0 })
    }

    /// The page index and zoom percent of the next snapshot, if the schedule has any left.
    pub fn next_step(&self) -> (r: Option<(i32, i32)>)
        ensures
            self.spec_recorded() < stress_steps().len() ==> r == Some(stress_steps()[self.spec_recorded() as int]),
            self.spec_recorded() >= stress_steps().len() ==> r is None,
    {
        let steps = snapshot_stress_steps();
        if self.recorded < steps.len() {
            Some(steps[self.recorded])
        } else {
            None
        }
    }

    /// Records one snapshot: it must be due, match the window size and byte length, and have
    /// taken less than the frame limit; its checksum is folded in and the slowest time kept.
    /// A refused snapshot changes nothing.
    pub fn record_snapshot(&mut self, width: u32, height: u32, bytes: &[u8], frame_nanos: u128) -> (r: Result<(), StressFailure>)
        ensures
            r is Err ==> *final(self) == *old(self),
            old(self).spec_recorded() >= stress_steps().len() ==> r == Err::<(), StressFailure>(StressFailure::ScheduleComplete),
            old(self).spec_recorded() < stress_steps().len() ==> {
                if width != old(self).spec_width() {
                    r == Err::<(), StressFailure>(StressFailure::SnapshotWidthMismatch { expected: old(self).spec_width(), actual: width })
                } else if height != old(self).spec_height() {
                    r == Err::<(), StressFailure>(StressFailure::SnapshotHeightMismatch { expected: old(self).spec_height(), actual: height })
                } else if bytes@.len() != old(self).spec_expected_bytes() {
                    r == Err::<(), StressFailure>(StressFailure::SnapshotLengthMismatch { expected: old(self).spec_expected_bytes(), actual: bytes@.len() as usize })
                } else if frame_nanos >= STRESS_FRAME_LIMIT_NANOS {
                    r == Err::<(), StressFailure>(StressFailure::FrameTooSlow { step: old(self).spec_recorded(), nanos: frame_nanos })
                } else {
                    &&& r is Ok
                    &&& final(self).spec_recorded() == old(self).spec_recorded() + 1
                    &&& final(self).spec_checksum_xor() == old(self).spec_checksum_xor() ^ fnv1a64_of(bytes@)
                    &&& final(self).spec_slowest() == (if frame_nanos > old(self).spec_slowest() { frame_nanos } else { old(self).spec_slowest() })
                    &&& final(self).spec_width() == old(self).spec_width()
                    &&& final(self).spec_height() == old(self).spec_height()
                    &&& final(self).spec_expected_bytes() == old(self).spec_expected_bytes()
                }
            },
    {
        if self.recorded >= 8 {
            return Err(StressFailure::ScheduleComplete);
        }
        if width != self.width {
            return Err(StressFailure::SnapshotWidthMismatch { expected: self.width, actual: width });
        }
        if height != self.height {
            return Err(StressFailure::SnapshotHeightMismatch { expected: self.height, actual: height });
        }
        if bytes.len() != self.expected_bytes {
            return Err(StressFailure::SnapshotLengthMismatch { expected: self.expected_bytes, actual: bytes.len() });
        }
        if frame_nanos >= STRESS_FRAME_LIMIT_NANOS {
            return Err(StressFailure::FrameTooSlow { step: self.recorded, nanos: frame_nanos });
        }
        let checksum = fnv1a64(bytes);
        self.checksum_xor = self.checksum_xor ^ checksum;
        if frame_nanos > self.slowest_nanos {
            self.slowest_nanos = frame_nanos;
        }
        self.recorded = self.recorded + 1;
        Ok(())
    }

    /// The report of a run whose every scheduled snapshot was recorded within `total_nanos`
    /// under the total limit.
    pub fn finish(&self, total_nanos: u128) -> (r: Result<StressReport, StressFailure>)
        ensures
            self.spec_recorded() != stress_steps().len() ==> r == Err::<StressReport, StressFailure>(
                StressFailure::ScheduleIncomplete { recorded: self.spec_recorded() }),
            self.spec_recorded() == stress_steps().len() && total_nanos >= STRESS_TOTAL_LIMIT_NANOS
                ==> r == Err::<StressReport, StressFailure>(StressFailure::TotalTooSlow { nanos: total_nanos }),
            self.spec_recorded() == stress_steps().len() && total_nanos < STRESS_TOTAL_LIMIT_NANOS
                ==> r == Ok::<StressReport, StressFailure>(StressReport {
                    pages: QUALIFICATION_PAGE_COUNT,
                    snapshots: 8,
                    total_nanos,
                    slowest_nanos: self.spec_slowest(),
                    checksum_xor: self.spec_checksum_xor(),
                }),
    {
        if self.recorded != 8 {
            return Err(StressFailure::ScheduleIncomplete { recorded: self.recorded });
        }
        if total_nanos >= STRESS_TOTAL_LIMIT_NANOS {
            return Err(StressFailure::TotalTooSlow { nanos: total_nanos });
        }
        Ok(StressReport {
            pages: QUALIFICATION_PAGE_COUNT,
            snapshots: 8,
            total_nanos,
            slowest_nanos: self.slowest_nanos,
            checksum_xor: self.checksum_xor,
        })
    }
}

} // verus!
