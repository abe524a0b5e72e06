//! The device layer: block-aligned positioned reads and writes over fixed
//! size regions.
//!
//! The configurations and their builders hold the alignment arithmetic the
//! file-backed devices are opened with; the I/O itself lives outside the
//! library. `MemDevice` is an in-memory device with the same contract, used
//! by the write path and by recovery.

use vstd::prelude::*;

use crate::bits::{is_pow2, spec_is_aligned};

verus! {

/// The device block alignment used by the direct devices.
pub const ALIGN: usize = 4096;

/// Configuration of a file-per-region device.
#[derive(Debug, Clone)]
pub struct FsDeviceConfig {
    /// Base directory path.
    pub dir: String,
    /// Total capacity; a multiple of `file_size`.
    pub capacity: usize,
    /// Size of each region file; a multiple of `align`.
    pub file_size: usize,
    /// I/O block alignment; a power of two.
    pub align: usize,
    /// Preferred I/O size.
    pub io_size: usize,
}

impl FsDeviceConfig {
    /// The invariants `check` demands of a configuration.
    pub open spec fn spec_valid(&self) -> bool {
        &&& is_pow2(self.align)
        &&& spec_is_aligned(self.align, self.file_size)
        &&& self.file_size > 0
        &&& (self.capacity as int) % (self.file_size as int) == 0
    }

    /// Whether the configuration meets the device invariants.
    pub fn check(&self) -> (ok: bool)
        ensures
            ok == self.spec_valid(),
    {
        pow2_check(self.align) && self.file_size > 0 && self.file_size % self.align == 0
            && self.capacity % self.file_size == 0
    }
}

/// Test whether a value is a power of two.
pub fn pow2_check(v: usize) -> (r: bool)
    ensures
        r == is_pow2(v),
{
    let mut x = v;
    loop
        invariant
            is_pow2(v) == is_pow2(x),
        decreases x,
    {
        if x == 0 {
            return false;
        }
        if x == 1 {
            return true;
        }
        if x % 2 != 0 {
            return false;
        }
        x = x / 2;
    }
}

/// Builder for `FsDeviceConfig`.
#[derive(Debug)]
pub struct FsDeviceConfigBuilder {
    /// Base directory path.
    pub dir: String,
    /// Requested capacity; measured free space stands in when absent.
    pub capacity: Option<usize>,
    /// Requested region file size.
    pub file_size: Option<usize>,
    /// Requested alignment.
    pub align: Option<usize>,
    /// Requested I/O size.
    pub io_size: Option<usize>,
}

/// `v` rounded down to a multiple of `align` (the builders' rounding).
pub open spec fn spec_round_down(v: usize, align: usize) -> int {
    v - (v as int) % (align as int)
}

/// Round a value down to a multiple of another.
fn round_down(v: usize, align: usize) -> (r: usize)
    requires
        align > 0,
    ensures
        r == spec_round_down(v, align),
{
    proof {
        vstd::arithmetic::div_mod::lemma_mod_bound(v as int, align as int);
        if v < align {
            vstd::arithmetic::div_mod::lemma_small_mod(v as nat, align as nat);
        }
    }
    v - v % align
}

impl FsDeviceConfigBuilder {
    /// The default alignment.
    pub const DEFAULT_ALIGN: usize = 4096;

    /// The default preferred I/O size.
    pub const DEFAULT_IO_SIZE: usize = 16384;

    /// The default region file size.
    pub const DEFAULT_FILE_SIZE: usize = 67108864;

    /// Start a builder over a directory.
    pub fn new(dir: String) -> (r: FsDeviceConfigBuilder)
        ensures
            r.dir == dir,
            r.capacity is None,
            r.file_size is None,
            r.align is None,
            r.io_size is None,
    {
        FsDeviceConfigBuilder { dir, capacity: None, file_size: None, align: None, io_size: None }
    }

    /// Set the total capacity.
    pub fn with_capacity(self, capacity: usize) -> (r: FsDeviceConfigBuilder)
        ensures
            r == (FsDeviceConfigBuilder { capacity: Some(capacity), ..self }),
    {
        FsDeviceConfigBuilder { capacity: Some(capacity), ..self }
    }

    /// Set the region file size.
    pub fn with_file_size(self, file_size: usize) -> (r: FsDeviceConfigBuilder)
        ensures
            r == (FsDeviceConfigBuilder { file_size: Some(file_size), ..self }),
    {
        FsDeviceConfigBuilder { file_size: Some(file_size), ..self }
    }

    /// Set the alignment.
    pub fn with_align(self, align: usize) -> (r: FsDeviceConfigBuilder)
        ensures
            r == (FsDeviceConfigBuilder { align: Some(align), ..self }),
    {
        FsDeviceConfigBuilder { align: Some(align), ..self }
    }

    /// Set the preferred I/O size.
    pub fn with_io_size(self, io_size: usize) -> (r: FsDeviceConfigBuilder)
        ensures
            r == (FsDeviceConfigBuilder { io_size: Some(io_size), ..self }),
    {
        FsDeviceConfigBuilder { io_size: Some(io_size), ..self }
    }

    /// Resolve the configuration. The capacity must have been set (when it
    /// is not, the embedder measures the disk's free space first and sets
    /// it); each value is rounded to the relevant alignment.
    pub fn build(self) -> (r: FsDeviceConfig)
        requires
            self.capacity is Some,
        ensures
            r.dir == self.dir,
            r.align == if self.align is Some {
                self.align->Some_0
            } else {
                FsDeviceConfigBuilder::DEFAULT_ALIGN
            },
            r.align > 0 ==> {
                let cap0 = spec_round_down(self.capacity->Some_0, r.align);
                let fs_req = if self.file_size is Some {
                    self.file_size->Some_0
                } else {
                    FsDeviceConfigBuilder::DEFAULT_FILE_SIZE
                };
                &&& r.file_size == spec_round_down(
                    if fs_req < r.align {
                        r.align
                    } else if fs_req > cap0 {
                        cap0 as usize
                    } else {
                        fs_req
                    },
                    r.align,
                )
                &&& (r.file_size > 0 ==> r.capacity == spec_round_down(
                    cap0 as usize,
                    r.file_size,
                ))
                &&& ({
                    let io_req = if self.io_size is Some {
                        self.io_size->Some_0
                    } else {
                        FsDeviceConfigBuilder::DEFAULT_IO_SIZE
                    };
                    r.io_size == spec_round_down(
                        if io_req < r.align {
                            r.align
                        } else {
                            io_req
                        },
                        r.align,
                    )
                })
            },
    {
        let align = match self.align {
            Some(a) => a,
            None => Self::DEFAULT_ALIGN,
        };
        if align == 0 {
            return FsDeviceConfig {
                dir: self.dir,
                capacity: 0,
                file_size: 0,
                align,
                io_size: 0,
            };
        }
        let capacity = match self.capacity {
            Some(c) => c,
            None => 0,
        };
        let capacity = round_down(capacity, align);
        let file_size_req = match self.file_size {
            Some(f) => f,
            None => Self::DEFAULT_FILE_SIZE,
        };
        let clamped = if file_size_req < align {
            align
        } else if file_size_req > capacity {
            capacity
        } else {
            file_size_req
        };
        let file_size = round_down(clamped, align);
        let capacity = if file_size > 0 {
            round_down(capacity, file_size)
        } else {
            capacity
        };
        let io_size_req = match self.io_size {
            Some(io) => io,
            None => Self::DEFAULT_IO_SIZE,
        };
        let io_size_req = if io_size_req < align {
            align
        } else {
            io_size_req
        };
        let io_size = round_down(io_size_req, align);
        FsDeviceConfig { dir: self.dir, capacity, file_size, align, io_size }
    }
}

/// Options for a device over one direct file.
#[derive(Debug, Clone)]
pub struct DirectFileDeviceOptions {
    /// Path of the file.
    pub path: String,
    /// Total capacity; a multiple of the region size.
    pub capacity: usize,
    /// Region size; a multiple of `ALIGN`.
    pub region_size: usize,
}

impl DirectFileDeviceOptions {
    /// The invariants the device requires of its options.
    pub open spec fn spec_valid(&self) -> bool {
        &&& self.region_size > 0
        &&& (self.region_size as int) % (ALIGN as int) == 0
        &&& self.capacity > 0
        &&& (self.capacity as int) % (self.region_size as int) == 0
    }

    /// Whether the options meet the device invariants.
    pub fn verify(&self) -> (ok: bool)
        ensures
            ok == self.spec_valid(),
    {
        self.region_size > 0 && self.region_size % ALIGN == 0 && self.capacity > 0
            && self.capacity % self.region_size == 0
    }
}

/// Builder for `DirectFileDeviceOptions`.
#[derive(Debug)]
pub struct DirectFileDeviceOptionsBuilder {
    /// Path of the file.
    pub path: String,
    /// Requested capacity.
    pub capacity: Option<usize>,
    /// Requested region size.
    pub region_size: Option<usize>,
}

impl DirectFileDeviceOptionsBuilder {
    /// The default region size.
    pub const DEFAULT_FILE_SIZE: usize = 67108864;

    /// Start a builder over a file path.
    pub fn new(path: String) -> (r: DirectFileDeviceOptionsBuilder)
        ensures
            r.path == path,
            r.capacity is None,
            r.region_size is None,
    {
        DirectFileDeviceOptionsBuilder { path, capacity: None, region_size: None }
    }

    /// Set the capacity.
    pub fn with_capacity(self, capacity: usize) -> (r: DirectFileDeviceOptionsBuilder)
        ensures
            r == (DirectFileDeviceOptionsBuilder { capacity: Some(capacity), ..self }),
    {
        DirectFileDeviceOptionsBuilder { capacity: Some(capacity), ..self }
    }

    /// Set the region size.
    pub fn with_region_size(self, region_size: usize) -> (r: DirectFileDeviceOptionsBuilder)
        ensures
            r == (DirectFileDeviceOptionsBuilder { region_size: Some(region_size), ..self }),
    {
        DirectFileDeviceOptionsBuilder { region_size: Some(region_size), ..self }
    }

    /// Resolve the options; the capacity must have been set.
    pub fn build(self) -> (r: DirectFileDeviceOptions)
        requires
            self.capacity is Some,
        ensures
            r.path == self.path,
            ({
                let cap0 = spec_round_down(self.capacity->Some_0, ALIGN);
                let rs_req = if self.region_size is Some {
                    self.region_size->Some_0
                } else {
                    DirectFileDeviceOptionsBuilder::DEFAULT_FILE_SIZE
                };
                &&& r.region_size == spec_round_down(
                    if rs_req > cap0 {
                        cap0 as usize
                    } else {
                        rs_req
                    },
                    ALIGN,
                )
                &&& (r.region_size > 0 ==> r.capacity == spec_round_down(
                    cap0 as usize,
                    r.region_size,
                ))
            }),
    {
        let capacity = match self.capacity {
            Some(c) => c,
            None => 0,
        };
        let capacity = round_down(capacity, ALIGN);
        let region_size_req = match self.region_size {
            Some(f) => f,
            None => Self::DEFAULT_FILE_SIZE,
        };
        let clamped = if region_size_req > capacity {
            capacity
        } else {
            region_size_req
        };
        let region_size = round_down(clamped, ALIGN);
        let capacity = if region_size > 0 {
            round_down(capacity, region_size)
        } else {
            capacity
        };
        DirectFileDeviceOptions { path: self.path, capacity, region_size }
    }
}

/// Options for a device over direct files in a directory.
#[derive(Debug, Clone)]
pub struct DirectFsDeviceOptions {
    /// The directory.
    pub dir: String,
    /// Total capacity; a multiple of the file size.
    pub capacity: usize,
    /// Size of each region file; a multiple of `ALIGN`.
    pub file_size: usize,
}

impl DirectFsDeviceOptions {
    /// The invariants the device requires of its options.
    pub open spec fn spec_valid(&self) -> bool {
        &&& self.file_size > 0
        &&& (self.file_size as int) % (ALIGN as int) == 0
        &&& self.capacity > 0
        &&& (self.capacity as int) % (self.file_size as int) == 0
    }

    /// Whether the options meet the device invariants.
    pub fn verify(&self) -> (ok: bool)
        ensures
            ok == self.spec_valid(),
    {
        self.file_size > 0 && self.file_size % ALIGN == 0 && self.capacity > 0 && self.capacity
            % self.file_size == 0
    }
}

/// Builder for `DirectFsDeviceOptions`.
#[derive(Debug)]
pub struct DirectFsDeviceOptionsBuilder {
    /// The directory.
    pub dir: String,
    /// Requested capacity.
    pub capacity: Option<usize>,
    /// Requested file size.
    pub file_size: Option<usize>,
}

impl DirectFsDeviceOptionsBuilder {
    /// The default region file size.
    pub const DEFAULT_FILE_SIZE: usize = 67108864;

    /// Start a builder over a directory.
    pub fn new(dir: String) -> (r: DirectFsDeviceOptionsBuilder)
        ensures
            r.dir == dir,
            r.capacity is None,
            r.file_size is None,
    {
        DirectFsDeviceOptionsBuilder { dir, capacity: None, file_size: None }
    }

    /// Set the capacity.
    pub fn with_capacity(self, capacity: usize) -> (r: DirectFsDeviceOptionsBuilder)
        ensures
            r == (DirectFsDeviceOptionsBuilder { capacity: Some(capacity), ..self }),
    {
        DirectFsDeviceOptionsBuilder { capacity: Some(capacity), ..self }
    }

    /// Set the file size.
    pub fn with_file_size(self, file_size: usize) -> (r: DirectFsDeviceOptionsBuilder)
        ensures
            r == (DirectFsDeviceOptionsBuilder { file_size: Some(file_size), ..self }),
    {
        DirectFsDeviceOptionsBuilder { file_size: Some(file_size), ..self }
    }

    /// Resolve the options; the capacity must have been set.
    pub fn build(self) -> (r: DirectFsDeviceOptions)
        requires
            self.capacity is Some,
        ensures
            r.dir == self.dir,
            ({
                let cap0 = spec_round_down(self.capacity->Some_0, ALIGN);
                let fs_req = if self.file_size is Some {
                    self.file_size->Some_0
                } else {
                    DirectFsDeviceOptionsBuilder::DEFAULT_FILE_SIZE
                };
                &&& r.file_size == spec_round_down(
                    if fs_req > cap0 {
                        cap0 as usize
                    } else {
                        fs_req
                    },
                    ALIGN,
                )
                &&& (r.file_size > 0 ==> r.capacity == spec_round_down(
                    cap0 as usize,
                    r.file_size,
                ))
            }),
    {
        let capacity = match self.capacity {
            Some(c) => c,
            None => 0,
        };
        let capacity = round_down(capacity, ALIGN);
        let file_size_req = match self.file_size {
            Some(f) => f,
            None => Self::DEFAULT_FILE_SIZE,
        };
        let clamped = if file_size_req > capacity {
            capacity
        } else {
            file_size_req
        };
        let file_size = round_down(clamped, ALIGN);
        let capacity = if file_size > 0 {
            round_down(capacity, file_size)
        } else {
            capacity
        };
        DirectFsDeviceOptions { dir: self.dir, capacity, file_size }
    }
}

/// An in-memory device: fixed-size regions of bytes with the block-aligned
/// positioned read/write contract of the device layer.
pub struct MemDevice {
    /// The regions' bytes.
    pub regions: Vec<Vec<u8>>,
    /// Size of each region.
    pub region_size: usize,
    /// Block alignment.
    pub align: usize,
}

impl MemDevice {
    /// The device invariant: a positive power-of-two alignment dividing the
    /// region size, and every region buffer exactly one region long.
    pub open spec fn wf(&self) -> bool {
        &&& is_pow2(self.align)
        &&& self.align > 0
        &&& spec_is_aligned(self.align, self.region_size)
        &&& forall|j: int|
            0 <= j < self.regions@.len() ==> (#[trigger] self.regions@[j])@.len()
                == self.region_size
    }

    /// Build a zero-filled device of `regions` regions.
    pub fn new(regions: usize, region_size: usize, align: usize) -> (r: MemDevice)
        requires
            align > 0,
            is_pow2(align),
            spec_is_aligned(align, region_size),
        ensures
            r.wf(),
            r.regions@.len() == regions,
            r.region_size == region_size,
            r.align == align,
            forall|j: int, t: int|
                0 <= j < regions && 0 <= t < region_size ==> (#[trigger] r.regions@[j]@[t]) == 0,
    {
        let mut rs: Vec<Vec<u8>> = Vec::new();
        let mut j: usize = 0;
        while j < regions
            invariant
                0 <= j <= regions,
                rs@.len() == j,
                forall|t: int| 0 <= t < j ==> (#[trigger] rs@[t])@.len() == region_size,
                forall|t: int, u: int|
                    0 <= t < j && 0 <= u < region_size ==> (#[trigger] rs@[t]@[u]) == 0,
            decreases regions - j,
        {
            let mut buf: Vec<u8> = Vec::new();
            let mut t: usize = 0;
            while t < region_size
                invariant
                    0 <= t <= region_size,
                    buf@.len() == t,
                    forall|u: int| 0 <= u < t ==> (#[trigger] buf@[u]) == 0,
                decreases region_size - t,
            {
                buf.push(0);
                t = t + 1;
            }
            rs.push(buf);
            j = j + 1;
        }
        MemDevice { regions: rs, region_size, align }
    }

    /// How many regions the device has.
    pub fn regions_len(&self) -> (r: usize)
        ensures
            r == self.regions@.len(),
    {
        self.regions.len()
    }

    /// Total capacity in bytes.
    pub fn capacity(&self) -> (r: usize)
        requires
            self.regions@.len() * self.region_size <= usize::MAX,
        ensures
            r == self.regions@.len() * self.region_size,
    {
        self.regions.len() * self.region_size
    }

    /// The region size.
    pub fn region_size(&self) -> (r: usize)
        ensures
            r == self.region_size,
    {
        self.region_size
    }

    /// The block alignment.
    pub fn align(&self) -> (r: usize)
        ensures
            r == self.align,
    {
        self.align
    }

    /// Write `buf` into a region at an aligned offset. Offset and length
    /// must be aligned and lie within the region.
    pub fn write(&mut self, buf: &Vec<u8>, region: u32, offset: usize)
        requires
            old(self).wf(),
            (region as int) < old(self).regions@.len(),
            spec_is_aligned(old(self).align, offset),
            spec_is_aligned(old(self).align, buf@.len() as usize),
            offset + buf@.len() <= old(self).region_size,
        ensures
            final(self).wf(),
            final(self).region_size == old(self).region_size,
            final(self).align == old(self).align,
            final(self).regions@.len() == old(self).regions@.len(),
            forall|j: int|
                0 <= j < old(self).regions@.len() && j != region
                    ==> (#[trigger] final(self).regions@[j])@ == old(self).regions@[j]@,
            final(self).regions@[region as int]@ == old(self).regions@[region as int]@.subrange(
                0,
                offset as int,
            ) + buf@ + old(self).regions@[region as int]@.subrange(
                offset + buf@.len(),
                old(self).region_size as int,
            ),
    {
        let n = buf.len();
        let mut t: usize = 0;
        let ghost orig = self.regions@[region as int]@;
        while t < n
            invariant
                0 <= t <= n,
                n == buf@.len(),
                offset + n <= self.region_size,
                (region as int) < self.regions@.len(),
                self.region_size == old(self).region_size,
                self.align == old(self).align,
                self.regions@.len() == old(self).regions@.len(),
                self.regions@[region as int]@.len() == self.region_size,
                forall|j: int|
                    0 <= j < self.regions@.len() && j != region ==> (#[trigger] self.regions@[j])@
                        == old(self).regions@[j]@,
                forall|j: int|
                    0 <= j < self.regions@.len() ==> (#[trigger] self.regions@[j])@.len()
                        == self.region_size,
                forall|u: int|
                    offset <= u < offset + t ==> #[trigger] self.regions@[region as int]@[u]
                        == buf@[u - offset],
                forall|u: int|
                    0 <= u < self.region_size && !(offset <= u < offset + t)
                        ==> #[trigger] self.regions@[region as int]@[u] == orig[u],
                is_pow2(self.align),
                spec_is_aligned(self.align, self.region_size),
            decreases n - t,
        {
            let b = buf[t];
            self.regions[region as usize][offset + t] = b;
            t = t + 1;
        }
        proof {
            assert(self.regions@[region as int]@ =~= orig.subrange(0, offset as int) + buf@
                + orig.subrange(offset + buf@.len(), self.region_size as int));
        }
    }

    /// Read `len` bytes from a region at an aligned offset.
    pub fn read(&self, region: u32, offset: usize, len: usize) -> (r: Vec<u8>)
        requires
            self.wf(),
            (region as int) < self.regions@.len(),
            spec_is_aligned(self.align, offset),
            offset + len <= self.region_size,
        ensures
            r@ == self.regions@[region as int]@.subrange(offset as int, offset + len),
    {
        let mut out: Vec<u8> = Vec::new();
        let mut t: usize = 0;
        while t < len
            invariant
                0 <= t <= len,
                offset + len <= self.region_size,
                (region as int) < self.regions@.len(),
                self.wf(),
                out@ == self.regions@[region as int]@.subrange(offset as int, offset + t),
            decreases len - t,
        {
            out.push(self.regions[region as usize][offset + t]);
            proof {
                assert(out@ =~= self.regions@[region as int]@.subrange(
                    offset as int,
                    offset + t + 1,
                ));
            }
            t = t + 1;
        }
        out
    }

    /// Flush a region, or all of them. The in-memory device is always
    /// durable, so this is the identity.
    pub fn flush(&mut self, region: Option<u32>)
        ensures
            *final(self) == *old(self),
    {
        let _ = region;
    }
}

} // verus!
