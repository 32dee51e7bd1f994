use vstd::prelude::*;

verus! {

/// Bytes in one sector of the filesystem images that the demo jobs make.
pub const SECTOR_SIZE: u64 = 512;

/// Bytes of random data that a demo job writes and reads back at a time.
pub const BLOCK_SIZE: u64 = 1048576;

/// Bytes in a mebibyte.
pub const MIB: usize = 1048576;

/// The size of the image that job `id` of `total` makes: the later a job
/// starts, the smaller its image.
pub fn fs_size(id: usize, total: usize) -> (r: u64)
    requires
        id <= total,
        (60 + (total - id) * 3) * MIB <= u64::MAX,
        (60 + (total - id) * 3) * MIB <= usize::MAX,
    ensures
        r == (60 + (total - id) * 3) * MIB,
{
    ((60 + (total - id) * 3) * MIB) as u64
}

/// The size of the random file that job `id` of `total` writes.
pub fn file_size(id: usize, total: usize) -> (r: u64)
    requires
        id <= total,
        (55 + (total - id) * 3) * MIB <= u64::MAX,
        (55 + (total - id) * 3) * MIB <= usize::MAX,
    ensures
        r == (55 + (total - id) * 3) * MIB,
{
    ((55 + (total - id) * 3) * MIB) as u64
}

/// The smallest multiple of `m` that is at least `x`.
pub open spec fn round_up(x: int, m: int) -> int {
    if x % m == 0 {
        x
    } else {
        x - x % m + m
    }
}

/// The sizes a demo job works with, once rounded.
#[derive(Clone, Copy, Debug, PartialEq, Eq, Structural)]
pub struct JobPlan {
    /// Size of the image, a whole number of sectors.
    pub fs_size: u64,
    /// Sectors in the image, as the formatter takes them (the low 32 bits).
    pub total_sectors: u32,
    /// Size of the random file, a whole number of blocks.
    pub file_size: u64,
    /// Blocks in the random file.
    pub blocks: u64,
}

fn round_up_u64(x: u64, m: u64) -> (r: Option<u64>)
    requires
        m > 0,
    ensures
        r matches Some(v) ==> v == round_up(x as int, m as int),
        r is None <==> round_up(x as int, m as int) > u64::MAX,
{
    let rem = x % m;
    proof {
        assert(rem <= x) by (nonlinear_arith)
            requires rem == x % m, m > 0, x >= 0;
    }
    if rem == 0 {
        Some(x)
    } else {
        match (x - rem).checked_add(m) {
            Some(v) => Some(v),
            None => None,
        }
    }
}

/// Rounds the image up to whole sectors and the random file up to whole
/// blocks; `None` when either rounding does not fit in `u64`.
pub fn plan_job(fs_size: u64, file_size: u64) -> (r: Option<JobPlan>)
    ensures
        r is None <==> round_up(fs_size as int, SECTOR_SIZE as int) > u64::MAX || round_up(
            file_size as int,
            BLOCK_SIZE as int,
        ) > u64::MAX,
        r matches Some(p) ==> {
            &&& p.fs_size == round_up(fs_size as int, SECTOR_SIZE as int)
            &&& p.total_sectors == (p.fs_size / SECTOR_SIZE) as u32
            &&& p.file_size == round_up(file_size as int, BLOCK_SIZE as int)
            &&& p.blocks == p.file_size / BLOCK_SIZE
            &&& p.blocks * BLOCK_SIZE == p.file_size
        },
{
    let fs = match round_up_u64(fs_size, SECTOR_SIZE) {
        Some(v) => v,
        None => return None,
    };
    let file = match round_up_u64(file_size, BLOCK_SIZE) {
        Some(v) => v,
        None => return None,
    };
    let blocks = file / BLOCK_SIZE;
    proof {
        let x = file_size as int;
        let m = BLOCK_SIZE as int;
        assert(round_up(x, m) % m == 0) by (nonlinear_arith)
            requires m > 0, x >= 0, round_up(x, m) == if x % m == 0 { x } else { x - x % m + m };
        assert((file as int / m) * m == file as int) by (nonlinear_arith)
            requires m > 0, file as int % m == 0;
    }
    Some(JobPlan { fs_size: fs, total_sectors: (fs / SECTOR_SIZE) as u32, file_size: file, blocks })
}

} // verus!
