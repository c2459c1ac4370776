//! The decisions of an ext2 volume backed by a disk that is read and
//! written piecewise: when a commit is complete, how many bytes a read asks
//! for and when it has gathered them, and whether a range lies on the disk.  The disk I/O itself
//! is left to the caller, which performs one read or write per step.
use vstd::prelude::*;

verus! {

/// What a commit does after one write of the bytes still to be written.
#[derive(Debug, Clone, Copy, PartialEq, Eq, Structural)]
pub enum CommitStep {
    /// Every byte is written.
    Done,
    /// Write again, from `offset` on.
    Continue { offset: usize },
    /// The write failed; the commit stops.
    Failed,
}

/// What a read does after the disk returned `got` bytes.
#[derive(Debug, Clone, Copy, PartialEq, Eq, Structural)]
pub enum ReadStep {
    /// Keep the first `take` bytes just read, and stop.
    Finished { take: usize },
    /// Keep all bytes just read; `remaining` bytes are still wanted.
    More { remaining: u64 },
}

/// The next step of a commit of `len` bytes, of which the first `offset`
/// are written, after a write that wrote `written` bytes (`None` when it
/// failed).
///
/// A write never writes more bytes than it is given.
pub fn commit_step(len: usize, offset: usize, written: Option<usize>) -> (r: CommitStep)
    requires
        offset <= len,
        written matches Some(x) ==> offset + x <= len,
    ensures
        written is None ==> r == CommitStep::Failed,
        written matches Some(x) ==> r == (if x == len - offset {
            CommitStep::Done
        } else {
            CommitStep::Continue { offset: (offset + x) as usize }
        }),
{
    match written {
        Some(x) => {
            if x == len - offset {
                CommitStep::Done
            } else {
                CommitStep::Continue { offset: offset + x }
            }
        },
        None => CommitStep::Failed,
    }
}

/// The next step of a read that still wants `remaining` bytes, after the
/// disk returned `got` bytes.
pub fn read_step(remaining: u64, got: usize) -> (r: ReadStep)
    ensures
        got >= remaining as usize ==> r == (ReadStep::Finished { take: remaining as usize }),
        got < remaining as usize ==> r == (ReadStep::More {
            remaining: (remaining - got) as u64,
        }),
{
    let wanted = remaining as usize;
    if got >= wanted {
        ReadStep::Finished { take: wanted }
    } else {
        proof {
            assert((remaining as usize) as u64 <= remaining) by (bit_vector);
        }
        ReadStep::More { remaining: remaining - got as u64 }
    }
}

/// A position on the volume: its byte index, and its sector, its offset in
/// that sector and the sector size.
#[derive(Debug, Clone, Copy)]
pub struct VolumeAddress {
    pub index: u64,
    pub sector: u32,
    pub offset: u32,
    pub sector_size: u32,
}

/// Why a volume refuses a request.
#[derive(Debug, Clone, Copy, PartialEq, Eq, Structural)]
pub enum VolumeError {
    /// The address lies beyond the end of the volume.
    AddressOutOfBounds { sector: u32, offset: u32, size: u32 },
}

/// Whether a slice that ends at `end` lies on a disk of `disk_size` bytes:
/// `Ok` when it does, else the error that names `end`.
pub fn check_slice_end(disk_size: u64, end: VolumeAddress) -> (r: Result<(), VolumeError>)
    ensures
        end.index <= disk_size ==> r is Ok,
        end.index > disk_size ==> r == Err::<(), VolumeError>(
            VolumeError::AddressOutOfBounds {
                sector: end.sector,
                offset: end.offset,
                size: end.sector_size,
            },
        ),
{
    if disk_size >= end.index {
        Ok(())
    } else {
        Err(
            VolumeError::AddressOutOfBounds {
                sector: end.sector,
                offset: end.offset,
                size: end.sector_size,
            },
        )
    }
}

/// Number of bytes that a read of the range from byte `start` to byte
/// `end` asks for: both ends included.
pub fn read_len(start: u64, end: u64) -> (r: u64)
    requires
        start <= end,
        end - start < u64::MAX,
    ensures
        r == end - start + 1,
{
    (end - start) + 1
}

} // verus!
