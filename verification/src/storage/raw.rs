//! Raw disk images.
use vstd::prelude::*;
use super::{BackingStore, StorageError};

verus! {

/// The error for a read of `len` bytes at `offset` that leaves an image of
/// `size` bytes.
pub open spec fn range_error(offset: u64, len: int, size: u64) -> StorageError {
    if offset + len > u64::MAX {
        StorageError::RangeOverflow
    } else {
        StorageError::OutOfRange { end: (offset + len) as u64, size }
    }
}

/// Reject reads that overflow or run past the end of an image of `size` bytes.
pub fn check_range(offset: u64, len: usize, size: u64) -> (r: Result<(), StorageError>)
    ensures
        r is Ok <==> offset + len <= size,
        r matches Err(e) ==> e == range_error(offset, len as int, size),
{
    if len as u64 > u64::MAX - offset {
        return Err(StorageError::RangeOverflow);
    }
    let end: u64 = offset + len as u64;
    if end > size {
        return Err(StorageError::OutOfRange { end, size });
    }
    Ok(())
}

/// A backing store over a raw disk image: the file *is* the disk, byte-for-byte.
pub struct RawFile<S> {
    image: S,
}

impl<S: BackingStore> RawFile<S> {
    /// The image this store reads.
    pub closed spec fn image(&self) -> S {
        self.image
    }

    /// Open a raw image read-only.
    pub fn open(image: S) -> (r: Self)
        ensures
            r.image() == image,
            r.content() == image.content(),
            forall|i: int| #[trigger] r.readable(i) == image.readable(i),
    {
        RawFile { image }
    }
}

impl<S: BackingStore> BackingStore for RawFile<S> {
    closed spec fn content(&self) -> Seq<u8> {
        self.image.content()
    }

    closed spec fn readable(&self, i: int) -> bool {
        self.image.readable(i)
    }

    fn size_bytes(&self) -> (n: u64) {
        self.image.size_bytes()
    }

    fn read_at(&self, offset: u64, buf: &mut [u8]) -> (r: Result<(), StorageError>)
        ensures
            offset + old(buf)@.len() > self.content().len() ==> r == Err::<(), StorageError>(
                range_error(offset, old(buf)@.len() as int, self.content().len() as u64),
            ),
    {
        let size: u64 = self.image.size_bytes();
        match check_range(offset, buf.len(), size) {
            Ok(_) => {
                assert(forall|i: int| #[trigger] self.image.readable(i) == self.readable(i));
                self.image.read_at(offset, buf)
            },
            Err(e) => Err(e),
        }
    }
}

/// What a read that leaves an image is told: where it would have ended and how
/// large the image is, or, where no number says where, that it overflows.
pub proof fn range_errors_say_where(offset: u64, len: int, size: u64)
    requires
        0 <= len,
    ensures
        offset + len < 0x1_0000_0000_0000_0000 ==> (range_error(offset, len, size) matches
            StorageError::OutOfRange { end, size: s } && end == offset + len && s == size),
        offset + len >= 0x1_0000_0000_0000_0000 ==> range_error(offset, len, size)
            is RangeOverflow,
{
}

} // verus!
