//! Fixed VHDs.
use vstd::prelude::*;
use super::footer;
use super::footer::{VhdFooter, DISK_TYPE_FIXED, FOOTER_LEN};
use crate::storage::raw;
use crate::storage;
use crate::storage::{BackingStore, StorageError};
use crate::wire;

verus! {

/// The footer at the end of an image, or why there is none.
pub open spec fn trailing_footer(img: Seq<u8>) -> Result<VhdFooter, StorageError> {
    if img.len() < FOOTER_LEN {
        Err(StorageError::FileTooShort)
    } else {
        footer::footer_of(img.subrange(img.len() - FOOTER_LEN, img.len() as int))
    }
}

/// The virtual size of a fixed VHD image, or why it is none.
pub open spec fn fixed_of(img: Seq<u8>) -> Result<u64, StorageError> {
    match trailing_footer(img) {
        Ok(f) => if f.disk_type == DISK_TYPE_FIXED {
            Ok(f.current_size)
        } else {
            Err(StorageError::NotFixed)
        },
        Err(e) => Err(e),
    }
}

/// Read the footer at the end of an image.
pub fn read_footer<S: BackingStore>(image: &S) -> (r: Result<VhdFooter, StorageError>)
    ensures
        match r {
            Ok(f) => trailing_footer(image.content()) == Ok::<VhdFooter, StorageError>(f),
            Err(StorageError::Unreadable(_)) => !storage::all_readable(image),
            Err(e) => trailing_footer(image.content()) == Err::<VhdFooter, StorageError>(e),
        },
{
    let len: u64 = image.size_bytes();
    if len < FOOTER_LEN as u64 {
        return Err(StorageError::FileTooShort);
    }
    let mut buf: Vec<u8> = wire::zeroed(FOOTER_LEN);
    match image.read_at(len - FOOTER_LEN as u64, buf.as_mut_slice()) {
        Ok(_) => VhdFooter::parse(buf.as_slice()),
        Err(e) => Err(StorageError::Unreadable(Box::new(e))),
    }
}

/// Fixed VHD: raw data followed by a 512-byte footer. The virtual size is the
/// footer's `current_size`; data starts at byte 0.
pub struct FixedVhd<S> {
    image: S,
    virtual_size: u64,
}

impl<S: BackingStore> FixedVhd<S> {
    /// The image file.
    pub closed spec fn image(&self) -> S {
        self.image
    }

    /// Open a fixed VHD read-only. Validates the trailing footer.
    pub fn open(image: S) -> (r: Result<Self, StorageError>)
        ensures
            match r {
                Ok(v) => {
                    &&& v.image() == image
                    &&& fixed_of(image.content()) == Ok::<u64, StorageError>(
                        v.content().len() as u64,
                    )
                    &&& forall|i: int| 0 <= i < v.content().len() ==> #[trigger] v.content()[i]
                        == image.content()[i]
                    &&& forall|i: int| #[trigger]
                        v.readable(i) == (i < image.content().len() && image.readable(i))
                },
                Err(StorageError::Unreadable(_)) => !storage::all_readable(&image),
                Err(e) => fixed_of(image.content()) == Err::<u64, StorageError>(e),
            },
    {
        let f = match read_footer(&image) {
            Ok(f) => f,
            Err(e) => {
                return Err(e);
            },
        };
        if f.disk_type != DISK_TYPE_FIXED {
            return Err(StorageError::NotFixed);
        }
        Ok(FixedVhd { image, virtual_size: f.current_size })
    }
}

impl<S: BackingStore> BackingStore for FixedVhd<S> {
    closed spec fn content(&self) -> Seq<u8> {
        Seq::new(self.virtual_size as nat, |i: int| self.image.content()[i])
    }

    /// The file may be shorter than its footer says.
    closed spec fn readable(&self, i: int) -> bool {
        i < self.image.content().len() && self.image.readable(i)
    }

    fn size_bytes(&self) -> (n: u64) {
        self.virtual_size
    }

    fn read_at(&self, offset: u64, buf: &mut [u8]) -> (r: Result<(), StorageError>)
        ensures
            offset + old(buf)@.len() > self.content().len() ==> r == Err::<(), StorageError>(
                raw::range_error(offset, old(buf)@.len() as int, self.content().len() as u64),
            ),
    {
        match raw::check_range(offset, buf.len(), self.virtual_size) {
            Ok(_) => {
                if buf.len() == 0 {
                    assert(buf@ =~= self.content().subrange(offset as int, offset as int));
                    return Ok(());
                }
                let r = self.image.read_at(offset, buf);
                proof {
                    let n = old(buf)@.len() as int;
                    if forall|i: int| offset <= i < offset + n ==> #[trigger] self.readable(i) {
                        assert(self.readable(offset + n - 1));
                        assert forall|i: int| offset <= i < offset + n implies #[trigger]
                            self.image.readable(i) by {
                            assert(self.readable(i));
                        }
                    }
                    if r is Ok {
                        assert(buf@ =~= self.content().subrange(
                            offset as int,
                            offset + old(buf)@.len(),
                        ));
                    }
                }
                r
            },
            Err(e) => Err(e),
        }
    }
}

} // verus!
