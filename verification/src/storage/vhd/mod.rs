//! Microsoft Virtual PC disk images (VHD).
pub mod chain;
pub mod dynamic;
pub mod fixed;
pub mod footer;
pub mod laws;
pub mod probe;
pub mod write;
pub mod written;

use vstd::prelude::*;
use crate::storage;
use crate::storage::{BackingStore, StorageError};
use dynamic::DynamicVhd;
use fixed::FixedVhd;
use footer::DISK_TYPE_FIXED;

verus! {

/// A VHD image of either type.
pub enum Vhd<S: BackingStore> {
    Fixed(FixedVhd<S>),
    Dynamic(DynamicVhd<S>),
}

/// `disk` is the disk in the VHD image `img`, fixed or dynamic as its footer
/// says.
pub open spec fn is_disk_of(disk: Seq<u8>, img: Seq<u8>) -> bool {
    ||| fixed::fixed_of(img) == Ok::<u64, StorageError>(disk.len() as u64) && disk.len()
        <= u64::MAX && forall|i: int| 0 <= i < disk.len() ==> #[trigger] disk[i] == img[i]
    ||| dynamic::layout_of(img) is Ok && disk == dynamic::layout_of(img)->Ok_0.disk(img)
}

/// `e` is why `image` is no VHD, or why it cannot be read as one.
pub open spec fn refuses<S: BackingStore>(image: S, e: StorageError) -> bool {
    let img = image.content();
    ||| e is Unreadable && !storage::all_readable(&image)
    ||| fixed::fixed_of(img) is Err && match dynamic::layout_of(img) {
        Ok(_) => false,
        Err(Some(reason)) => e == reason,
        Err(None) => e is Unreadable,
    }
}

impl<S: BackingStore> Vhd<S> {
    /// This is the disk in `image`.
    pub open spec fn is_of(&self, image: S) -> bool {
        &&& is_disk_of(self.content(), image.content())
        &&& match self {
            Vhd::Fixed(f) => fixed::fixed_of(image.content()) is Ok && f.image() == image && forall|
                i: int,
            | #[trigger]
                f.readable(i) == (i < image.content().len() && image.readable(i)),
            Vhd::Dynamic(d) => d.image() == image && dynamic::layout_of(image.content()) == Ok::<
                dynamic::Layout,
                Option<StorageError>,
            >(d.layout()),
        }
    }

    /// Open a VHD read-only, fixed or dynamic by its footer.
    pub fn open(image: S) -> (r: Result<Self, StorageError>)
        ensures
            match r {
                Ok(v) => v.is_of(image),
                Err(e) => refuses(image, e),
            },
    {
        let footer = match fixed::read_footer(&image) {
            Ok(f) => f,
            Err(e) => {
                return Err(e);
            },
        };
        if footer.disk_type == DISK_TYPE_FIXED {
            match FixedVhd::open(image) {
                Ok(v) => {
                    let _size: u64 = v.size_bytes();
                    Ok(Vhd::Fixed(v))
                },
                Err(e) => Err(e),
            }
        } else {
            match DynamicVhd::open(image) {
                Ok(v) => Ok(Vhd::Dynamic(v)),
                Err(e) => Err(e),
            }
        }
    }
}

impl<S: BackingStore> BackingStore for Vhd<S> {
    open spec fn content(&self) -> Seq<u8> {
        match self {
            Vhd::Fixed(v) => v.content(),
            Vhd::Dynamic(v) => v.content(),
        }
    }

    open spec fn readable(&self, i: int) -> bool {
        match self {
            Vhd::Fixed(v) => v.readable(i),
            Vhd::Dynamic(v) => v.readable(i),
        }
    }

    fn size_bytes(&self) -> (n: u64) {
        match self {
            Vhd::Fixed(v) => v.size_bytes(),
            Vhd::Dynamic(v) => v.size_bytes(),
        }
    }

    fn read_at(&self, offset: u64, buf: &mut [u8]) -> (r: Result<(), StorageError>) {
        match self {
            Vhd::Fixed(v) => {
                assert(forall|i: int| #[trigger] v.readable(i) == self.readable(i));
                v.read_at(offset, buf)
            },
            Vhd::Dynamic(v) => {
                assert(forall|i: int| #[trigger] v.readable(i) == self.readable(i));
                v.read_at(offset, buf)
            },
        }
    }
}

} // verus!
