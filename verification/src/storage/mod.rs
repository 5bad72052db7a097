//! Disk images: the `BackingStore` interface and the formats behind it.
pub mod blockmap;
pub mod laws;
pub mod raw;
pub mod vhd;
pub mod vhdx;

pub use raw::RawFile;
pub use vhd::Vhd;
pub use vhdx::Vhdx;

use vstd::prelude::*;
use crate::text::push_decimal;
use crate::wire;
use vhd::chain::ChainedVhd;
use vhd::dynamic::read_part;

verus! {

/// Why a disk image could not be opened or read.
#[derive(Debug, PartialEq, Eq)]
pub enum StorageError {
    /// The operating system failed the read; the text says how.
    Io(String),
    /// `offset + length` does not fit in 64 bits.
    RangeOverflow,
    /// The range ends at `end`, past the `size` bytes there are.
    OutOfRange { end: u64, size: u64 },
    /// A read that a format's structures call for failed.
    Unreadable(Box<StorageError>),
    /// An allocation unit of no bytes.
    ZeroUnit,
    /// Fewer than 512 bytes where a VHD footer should be.
    FooterTooShort,
    /// No `conectix` at the start of a VHD footer.
    FooterCookie,
    /// A VHD footer whose bytes do not add up.
    FooterChecksum,
    /// An image without room for a VHD footer.
    FileTooShort,
    /// A VHD of another type where a fixed one was wanted.
    NotFixed,
    /// A VHD of another type where a dynamic one was wanted.
    NotDynamic,
    /// No `cxsparse` at the start of a dynamic header.
    HeaderCookie,
    /// A block size that is no power of two or no whole number of sectors.
    BlockSize,
    /// A block allocation table that does not fit in memory addresses.
    BatTooLarge,
    /// A sector of a block that the allocation table does not list.
    BeyondBat,
    /// The increment at `index` (oldest first) has another virtual size than the base.
    IncrementSize { index: usize, size: u64, base: u64 },
    /// More blocks than a VHD allocation table can list or address.
    ImageTooLarge,
    /// Neither VHDX header is valid.
    VhdxHeader,
    /// No `head` at the start of a VHDX header.
    VhdxHeaderSignature,
    /// A VHDX header whose CRC does not match.
    VhdxHeaderCrc,
    /// A VHDX header of another version than 1.
    VhdxHeaderVersion,
    /// A VHDX with a log to replay.
    VhdxLog,
    /// No `regi` at the start of a VHDX region table.
    RegionSignature,
    /// A VHDX region table whose CRC does not match.
    RegionCrc,
    /// More regions than a region table has room for.
    RegionCount,
    /// A VHDX without a BAT or metadata region.
    RegionMissing,
    /// No `metadata` at the start of the metadata region.
    MetadataSignature,
    /// More metadata items than the region has room for.
    MetadataCount,
    /// A metadata item outside its region.
    MetadataBounds,
    /// File parameters of fewer than 8 bytes.
    FileParametersShort,
    /// A differencing VHDX.
    HasParent,
    /// A virtual disk size of fewer than 8 bytes.
    VirtualSizeShort,
    /// A logical sector size of fewer than 4 bytes.
    SectorSizeShort,
    /// No block size among the metadata.
    BlockSizeMissing,
    /// No logical sector size among the metadata.
    SectorSizeMissing,
    /// No virtual disk size among the metadata.
    VirtualSizeMissing,
    /// A VHDX block size that is no power of two.
    VhdxBlockSize,
    /// A VHDX logical sector size that is no power of two.
    VhdxSectorSize,
    /// A VHDX block that the allocation table has no room for.
    VhdxBatShort,
}

impl StorageError {
    /// The error in words.
    pub open spec fn text(&self) -> Seq<char>
        decreases self,
    {
        match self {
            StorageError::Io(s) => s@,
            StorageError::Unreadable(e) => e.text(),
            StorageError::OutOfRange { end, size } => "read past end of image: "@
                + crate::text::decimal(*end as nat) + " > "@ + crate::text::decimal(*size as nat),
            StorageError::IncrementSize { index, size, base } => "increment "@
                + crate::text::decimal(*index as nat) + " virtual size "@ + crate::text::decimal(
                *size as nat,
            ) + " != base "@ + crate::text::decimal(*base as nat),
            StorageError::RangeOverflow => "read range overflows u64"@,
            StorageError::ZeroUnit => "unit_size must be non-zero"@,
            StorageError::FooterTooShort => "VHD footer shorter than 512 bytes"@,
            StorageError::FooterCookie => "VHD footer cookie mismatch"@,
            StorageError::FooterChecksum => "VHD footer checksum mismatch"@,
            StorageError::FileTooShort => "VHD file shorter than a footer"@,
            StorageError::NotFixed => "not a fixed VHD"@,
            StorageError::NotDynamic => "not a dynamic VHD"@,
            StorageError::HeaderCookie => "dynamic header cookie mismatch"@,
            StorageError::BlockSize => "invalid dynamic VHD block size"@,
            StorageError::BatTooLarge => "BAT size overflow"@,
            StorageError::BeyondBat => "sector beyond BAT"@,
            StorageError::ImageTooLarge => "image too large for VHD BAT"@,
            StorageError::VhdxHeader => "no valid VHDX header"@,
            StorageError::VhdxHeaderSignature => "VHDX header signature mismatch"@,
            StorageError::VhdxHeaderCrc => "VHDX header CRC mismatch"@,
            StorageError::VhdxHeaderVersion => "unsupported VHDX header version"@,
            StorageError::VhdxLog => "VHDX has a non-empty log (dirty image)"@,
            StorageError::RegionSignature => "VHDX region table signature mismatch"@,
            StorageError::RegionCrc => "VHDX region table CRC mismatch"@,
            StorageError::RegionCount => "VHDX region table entry count too large"@,
            StorageError::RegionMissing => "VHDX BAT or metadata region missing"@,
            StorageError::MetadataSignature => "VHDX metadata signature mismatch"@,
            StorageError::MetadataCount => "VHDX metadata entry count too large"@,
            StorageError::MetadataBounds => "VHDX metadata item out of bounds"@,
            StorageError::FileParametersShort => "VHDX file parameters too short"@,
            StorageError::HasParent => "differencing VHDX (has parent) unsupported"@,
            StorageError::VirtualSizeShort => "VHDX virtual disk size too short"@,
            StorageError::SectorSizeShort => "VHDX logical sector size too short"@,
            StorageError::BlockSizeMissing => "VHDX missing block size"@,
            StorageError::SectorSizeMissing => "VHDX missing logical sector size"@,
            StorageError::VirtualSizeMissing => "VHDX missing virtual size"@,
            StorageError::VhdxBlockSize => "invalid VHDX block size"@,
            StorageError::VhdxSectorSize => "invalid VHDX logical sector size"@,
            StorageError::VhdxBatShort => "VHDX block beyond BAT"@,
        }
    }

    /// The error in words.
    pub fn message(&self) -> (m: String)
        ensures
            m@ == self.text(),
        decreases self,
    {
        match self {
            StorageError::Io(s) => s.clone(),
            StorageError::Unreadable(e) => e.message(),
            StorageError::OutOfRange { end, size } => {
                let mut m: String = String::from_str("read past end of image: ");
                push_decimal(&mut m, *end);
                m.append(" > ");
                push_decimal(&mut m, *size);
                m
            },
            StorageError::IncrementSize { index, size, base } => {
                let mut m: String = String::from_str("increment ");
                push_decimal(&mut m, *index as u64);
                m.append(" virtual size ");
                push_decimal(&mut m, *size);
                m.append(" != base ");
                push_decimal(&mut m, *base);
                m
            },
            StorageError::RangeOverflow => String::from_str("read range overflows u64"),
            StorageError::ZeroUnit => String::from_str("unit_size must be non-zero"),
            StorageError::FooterTooShort => String::from_str("VHD footer shorter than 512 bytes"),
            StorageError::FooterCookie => String::from_str("VHD footer cookie mismatch"),
            StorageError::FooterChecksum => String::from_str("VHD footer checksum mismatch"),
            StorageError::FileTooShort => String::from_str("VHD file shorter than a footer"),
            StorageError::NotFixed => String::from_str("not a fixed VHD"),
            StorageError::NotDynamic => String::from_str("not a dynamic VHD"),
            StorageError::HeaderCookie => String::from_str("dynamic header cookie mismatch"),
            StorageError::BlockSize => String::from_str("invalid dynamic VHD block size"),
            StorageError::BatTooLarge => String::from_str("BAT size overflow"),
            StorageError::BeyondBat => String::from_str("sector beyond BAT"),
            StorageError::ImageTooLarge => String::from_str("image too large for VHD BAT"),
            StorageError::VhdxHeader => String::from_str("no valid VHDX header"),
            StorageError::VhdxHeaderSignature => String::from_str("VHDX header signature mismatch"),
            StorageError::VhdxHeaderCrc => String::from_str("VHDX header CRC mismatch"),
            StorageError::VhdxHeaderVersion => String::from_str("unsupported VHDX header version"),
            StorageError::VhdxLog => String::from_str("VHDX has a non-empty log (dirty image)"),
            StorageError::RegionSignature => String::from_str("VHDX region table signature mismatch"),
            StorageError::RegionCrc => String::from_str("VHDX region table CRC mismatch"),
            StorageError::RegionCount => String::from_str("VHDX region table entry count too large"),
            StorageError::RegionMissing => String::from_str("VHDX BAT or metadata region missing"),
            StorageError::MetadataSignature => String::from_str("VHDX metadata signature mismatch"),
            StorageError::MetadataCount => String::from_str("VHDX metadata entry count too large"),
            StorageError::MetadataBounds => String::from_str("VHDX metadata item out of bounds"),
            StorageError::FileParametersShort => String::from_str("VHDX file parameters too short"),
            StorageError::HasParent => String::from_str("differencing VHDX (has parent) unsupported"),
            StorageError::VirtualSizeShort => String::from_str("VHDX virtual disk size too short"),
            StorageError::SectorSizeShort => String::from_str("VHDX logical sector size too short"),
            StorageError::BlockSizeMissing => String::from_str("VHDX missing block size"),
            StorageError::SectorSizeMissing => String::from_str("VHDX missing logical sector size"),
            StorageError::VirtualSizeMissing => String::from_str("VHDX missing virtual size"),
            StorageError::VhdxBlockSize => String::from_str("invalid VHDX block size"),
            StorageError::VhdxSectorSize => String::from_str("invalid VHDX logical sector size"),
            StorageError::VhdxBatShort => String::from_str("VHDX block beyond BAT"),
        }
    }
}

/// A read-only source of disk-image bytes (raw, VHD, VHDX, ...). What its disk
/// holds and which bytes can be read is for each implementation to say; one
/// outside verified code leaves it unsaid.
pub trait BackingStore: Send + Sync {
    /// The bytes of the disk.
    open spec fn content(&self) -> Seq<u8> {
        arbitrary()
    }

    /// Byte `i` of the disk can be read.
    open spec fn readable(&self, i: int) -> bool {
        arbitrary()
    }

    /// Total virtual size in bytes.
    fn size_bytes(&self) -> (n: u64)
        ensures
            n == self.content().len(),
    ;

    /// Read exactly `buf.len()` bytes starting at byte `offset` into `buf`.
    /// A read that succeeds lies within the disk unless it is of no bytes, and
    /// a read within the disk succeeds if every byte of it can be read.
    fn read_at(&self, offset: u64, buf: &mut [u8]) -> (r: Result<(), StorageError>)
        ensures
            final(buf)@.len() == old(buf)@.len(),
            r is Ok && old(buf)@.len() > 0 ==> {
                &&& offset + old(buf)@.len() <= self.content().len()
                &&& final(buf)@ == self.content().subrange(
                    offset as int,
                    offset + old(buf)@.len(),
                )
            },
            offset + old(buf)@.len() <= self.content().len() && (forall|i: int|
                offset <= i < offset + old(buf)@.len() ==> #[trigger] self.readable(i)) ==> r is Ok,
    ;
}

/// `from..to` lies within the disk, and every byte of it can be read.
pub open spec fn span_readable<S: BackingStore + ?Sized>(s: &S, from: int, to: int) -> bool {
    to <= s.content().len() && forall|i: int| from <= i < to ==> #[trigger] s.readable(i)
}

/// In a span that cannot be read there is a byte that cannot.
pub proof fn unreadable_byte<S: BackingStore + ?Sized>(s: &S, from: int, to: int) -> (i: int)
    requires
        from < to,
        !span_readable(s, from, to),
    ensures
        from <= i < to,
        !(i < s.content().len() && s.readable(i)),
{
    if to > s.content().len() {
        to - 1
    } else {
        choose|i: int| from <= i < to && !(#[trigger] s.readable(i))
    }
}

/// Every byte of the disk can be read.
pub open spec fn all_readable<S: BackingStore + ?Sized>(s: &S) -> bool {
    forall|i: int| 0 <= i < s.content().len() ==> #[trigger] s.readable(i)
}

impl<T: BackingStore + ?Sized> BackingStore for Box<T> {
    open spec fn content(&self) -> Seq<u8> {
        (**self).content()
    }

    open spec fn readable(&self, i: int) -> bool {
        (**self).readable(i)
    }

    fn size_bytes(&self) -> (n: u64) {
        (**self).size_bytes()
    }

    fn read_at(&self, offset: u64, buf: &mut [u8]) -> (r: Result<(), StorageError>) {
        assert(forall|i: int| #[trigger] (**self).readable(i) == self.readable(i));
        (**self).read_at(offset, buf)
    }
}

/// Formats of master images.
#[derive(Debug, Clone, Copy, PartialEq, Eq, Structural)]
pub enum Format {
    Raw,
    Vhd,
    Vhdx,
}

/// The identifier `vhdxfile`.
pub open spec fn vhdx_identifier() -> Seq<u8> {
    seq![0x76, 0x68, 0x64, 0x78, 0x66, 0x69, 0x6c, 0x65]
}

/// The format of an image by its magic bytes: `vhdxfile` in front is VHDX, a
/// trailing `conectix` footer is VHD, anything else is raw.
pub open spec fn format_of(img: Seq<u8>) -> Format {
    if img.len() >= 8 && img.take(8) == vhdx_identifier() {
        Format::Vhdx
    } else if img.len() >= 512 && img.subrange(img.len() - 512, img.len() - 504)
        == vhd::footer::footer_cookie() {
        Format::Vhd
    } else {
        Format::Raw
    }
}

/// Detect the format of an image.
pub fn detect<S: BackingStore>(image: &S) -> (r: Result<Format, StorageError>)
    ensures
        match r {
            Ok(f) => f == format_of(image.content()),
            Err(e) => e is Unreadable && !all_readable(image),
        },
{
    let len: u64 = image.size_bytes();
    // VHDX: 8-byte identifier at offset 0.
    if len >= 8 {
        let ident = match read_part(image, 0, 8) {
            Ok(b) => b,
            Err(e) => {
                return Err(e);
            },
        };
        assert(ident@ =~= image.content().take(8));
        let vhdxfile: [u8; 8] = [0x76, 0x68, 0x64, 0x78, 0x66, 0x69, 0x6c, 0x65];
        assert(vhdxfile@ =~= vhdx_identifier());
        if wire::bytes_eq(ident.as_slice(), vhdxfile.as_slice()) {
            return Ok(Format::Vhdx);
        }
    }
    // VHD: 8-byte `conectix` cookie in the trailing 512-byte footer.
    if len >= 512 {
        let cookie = match read_part(image, len - 512, 8) {
            Ok(b) => b,
            Err(e) => {
                return Err(e);
            },
        };
        assert(cookie@.take(8) =~= cookie@);
        if vhd::footer::has_cookie(cookie.as_slice()) {
            return Ok(Format::Vhd);
        }
    }
    Ok(Format::Raw)
}

/// An opened master image.
pub enum Backing<S: BackingStore> {
    Raw(RawFile<S>),
    Vhd(Vhd<S>),
    Chain(ChainedVhd<Vhd<S>, S>),
    Vhdx(Vhdx<S>),
}

/// `e` is why the newest increment that does not go with the VHD `img` does not.
pub open spec fn increments_refused<S: BackingStore>(
    img: Seq<u8>,
    increments: Seq<S>,
    e: StorageError,
) -> bool {
    exists|base: Seq<u8>, k: int| #[trigger]
        vhd::is_disk_of(base, img) && #[trigger] vhd::chain::newest_refused(
            increments,
            k,
            base.len() as int,
            e,
        )
}

/// `b` is what `image` with `increments` opens as.
pub open spec fn opens_as<S: BackingStore>(image: S, increments: Seq<S>, b: Backing<S>) -> bool {
    match format_of(image.content()) {
        Format::Raw => b is Raw && b.content() == image.content() && forall|i: int| #[trigger]
            b.readable(i) == image.readable(i),
        Format::Vhdx => b matches Backing::Vhdx(v) && v.image() == image && vhdx::layout_of(
            image.content(),
        ) == Ok::<vhdx::VhdxLayout, Option<StorageError>>(v.layout()),
        Format::Vhd => if increments.len() == 0 {
            b matches Backing::Vhd(v) && v.is_of(image)
        } else {
            b matches Backing::Chain(c) && c.base().is_of(image) && c.layers().len()
                == increments.len() && forall|j: int|
                0 <= j < c.layers().len() ==> vhd::chain::is_layer(
                    #[trigger] c.layers()[j],
                    increments[increments.len() - 1 - j],
                    c.base().content().len() as int,
                )
        },
    }
}

/// `e` is why `image` with `increments` does not open.
pub open spec fn refuses<S: BackingStore>(
    image: S,
    increments: Seq<S>,
    e: StorageError,
) -> bool {
    ||| e is Unreadable && !all_readable(&image)
    ||| match format_of(image.content()) {
        Format::Raw => false,
        Format::Vhdx => vhdx::refuses(image, e),
        Format::Vhd => vhd::refuses(image, e) || increments_refused(
            image.content(),
            increments,
            e,
        ),
    }
}

/// Open a master image, detecting the format by magic bytes. `increments` are
/// the images of a VHD's increment files, oldest first; other formats have
/// none, and any given are left alone.
pub fn open_backing<S: BackingStore>(image: S, increments: Vec<S>) -> (r: Result<
    Backing<S>,
    StorageError,
>)
    ensures
        match r {
            Ok(b) => opens_as(image, increments@, b),
            Err(e) => refuses(image, increments@, e),
        },
{
    match detect(&image) {
        Err(e) => Err(e),
        Ok(Format::Raw) => Ok(Backing::Raw(RawFile::open(image))),
        Ok(Format::Vhdx) => match Vhdx::open(image) {
            Ok(v) => Ok(Backing::Vhdx(v)),
            Err(e) => Err(e),
        },
        Ok(Format::Vhd) => match Vhd::open(image) {
            Ok(base) => {
                if increments.len() == 0 {
                    Ok(Backing::Vhd(base))
                } else {
                    let ghost disk = base.content();
                    match ChainedVhd::open(base, increments) {
                        Ok(c) => Ok(Backing::Chain(c)),
                        Err(e) => {
                            assert(vhd::is_disk_of(disk, image.content()));
                            assert(increments_refused(image.content(), increments@, e));
                            Err(e)
                        },
                    }
                }
            },
            Err(e) => Err(e),
        },
    }
}

impl<S: BackingStore> BackingStore for Backing<S> {
    open spec fn content(&self) -> Seq<u8> {
        match self {
            Backing::Raw(b) => b.content(),
            Backing::Vhd(b) => b.content(),
            Backing::Chain(b) => b.content(),
            Backing::Vhdx(b) => b.content(),
        }
    }

    open spec fn readable(&self, i: int) -> bool {
        match self {
            Backing::Raw(b) => b.readable(i),
            Backing::Vhd(b) => b.readable(i),
            Backing::Chain(b) => b.readable(i),
            Backing::Vhdx(b) => b.readable(i),
        }
    }

    fn size_bytes(&self) -> (n: u64) {
        match self {
            Backing::Raw(b) => b.size_bytes(),
            Backing::Vhd(b) => b.size_bytes(),
            Backing::Chain(b) => b.size_bytes(),
            Backing::Vhdx(b) => b.size_bytes(),
        }
    }

    fn read_at(&self, offset: u64, buf: &mut [u8]) -> (r: Result<(), StorageError>) {
        match self {
            Backing::Raw(b) => {
                assert(forall|i: int| #[trigger] b.readable(i) == self.readable(i));
                b.read_at(offset, buf)
            },
            Backing::Vhd(b) => {
                assert(forall|i: int| #[trigger] b.readable(i) == self.readable(i));
                b.read_at(offset, buf)
            },
            Backing::Chain(b) => {
                assert(forall|i: int| #[trigger] b.readable(i) == self.readable(i));
                b.read_at(offset, buf)
            },
            Backing::Vhdx(b) => {
                assert(forall|i: int| #[trigger] b.readable(i) == self.readable(i));
                b.read_at(offset, buf)
            },
        }
    }
}

} // verus!
