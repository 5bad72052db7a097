//! What the command-line tools compute.
use xboot_core::storage::{BackingStore, StorageError};
use xboot_core::tools::{parse_ranges, percent, read_range, ByteRange, RangeError};

struct Mem(Vec<u8>);

impl BackingStore for Mem {
    fn size_bytes(&self) -> u64 {
        self.0.len() as u64
    }
    fn read_at(&self, offset: u64, buf: &mut [u8]) -> Result<(), StorageError> {
        let s = offset as usize;
        match self.0.get(s..s + buf.len()) {
            Some(b) => {
                buf.copy_from_slice(b);
                Ok(())
            }
            None => Err(StorageError::Io("short".to_string())),
        }
    }
}

fn range(offset: u64, length: u64) -> ByteRange {
    ByteRange { offset, length }
}

#[test]
fn ranges_are_read_line_by_line() {
    let (r, e) = parse_ranges("0 512\n\n  1024\t16 trailing words\r\n+7 0");
    assert_eq!(r, vec![range(0, 512), range(1024, 16), range(7, 0)]);
    assert_eq!(e, None);
    assert_eq!(parse_ranges(""), (vec![], None));
}

#[test]
fn a_wrong_line_ends_the_list() {
    let (r, e) = parse_ranges("1 2\n\n5\n3 4\n");
    assert_eq!(r, vec![range(1, 2)]);
    assert_eq!(e, Some(RangeError::Expected { line: 3 }));
    assert_eq!(e.unwrap().message(), "line 3: expected '<offset> <length>'");
    let (r, e) = parse_ranges("1 x");
    assert!(r.is_empty());
    assert_eq!(e.unwrap().message(), "line 1: bad numbers");
    assert_eq!(parse_ranges("18446744073709551616 1").1, Some(RangeError::BadNumbers { line: 1 }));
}

#[test]
fn ranges_are_read_from_the_disk() {
    let disk = Mem((0..100).collect());
    assert_eq!(read_range(&disk, range(10, 3)).unwrap(), vec![10, 11, 12]);
    assert!(read_range(&disk, range(99, 3)).is_err());
}

#[test]
fn progress_in_hundredths() {
    assert_eq!(percent(0, 1000), 0);
    assert_eq!(percent(505, 1000), 50);
    assert_eq!(percent(1000, 1000), 100);
    assert_eq!(percent(3, 99), 100);
}
