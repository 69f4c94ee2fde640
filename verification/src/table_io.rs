use vstd::prelude::*;
use crate::disk::{seek_in_range, seek_target, write_len, written_content, SeekFrom, SparseDisk};

verus! {

#[verifier::external_type_specification]
#[verifier::external_body]
pub struct ExIoError(std::io::Error);

#[verifier::external_type_specification]
#[verifier::external_body]
pub struct ExIoSeekFrom(std::io::SeekFrom);

/// Builds, with `std::io::Error::from`, the error of kind `InvalidInput`
/// that a table disk answers when a cursor would leave the `u64` or `i64`
/// range. Nothing is claimed of it.
#[verifier::external_body]
fn out_of_range_error() -> std::io::Error {
    std::io::Error::from(std::io::ErrorKind::InvalidInput)
}

/// Turns a `std::io::SeekFrom` into the library's `SeekFrom`, variant for
/// variant with the same offset. Nothing is claimed of it: a seek is
/// verified for every target.
#[verifier::external_body]
fn seek_from_std(target: std::io::SeekFrom) -> SeekFrom {
    match target {
        std::io::SeekFrom::Start(p) => SeekFrom::Start(p),
        std::io::SeekFrom::End(p) => SeekFrom::End(p),
        std::io::SeekFrom::Current(p) => SeekFrom::Current(p),
    }
}

/// A sparse disk that partition table code reads, writes and seeks
/// through `std::io`. Its disk stays well formed whatever is done to it.
pub struct TableDisk {
    disk: SparseDisk,
}

impl TableDisk {
    #[verifier::type_invariant]
    spec fn inv(self) -> bool {
        self.disk.wf()
    }

    /// The stored blocks, each by its bytes.
    pub closed spec fn content(&self) -> Map<u64, Seq<u8>> {
        self.disk.content()
    }

    /// The disk's size in bytes.
    pub closed spec fn capacity(&self) -> u64 {
        self.disk.capacity()
    }

    /// Wraps a well-formed disk.
    pub fn new(disk: SparseDisk) -> (t: Self)
        requires
            disk.wf(),
        ensures
            t.content() == disk.content(),
            t.capacity() == disk.capacity(),
    {
        TableDisk { disk }
    }

    /// Hands the disk back.
    pub fn into_disk(self) -> (d: SparseDisk)
        ensures
            d.wf(),
            d.content() == self.content(),
            d.capacity() == self.capacity(),
    {
        proof {
            use_type_invariant(&self);
        }
        self.disk
    }
}

impl std::io::Read for TableDisk {
    fn read(&mut self, buf: &mut [u8]) -> std::io::Result<usize> {
        proof {
            use_type_invariant(&*self);
        }
        let mut d = SparseDisk::new(0);
        std::mem::swap(&mut d, &mut self.disk);
        proof {
            d.lemma_wf_blocks();
        }
        let n = d.read(buf);
        std::mem::swap(&mut d, &mut self.disk);
        Ok(n)
    }
}

impl std::io::Write for TableDisk {
    fn write(&mut self, buf: &[u8]) -> std::io::Result<usize> {
        proof {
            use_type_invariant(&*self);
        }
        let pos = self.disk.position();
        if buf.len() > 0 {
            let room: u64 = 4096 - pos % 4096;
            let n: u64 = if (buf.len() as u64) < room { buf.len() as u64 } else { room };
            if pos > u64::MAX - n {
                return Err(out_of_range_error());
            }
        }
        let mut d = SparseDisk::new(0);
        std::mem::swap(&mut d, &mut self.disk);
        proof {
            d.lemma_wf_blocks();
        }
        let n = d.write(buf);
        std::mem::swap(&mut d, &mut self.disk);
        Ok(n)
    }

    fn flush(&mut self) -> std::io::Result<()> {
        Ok(())
    }
}

impl std::io::Seek for TableDisk {
    fn seek(&mut self, pos: std::io::SeekFrom) -> std::io::Result<u64> {
        proof {
            use_type_invariant(&*self);
        }
        let target = seek_from_std(pos);
        let in_range = match target {
            SeekFrom::Start(_) => true,
            SeekFrom::End(p) => {
                let s: i64 = #[verifier::truncate] (self.disk.size() as i64);
                p >= 0 && s <= i64::MAX - p || p < 0 && s >= i64::MIN - p
            },
            SeekFrom::Current(p) => {
                let c: i64 = #[verifier::truncate] (self.disk.position() as i64);
                p >= 0 && c <= i64::MAX - p || p < 0 && c >= i64::MIN - p
            },
        };
        if !in_range {
            return Err(out_of_range_error());
        }
        let mut d = SparseDisk::new(0);
        std::mem::swap(&mut d, &mut self.disk);
        let r = d.seek(target);
        std::mem::swap(&mut d, &mut self.disk);
        Ok(r)
    }
}

} // verus!
