use vstd::prelude::*;

use crate::error::Error;

verus! {

/// A byte range of the image together with the bytes that it should hold.
#[derive(Debug, Clone, PartialEq, Eq)]
pub struct Region {
    pub offset: u64,
    pub length: usize,
    pub contents: Vec<u8>,
}

impl Region {
    /// The region's contents match its declared length.
    pub open spec fn valid(&self) -> bool {
        self.contents@.len() == self.length
    }

    /// First offset past the region.
    pub open spec fn end(&self) -> int {
        self.offset + self.length
    }

    /// Checks that the contents have the declared length.
    pub fn validate(&self) -> (r: Result<(), Error>)
        ensures
            r is Ok <==> self.valid(),
            r matches Err(e) ==> e == (Error::RegionLength {
                expected: self.length,
                found: self.contents@.len() as usize,
            }),
    {
        if self.length != self.contents.len() {
            return Err(Error::RegionLength { expected: self.length, found: self.contents.len() });
        }
        Ok(())
    }
}

/// The image `img` after writing `c` at offset `off`.
pub open spec fn write_at(img: Seq<u8>, off: int, c: Seq<u8>) -> Seq<u8> {
    img.subrange(0, off) + c + img.subrange(off + c.len(), img.len() as int)
}

/// The `len` bytes of `img` that start at offset `off`.
pub open spec fn read_at(img: Seq<u8>, off: int, len: int) -> Seq<u8> {
    img.subrange(off, off + len)
}

/// The image `img` after writing each region in turn, in the order given.
pub open spec fn write_regions(img: Seq<u8>, rs: Seq<Region>) -> Seq<u8>
    decreases rs.len(),
{
    if rs.len() == 0 {
        img
    } else {
        write_at(write_regions(img, rs.drop_last()), rs.last().offset as int, rs.last().contents@)
    }
}

/// A region lies inside an image of `len` bytes.
pub open spec fn fits(r: Region, len: int) -> bool {
    r.valid() && r.end() <= len
}

/// Writing a valid region that lies inside the image and reading the same
/// offset and length back yields the region's contents, and leaves the image
/// length unchanged.
pub proof fn lemma_region_round_trip(img: Seq<u8>, r: Region)
    requires
        fits(r, img.len() as int),
    ensures
        read_at(write_at(img, r.offset as int, r.contents@), r.offset as int, r.length as int)
            == r.contents@,
        write_at(img, r.offset as int, r.contents@).len() == img.len(),
{
    let w = write_at(img, r.offset as int, r.contents@);
    assert(read_at(w, r.offset as int, r.length as int) =~= r.contents@);
}

} // verus!
