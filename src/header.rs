use vstd::prelude::*;

use crate::error::Error;

verus! {

broadcast use vstd::seq_lib::group_to_multiset_ensures;

/// Size of the System Area at the start of the image.
pub const SYSTEM_AREA_SIZE: u64 = 32768;
/// Size of the Ignition embed header, which ends the System Area.
pub const IGNITION_HEADER_SIZE: u64 = 24;
/// Offset of the Ignition embed header.
pub const IGNITION_HEADER_OFFSET: u64 = SYSTEM_AREA_SIZE - IGNITION_HEADER_SIZE;
/// Size of the karg embed header, which lies just before the Ignition one.
pub const KARG_HEADER_SIZE: u64 = 72;
/// Offset of the karg embed header.
pub const KARG_HEADER_OFFSET: u64 = IGNITION_HEADER_OFFSET - KARG_HEADER_SIZE;
/// Most karg areas that the karg embed header can list.
pub const KARG_MAX_OFFSETS: usize = 6;
/// Largest karg area length accepted.
pub const KARG_AREA_MAX_SIZE: usize = 2048;
/// Magic number of the Ignition embed header: `coreiso+`.
pub const IGNITION_MAGIC: [u8; 8] = [0x63, 0x6f, 0x72, 0x65, 0x69, 0x73, 0x6f, 0x2b];
/// Magic number of the karg embed header: `coreKarg`.
pub const KARG_MAGIC: [u8; 8] = [0x63, 0x6f, 0x72, 0x65, 0x4b, 0x61, 0x72, 0x67];

pub open spec fn ignition_magic() -> Seq<u8> {
    seq![0x63u8, 0x6fu8, 0x72u8, 0x65u8, 0x69u8, 0x73u8, 0x6fu8, 0x2bu8]
}

pub open spec fn karg_magic() -> Seq<u8> {
    seq![0x63u8, 0x6fu8, 0x72u8, 0x65u8, 0x4bu8, 0x61u8, 0x72u8, 0x67u8]
}

/// The little-endian 64-bit value of the eight bytes of `s` at `at`.
pub open spec fn le_u64(s: Seq<u8>, at: int) -> int {
    s[at] as int + s[at + 1] as int * 0x100 + s[at + 2] as int * 0x1_0000 + s[at + 3] as int
        * 0x100_0000 + s[at + 4] as int * 0x1_0000_0000 + s[at + 5] as int * 0x100_0000_0000
        + s[at + 6] as int * 0x1_0000_0000_0000 + s[at + 7] as int * 0x100_0000_0000_0000
}

/// Reads a little-endian 64-bit value.
pub fn read_u64_le(b: &Vec<u8>, at: usize) -> (r: u64)
    requires
        at + 8 <= b@.len(),
    ensures
        r == le_u64(b@, at as int),
{
    let len = b.len();
    assert(at + 8 <= len);
    b[at] as u64 + b[at + 1] as u64 * 0x100 + b[at + 2] as u64 * 0x1_0000 + b[at + 3] as u64
        * 0x100_0000 + b[at + 4] as u64 * 0x1_0000_0000 + b[at + 5] as u64 * 0x100_0000_0000
        + b[at + 6] as u64 * 0x1_0000_0000_0000 + b[at + 7] as u64 * 0x100_0000_0000_0000
}

/// Whether the first eight bytes of `b` are `magic`.
fn starts_with_magic(b: &Vec<u8>, magic: &[u8; 8]) -> (r: bool)
    requires
        b@.len() >= 8,
    ensures
        r == (b@.subrange(0, 8) == magic@),
{
    let mut i: usize = 0;
    while i < 8
        invariant
            i <= 8,
            b@.len() >= 8,
            forall|j: int| 0 <= j < i ==> b@[j] == magic@[j],
        decreases 8 - i,
    {
        if b[i] != magic[i] {
            assert(b@.subrange(0, 8)[i as int] != magic@[i as int]);
            return false;
        }
        i += 1;
    }
    assert(b@.subrange(0, 8) =~= magic@);
    true
}

/// Where the Ignition embed area lies, as its header declares it.
#[derive(Debug, Clone, Copy, PartialEq, Eq)]
pub struct IgnitionHeader {
    pub offset: u64,
    pub length: usize,
}

impl IgnitionHeader {
    /// Parses the 24-byte Ignition embed header of an image of `image_size`
    /// bytes: magic, then offset and length of the embed area, little-endian.
    /// Fails when the magic is wrong, when the length does not fit in memory,
    /// or when the area ends outside the image.
    pub fn parse(header: &Vec<u8>, image_size: u64) -> (r: Result<IgnitionHeader, Error>)
        requires
            header@.len() == IGNITION_HEADER_SIZE,
        ensures
            header@.subrange(0, 8) != ignition_magic() ==> r == Err::<IgnitionHeader, Error>(
                Error::UnrecognizedImage,
            ),
            header@.subrange(0, 8) == ignition_magic() && le_u64(header@, 16) > usize::MAX ==> r
                == Err::<IgnitionHeader, Error>(
                Error::IgnitionAreaTooLarge { declared: le_u64(header@, 16) as u64 },
            ),
            header@.subrange(0, 8) == ignition_magic() && le_u64(header@, 16) <= usize::MAX
                && le_u64(header@, 8) + le_u64(header@, 16) > image_size ==> r == Err::<
                IgnitionHeader,
                Error,
            >(
                Error::IgnitionOutside {
                    offset: le_u64(header@, 8) as u64,
                    length: le_u64(header@, 16) as u64,
                    size: image_size,
                },
            ),
            header@.subrange(0, 8) == ignition_magic() && le_u64(header@, 16) <= usize::MAX
                && le_u64(header@, 8) + le_u64(header@, 16) <= image_size ==> (r matches Ok(h)
                && h.offset == le_u64(header@, 8) && h.length == le_u64(header@, 16)),
    {
        assert(IGNITION_MAGIC@ == ignition_magic());
        if !starts_with_magic(header, &IGNITION_MAGIC) {
            return Err(Error::UnrecognizedImage);
        }
        let offset = read_u64_le(header, 8);
        let length = read_u64_le(header, 16);
        if length > usize::MAX as u64 {
            return Err(Error::IgnitionAreaTooLarge { declared: length });
        }
        if offset > image_size || length > image_size - offset {
            return Err(Error::IgnitionOutside { offset, length, size: image_size });
        }
        Ok(IgnitionHeader { offset, length: length as usize })
    }
}

/// The value in the `i`-th offset slot of the karg embed header.
pub open spec fn karg_slot(h: Seq<u8>, i: int) -> int {
    le_u64(h, 24 + 8 * i)
}

/// The karg area offsets that the header lists from slot `i` on: up to the
/// first zero slot, or up to the last slot.
pub open spec fn listed_offsets(h: Seq<u8>, i: int) -> Seq<u64>
    decreases KARG_MAX_OFFSETS - i,
{
    if i < 0 || i >= KARG_MAX_OFFSETS || karg_slot(h, i) == 0 {
        Seq::empty()
    } else {
        seq![karg_slot(h, i) as u64] + listed_offsets(h, i + 1)
    }
}

pub open spec fn sorted_u64(s: Seq<u64>) -> bool {
    forall|i: int, j: int| 0 <= i < j < s.len() ==> s[i] <= s[j]
}

/// `s` sorted ascending.
fn sort_offsets(s: &Vec<u64>) -> (r: Vec<u64>)
    ensures
        sorted_u64(r@),
        r@.to_multiset() == s@.to_multiset(),
{
    let mut r: Vec<u64> = Vec::new();
    let mut i: usize = 0;
    while i < s.len()
        invariant
            i <= s@.len(),
            sorted_u64(r@),
            r@.to_multiset() == s@.subrange(0, i as int).to_multiset(),
        decreases s@.len() - i,
    {
        let x = s[i];
        let mut pos: usize = 0;
        while pos < r.len() && r[pos] <= x
            invariant
                pos <= r@.len(),
                forall|j: int| 0 <= j < pos ==> r@[j] <= x,
            decreases r@.len() - pos,
        {
            pos += 1;
        }
        let ghost old_r = r@;
        r.insert(pos, x);
        proof {
            assert(r@.remove(pos as int) =~= old_r);
            assert(r@[pos as int] == x);
            assert(r@.to_multiset() =~= old_r.to_multiset().insert(x));
            assert(s@.subrange(0, i + 1) =~= s@.subrange(0, i as int).push(x));
            assert forall|a: int, b: int| 0 <= a < b < r@.len() implies r@[a] <= r@[b] by {
                if b < pos {
                } else if a < pos {
                    if b > pos {
                        assert(r@[b] == old_r[b - 1]);
                    }
                } else if a == pos {
                    assert(r@[b] == old_r[b - 1]);
                    assert(old_r[pos as int] <= old_r[b - 1] || b - 1 == pos);
                } else {
                    assert(r@[a] == old_r[a - 1] && r@[b] == old_r[b - 1]);
                }
            }
        }
        i += 1;
    }
    assert(s@.subrange(0, s@.len() as int) =~= s@);
    r
}

/// What the karg embed header declares: the capacity of each karg area, where
/// the default kargs lie, and where the redundant copies of the current kargs
/// lie, ascending.
#[derive(Debug, Clone, PartialEq, Eq)]
pub struct KargEmbedAreas {
    pub length: usize,
    pub default_kargs_offset: u64,
    pub kargs_offsets: Vec<u64>,
}

impl KargEmbedAreas {
    /// Every area lies inside an image of `size` bytes, there is at least one
    /// current-kargs area, and they are listed ascending.
    pub open spec fn wf(&self, size: int) -> bool {
        &&& self.length <= KARG_AREA_MAX_SIZE
        &&& self.default_kargs_offset + self.length <= size
        &&& 0 < self.kargs_offsets@.len() <= KARG_MAX_OFFSETS
        &&& forall|i: int| 0 <= i < self.kargs_offsets@.len() ==> #[trigger] self.kargs_offsets@[i]
            + self.length <= size
        &&& sorted_u64(self.kargs_offsets@)
    }

    /// No two current-kargs areas share a byte.
    pub open spec fn areas_disjoint(&self) -> bool {
        forall|i: int, j: int|
            0 <= i < j < self.kargs_offsets@.len() ==> #[trigger] self.kargs_offsets@[i] + self.length
                <= #[trigger] self.kargs_offsets@[j]
    }

    /// Whether the 8 bytes at the karg header's offset are its magic number,
    /// that is, whether the image has karg embed areas at all.
    pub fn exists_in(magic: &Vec<u8>) -> (r: bool)
        requires
            magic@.len() == 8,
        ensures
            r == (magic@ == karg_magic()),
    {
        assert(KARG_MAGIC@ == karg_magic());
        assert(magic@.subrange(0, 8) =~= magic@);
        starts_with_magic(magic, &KARG_MAGIC)
    }

    /// Parses the 72-byte karg embed header of an image of `image_size`
    /// bytes: magic, area length, default kargs offset, then up to six offsets
    /// ended by a zero, all little-endian. Fails when the magic is wrong, the
    /// length is above the maximum, an area ends outside the image, or no
    /// offset is listed.
    pub fn parse(header: &Vec<u8>, image_size: u64) -> (r: Result<KargEmbedAreas, Error>)
        requires
            header@.len() == KARG_HEADER_SIZE,
        ensures
            header@.subrange(0, 8) != karg_magic() ==> r == Err::<KargEmbedAreas, Error>(
                Error::NoKargAreas,
            ),
            header@.subrange(0, 8) == karg_magic() && le_u64(header@, 8) > KARG_AREA_MAX_SIZE ==> r
                == Err::<KargEmbedAreas, Error>(
                Error::KargAreaTooLarge {
                    max: KARG_AREA_MAX_SIZE,
                    declared: le_u64(header@, 8) as u64,
                },
            ),
            header@.subrange(0, 8) == karg_magic() && le_u64(header@, 8) <= KARG_AREA_MAX_SIZE
                && le_u64(header@, 16) + le_u64(header@, 8) > image_size ==> r == Err::<
                KargEmbedAreas,
                Error,
            >(
                Error::DefaultKargsOutside {
                    offset: le_u64(header@, 16) as u64,
                    length: le_u64(header@, 8) as u64,
                    size: image_size,
                },
            ),
            header@.subrange(0, 8) == karg_magic() && le_u64(header@, 8) <= KARG_AREA_MAX_SIZE
                && le_u64(header@, 16) + le_u64(header@, 8) <= image_size ==> {
                let listed = listed_offsets(header@, 0);
                let inside = forall|i: int|
                    0 <= i < listed.len() ==> #[trigger] listed[i] + le_u64(header@, 8) <= image_size;
                &&& !inside ==> (r matches Err(Error::KargsOutside { offset, length, size })
                    && length == le_u64(header@, 8) && size == image_size && exists|i: int|
                    0 <= i < listed.len() && #[trigger] listed[i] == offset && offset + length
                        > image_size)
                &&& inside && listed.len() == 0 ==> r == Err::<KargEmbedAreas, Error>(
                    Error::NoKargOffsets,
                )
                &&& inside && listed.len() > 0 ==> (r matches Ok(a) && a.length == le_u64(header@, 8)
                    && a.default_kargs_offset == le_u64(header@, 16)
                    && a.kargs_offsets@.to_multiset() == listed.to_multiset())
            },
            r matches Ok(a) ==> a.wf(image_size as int),
    {
        assert(KARG_MAGIC@ == karg_magic());
        if !starts_with_magic(header, &KARG_MAGIC) {
            return Err(Error::NoKargAreas);
        }
        let declared = read_u64_le(header, 8);
        if declared > KARG_AREA_MAX_SIZE as u64 {
            return Err(Error::KargAreaTooLarge { max: KARG_AREA_MAX_SIZE, declared });
        }
        let length = declared as usize;
        let default_kargs_offset = read_u64_le(header, 16);
        if default_kargs_offset > image_size || declared > image_size - default_kargs_offset {
            return Err(
                Error::DefaultKargsOutside {
                    offset: default_kargs_offset,
                    length: declared,
                    size: image_size,
                },
            );
        }
        let ghost listed = listed_offsets(header@, 0);
        let mut found: Vec<u64> = Vec::new();
        let mut i: usize = 0;
        let mut done = false;
        while i < KARG_MAX_OFFSETS && !done
            invariant
                header@.len() == KARG_HEADER_SIZE,
                header@.subrange(0, 8) == karg_magic(),
                declared == le_u64(header@, 8),
                declared <= KARG_AREA_MAX_SIZE,
                default_kargs_offset == le_u64(header@, 16),
                default_kargs_offset + declared <= image_size,
                listed == listed_offsets(header@, 0),
                i <= KARG_MAX_OFFSETS,
                found@.len() == i,
                done ==> listed_offsets(header@, i as int).len() == 0,
                found@ + listed_offsets(header@, i as int) == listed,
                forall|j: int| 0 <= j < found@.len() ==> #[trigger] found@[j] + declared <= image_size,
            decreases KARG_MAX_OFFSETS - i + (if done { 0int } else { 1int }),
        {
            let offset = read_u64_le(header, 24 + 8 * i);
            assert(offset == karg_slot(header@, i as int));
            if offset == 0 {
                done = true;
            } else {
                assert(listed_offsets(header@, i as int) == seq![offset] + listed_offsets(header@, i + 1));
                if offset > image_size || declared > image_size - offset {
                    proof {
                        assert(listed[i as int] == offset);
                        assert(listed[i as int] + le_u64(header@, 8) > image_size);
                    }
                    return Err(Error::KargsOutside { offset, length: declared, size: image_size });
                }
                found.push(offset);
                assert(found@ + listed_offsets(header@, i + 1) =~= listed);
                i += 1;
            }
        }
        assert(listed_offsets(header@, i as int).len() == 0);
        assert(found@ =~= listed);
        if found.len() == 0 {
            return Err(Error::NoKargOffsets);
        }
        let kargs_offsets = sort_offsets(&found);
        proof {
            assert(kargs_offsets@.len() == kargs_offsets@.to_multiset().len());
            assert(found@.len() == found@.to_multiset().len());
            assert forall|j: int| 0 <= j < kargs_offsets@.len() implies #[trigger] kargs_offsets@[j]
                + length <= image_size by {
                let x = kargs_offsets@[j];
                assert(kargs_offsets@.to_multiset().count(x) > 0);
                assert(found@.contains(x));
            }
        }
        Ok(KargEmbedAreas { length, default_kargs_offset, kargs_offsets })
    }
}

} // verus!
