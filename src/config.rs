use vstd::prelude::*;
use vstd::string::*;

use crate::archive::{extract_cpio, extracted, search_result};
use crate::error::Error;
use crate::header::KargEmbedAreas;
use crate::kargs::{formatted_area, formatted_len, lemma_formatted_area_len, saturated};
use crate::region::{write_regions, Region};
use crate::stream::{all_disjoint, all_inside, all_valid, disjoint, stream_output, StreamPlan};

verus! {

/// The embeddable state of one image: its Ignition embed area and, where the
/// image has karg embed areas, its current and default kargs.
#[derive(Debug)]
pub struct IsoConfig {
    pub ignition: Region,
    pub kargs_current: Option<String>,
    pub kargs_default: Option<String>,
    /// Whether the current kargs were replaced since the image was read.
    pub kargs_touched: bool,
}

/// `n` zero bytes.
pub open spec fn zeros(n: nat) -> Seq<u8> {
    Seq::new(n, |_i: int| 0u8)
}

/// Where a rewritten image goes.
#[derive(Debug, Clone, Copy, PartialEq, Eq)]
pub enum OutputMode {
    /// No destination: the image is rewritten in place.
    InPlace,
    /// The destination `-`: the rewritten image is streamed to standard
    /// output and the source is left as it is.
    Stdout,
    /// A path: the image is copied to a new file there and rewritten.
    NewFile,
}

/// Chooses where a rewritten image goes from the destination given, if any.
pub fn output_mode(output: Option<&str>) -> (r: OutputMode)
    ensures
        output is None ==> r == OutputMode::InPlace,
        output is Some && output->Some_0@ == seq!['-'] ==> r == OutputMode::Stdout,
        output is Some && output->Some_0@ != seq!['-'] ==> r == OutputMode::NewFile,
{
    match output {
        None => OutputMode::InPlace,
        Some(path) => {
            if path.unicode_len() == 1 && path.get_char(0) == '-' {
                assert(path@ =~= seq!['-']);
                OutputMode::Stdout
            } else {
                OutputMode::NewFile
            }
        },
    }
}

/// From index `shift` on, the regions lie at `offsets` (shifted by `shift`)
/// and hold `contents`, which fill them.
pub open spec fn regions_hold(rs: Seq<Region>, offsets: Seq<u64>, contents: Seq<u8>, shift: int) -> bool {
    forall|i: int|
        shift <= i < rs.len() ==> #[trigger] rs[i].offset == offsets[i - shift] && rs[i].contents@
            == contents && rs[i].length == contents.len() && rs[i].valid()
}

impl IsoConfig {
    pub open spec fn wf(&self) -> bool {
        self.ignition.valid()
    }

    /// Whether the Ignition embed area holds a config, that is, any non-zero
    /// byte.
    pub open spec fn spec_have_ignition(&self) -> bool {
        exists|i: int| 0 <= i < self.ignition.contents@.len() && #[trigger] self.ignition.contents@[i] != 0
    }

    /// Assembles the state read from an image: the Ignition embed area, and
    /// the current and default kargs where the image has karg areas.
    pub fn new(ignition: Region, kargs_current: Option<String>, kargs_default: Option<String>) -> (r: IsoConfig)
        requires
            ignition.valid(),
        ensures
            r.wf(),
            r.ignition == ignition,
            r.kargs_current == kargs_current,
            r.kargs_default == kargs_default,
            !r.kargs_touched,
    {
        IsoConfig { ignition, kargs_current, kargs_default, kargs_touched: false }
    }

    pub fn have_ignition(&self) -> (r: bool)
        ensures
            r == self.spec_have_ignition(),
    {
        let c = &self.ignition.contents;
        let mut i: usize = 0;
        while i < c.len()
            invariant
                i <= c@.len(),
                c == &self.ignition.contents,
                forall|j: int| 0 <= j < i ==> c@[j] == 0,
            decreases c@.len() - i,
        {
            if c[i] != 0 {
                return true;
            }
            i += 1;
        }
        false
    }

    /// The bytes of the Ignition embed area.
    pub fn ignition(&self) -> (r: &[u8])
        ensures
            r@ == self.ignition.contents@,
    {
        self.ignition.contents.as_slice()
    }

    /// Stores `data` in the Ignition embed area, zero-padded to the area's
    /// capacity. Fails, changing nothing, when `data` is larger than the
    /// capacity.
    pub fn set_ignition(&mut self, data: &[u8]) -> (r: Result<(), Error>)
        ensures
            data@.len() > old(self).ignition.length ==> r == Err::<(), Error>(
                Error::IgnitionTooLarge {
                    needed: data@.len() as usize,
                    capacity: old(self).ignition.length,
                },
            ) && *final(self) == *old(self),
            data@.len() <= old(self).ignition.length ==> r is Ok && final(self).ignition.contents@
                == data@ + zeros((old(self).ignition.length - data@.len()) as nat)
                && final(self).ignition.offset == old(self).ignition.offset
                && final(self).ignition.length == old(self).ignition.length
                && final(self).kargs_current == old(self).kargs_current
                && final(self).kargs_default == old(self).kargs_default
                && final(self).kargs_touched == old(self).kargs_touched,
            final(self).wf() || data@.len() > old(self).ignition.length,
    {
        let capacity = self.ignition.length;
        if data.len() > capacity {
            return Err(Error::IgnitionTooLarge { needed: data.len(), capacity });
        }
        let mut contents: Vec<u8> = Vec::new();
        let mut i: usize = 0;
        while i < data.len()
            invariant
                i <= data@.len(),
                contents@ == data@.subrange(0, i as int),
            decreases data@.len() - i,
        {
            contents.push(data[i]);
            i += 1;
            assert(contents@ =~= data@.subrange(0, i as int));
        }
        assert(data@.subrange(0, data@.len() as int) =~= data@);
        while contents.len() < capacity
            invariant
                data@.len() <= contents@.len() <= capacity,
                contents@ == data@ + zeros((contents@.len() - data@.len()) as nat),
            decreases capacity - contents@.len(),
        {
            contents.push(0);
            assert(contents@ =~= data@ + zeros((contents@.len() - data@.len()) as nat));
        }
        self.ignition.contents = contents;
        Ok(())
    }

    /// Puts an archived Ignition config into the image, unless the image
    /// already holds one and `force` is not set; then nothing changes.
    pub fn embed_ignition(&mut self, force: bool, archive: &[u8]) -> (r: Result<(), Error>)
        ensures
            !force && old(self).spec_have_ignition() ==> r == Err::<(), Error>(Error::AlreadyEmbedded)
                && *final(self) == *old(self),
            force || !old(self).spec_have_ignition() ==> {
                &&& archive@.len() > old(self).ignition.length ==> r == Err::<(), Error>(
                    Error::IgnitionTooLarge {
                        needed: archive@.len() as usize,
                        capacity: old(self).ignition.length,
                    },
                ) && *final(self) == *old(self)
                &&& archive@.len() <= old(self).ignition.length ==> r is Ok
                    && final(self).ignition.contents@ == archive@ + zeros(
                    (old(self).ignition.length - archive@.len()) as nat,
                ) && final(self).ignition.offset == old(self).ignition.offset
                    && final(self).ignition.length == old(self).ignition.length
                    && final(self).kargs_current == old(self).kargs_current
                    && final(self).kargs_default == old(self).kargs_default
                    && final(self).kargs_touched == old(self).kargs_touched
            },
    {
        if !force && self.have_ignition() {
            return Err(Error::AlreadyEmbedded);
        }
        self.set_ignition(archive)
    }

    /// The Ignition config that the image holds, taken out of its archive.
    /// Fails when the embed area is empty.
    pub fn ignition_config(&self) -> (r: Result<Vec<u8>, Error>)
        ensures
            !self.spec_have_ignition() ==> r == Err::<Vec<u8>, Error>(Error::NoIgnition),
            self.spec_have_ignition() ==> search_result(extracted(self.ignition.contents@), r),
    {
        if !self.have_ignition() {
            return Err(Error::NoIgnition);
        }
        extract_cpio(self.ignition())
    }

    /// The kargs held, or the error for an image without karg areas.
    pub fn unwrap_kargs(kargs: &Option<String>) -> (r: Result<&str, Error>)
        ensures
            kargs is None ==> r == Err::<&str, Error>(Error::NoKargAreas),
            kargs matches Some(s) ==> (r matches Ok(t) && t@ == s@),
    {
        match kargs {
            Some(s) => Ok(s.as_str()),
            None => Err(Error::NoKargAreas),
        }
    }

    /// The current kargs.
    pub fn kargs(&self) -> (r: Result<&str, Error>)
        ensures
            self.kargs_current is None ==> r == Err::<&str, Error>(Error::NoKargAreas),
            self.kargs_current matches Some(s) ==> (r matches Ok(t) && t@ == s@),
    {
        Self::unwrap_kargs(&self.kargs_current)
    }

    /// The default kargs.
    pub fn kargs_default(&self) -> (r: Result<&str, Error>)
        ensures
            self.kargs_default is None ==> r == Err::<&str, Error>(Error::NoKargAreas),
            self.kargs_default matches Some(s) ==> (r matches Ok(t) && t@ == s@),
    {
        Self::unwrap_kargs(&self.kargs_default)
    }

    /// Replaces the current kargs, in memory only. Fails, changing nothing,
    /// on an image without karg areas.
    pub fn set_kargs(&mut self, kargs: &str) -> (r: Result<(), Error>)
        ensures
            old(self).kargs_default is None ==> r == Err::<(), Error>(Error::NoKargAreas)
                && *final(self) == *old(self),
            old(self).kargs_default is Some ==> r is Ok && final(self).ignition == old(self).ignition
                && final(self).kargs_default == old(self).kargs_default
                && final(self).kargs_touched
                && (final(self).kargs_current matches Some(s) && s@ == kargs@),
    {
        match Self::unwrap_kargs(&self.kargs_default) {
            Ok(_) => {},
            Err(e) => {
                return Err(e);
            },
        }
        self.kargs_current = Some(String::from_str(kargs));
        self.kargs_touched = true;
        Ok(())
    }

    /// The regions to write back in place: the Ignition embed area, then,
    /// where the kargs were replaced, every current-kargs area holding them.
    /// `areas` is the image's karg embed header, where it has one.
    pub fn write(&self, areas: &Option<KargEmbedAreas>) -> (r: Result<Vec<Region>, Error>)
        ensures
            r matches Ok(rs) ==> rs@.len() >= 1 && rs@[0].offset == self.ignition.offset
                && rs@[0].length == self.ignition.length && rs@[0].contents@
                == self.ignition.contents@,
            !self.kargs_touched || self.kargs_current is None ==> (r matches Ok(rs) && rs@.len()
                == 1),
            self.kargs_touched && self.kargs_current is Some && areas is None ==> r == Err::<
                Vec<Region>,
                Error,
            >(Error::NoKargAreas),
            self.kargs_touched && self.kargs_current is Some && areas is Some ==> {
                let k = self.kargs_current->Some_0;
                let a = areas->Some_0;
                &&& formatted_len(k@) > a.length ==> r == Err::<Vec<Region>, Error>(
                    Error::KargsTooLarge { needed: saturated(formatted_len(k@)), capacity: a.length },
                )
                &&& formatted_len(k@) <= a.length ==> (r matches Ok(rs) && rs@.len() == 1
                    + a.kargs_offsets@.len() && regions_hold(
                    rs@,
                    a.kargs_offsets@,
                    formatted_area(k@, a.length as nat),
                    1,
                ))
            },
    {
        let ign = Region {
            offset: self.ignition.offset,
            length: self.ignition.length,
            contents: self.ignition.contents.clone(),
        };
        let mut rs: Vec<Region> = Vec::new();
        rs.push(ign);
        if !self.kargs_touched {
            return Ok(rs);
        }
        match &self.kargs_current {
            None => Ok(rs),
            Some(k) => match areas {
                None => Err(Error::NoKargAreas),
                Some(a) => {
                    let ks = k.as_str();
                    assert(ks@ == k@);
                    let karg_rs = match a.karg_regions(ks) {
                        Ok(v) => v,
                        Err(e) => {
                            return Err(e);
                        },
                    };
                    assert(karg_rs@.len() == a.kargs_offsets@.len());
                    let mut i: usize = 0;
                    while i < karg_rs.len()
                        invariant
                            i <= karg_rs@.len(),
                            rs@.len() == 1 + i,
                            rs@[0].offset == self.ignition.offset,
                            rs@[0].length == self.ignition.length,
                            rs@[0].contents@ == self.ignition.contents@,
                            forall|j: int| 1 <= j < rs@.len() ==> #[trigger] rs@[j].offset == karg_rs@[j - 1].offset
                                && rs@[j].contents@ == karg_rs@[j - 1].contents@
                                && rs@[j].length == karg_rs@[j - 1].length,
                        decreases karg_rs@.len() - i,
                    {
                        let r = &karg_rs[i];
                        let copy = Region { offset: r.offset, length: r.length, contents: r.contents.clone() };
                        let ghost before = rs@;
                        rs.push(copy);
                        assert forall|j: int| 0 <= j < before.len() implies rs@[j] == before[j] by {}
                        assert(rs@[i + 1].offset == karg_rs@[i as int].offset);
                        assert(rs@[i + 1].length == karg_rs@[i as int].length);
                        assert(rs@[i + 1].contents@ == karg_rs@[i as int].contents@);
                        i += 1;
                    }
                    let ghost fa = formatted_area(k@, a.length as nat);
                    proof {
                        lemma_formatted_area_len(k@, a.length as nat);
                    }
                    assert forall|j: int| 1 <= j < rs@.len() implies #[trigger] rs@[j].offset
                        == a.kargs_offsets@[j - 1] && rs@[j].contents@ == fa && rs@[j].length
                        == fa.len() && rs@[j].valid() by {
                        assert(rs@[j].offset == karg_rs@[j - 1].offset);
                        assert(karg_rs@[j - 1].offset == a.kargs_offsets@[j - 1]);
                    }
                    assert(regions_hold(rs@, a.kargs_offsets@, fa, 1));
                    Ok(rs)
                },
            },
        }
    }

    /// The plan that re-emits the image with its Ignition embed area as held
    /// here.
    pub fn stream_ignition(&self) -> (r: Result<StreamPlan, Error>)
        requires
            self.wf(),
        ensures
            self.ignition.end() > u64::MAX ==> (r matches Err(e) && e is RegionEnd),
            self.ignition.end() <= u64::MAX ==> (r matches Ok(p) && p.regions@.len() == 1
                && p.regions@[0].offset == self.ignition.offset
                && p.regions@[0].length == self.ignition.length
                && p.regions@[0].contents@ == self.ignition.contents@),
            r matches Ok(p) ==> forall|src: Seq<u8>| all_inside(p.regions@, src.len() as int)
                ==> #[trigger] stream_output(p.steps@, p.regions@, src) == write_regions(
                src,
                p.regions@,
            ),
    {
        let ign = Region {
            offset: self.ignition.offset,
            length: self.ignition.length,
            contents: self.ignition.contents.clone(),
        };
        let mut rs: Vec<Region> = Vec::new();
        rs.push(ign);
        assert(all_valid(rs@));
        assert(all_disjoint(rs@));
        assert(rs@[0].end() == self.ignition.end());
        StreamPlan::new(rs)
    }

    /// The plan that re-emits the image with every current-kargs area
    /// holding the current kargs. Fails on an image without karg areas, when
    /// the kargs do not fit in an area, and when two areas overlap.
    pub fn stream_kargs(&self, areas: &KargEmbedAreas) -> (r: Result<StreamPlan, Error>)
        requires
            areas.wf(u64::MAX as int),
        ensures
            self.kargs_current is None ==> r == Err::<StreamPlan, Error>(Error::NoKargAreas),
            self.kargs_current is Some ==> {
                let k = self.kargs_current->Some_0;
                &&& formatted_len(k@) > areas.length ==> r == Err::<StreamPlan, Error>(
                    Error::KargsTooLarge {
                        needed: saturated(formatted_len(k@)),
                        capacity: areas.length,
                    },
                )
                &&& formatted_len(k@) <= areas.length && !areas.areas_disjoint() ==> (r matches Err(e)
                    && e is RegionOrder)
                &&& formatted_len(k@) <= areas.length && areas.areas_disjoint() ==> (r matches Ok(p)
                    && p.regions@.len() == areas.kargs_offsets@.len() && regions_hold(
                    p.regions@,
                    areas.kargs_offsets@,
                    formatted_area(k@, areas.length as nat),
                    0,
                ))
            },
            r matches Ok(p) ==> forall|src: Seq<u8>| all_inside(p.regions@, src.len() as int)
                ==> #[trigger] stream_output(p.steps@, p.regions@, src) == write_regions(
                src,
                p.regions@,
            ),
    {
        match &self.kargs_current {
            None => Err(Error::NoKargAreas),
            Some(k) => {
                let ks = k.as_str();
                assert(ks@ == k@);
                let rs = match areas.karg_regions(ks) {
                    Ok(v) => v,
                    Err(e) => {
                        return Err(e);
                    },
                };
                proof {
                    assert forall|i: int| 0 <= i < rs@.len() implies #[trigger] rs@[i].valid() by {
                        assert(rs@[i].offset == areas.kargs_offsets@[i]);
                    }
                    assert forall|i: int| 0 <= i < rs@.len() implies #[trigger] rs@[i].end() <= u64::MAX by {
                        assert(areas.kargs_offsets@[i] + areas.length <= u64::MAX);
                    }
                    if areas.areas_disjoint() {
                        assert forall|i: int, j: int| 0 <= i < j < rs@.len() implies disjoint(
                            #[trigger] rs@[i],
                            #[trigger] rs@[j],
                        ) by {
                            assert(areas.kargs_offsets@[i] + areas.length <= areas.kargs_offsets@[j]);
                        }
                    } else {
                        let (i, j) = choose|i: int, j: int| 0 <= i < j < areas.kargs_offsets@.len()
                            && areas.kargs_offsets@[i] + areas.length > areas.kargs_offsets@[j];
                        assert(areas.kargs_offsets@[i] <= areas.kargs_offsets@[j]);
                        assert(!disjoint(rs@[i], rs@[j]));
                    }
                }
                assert(regions_hold(rs@, areas.kargs_offsets@, formatted_area(k@, areas.length as nat), 0));
                StreamPlan::new(rs)
            },
        }
    }
}

} // verus!
