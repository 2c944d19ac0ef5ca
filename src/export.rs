use vstd::prelude::*;

use crate::chunk::RegionVersion;

verus! {

/// The highest level that a distribution string can hold.
pub const MAX_JER_LEVEL: isize = 255;

/// How far levels are shifted on export so that the lowest level of a world
/// is exported as 0.
pub open spec fn offset_of(version: RegionVersion) -> int {
    match version {
        RegionVersion::Pre118 => 0,
        RegionVersion::AtLeast118 => 64,
    }
}

pub open spec fn seq_min(s: Seq<isize>) -> int
    decreases s.len(),
{
    if s.len() <= 1 {
        s[0] as int
    } else if s.last() < seq_min(s.drop_last()) {
        s.last() as int
    } else {
        seq_min(s.drop_last())
    }
}

pub open spec fn seq_max(s: Seq<isize>) -> int
    decreases s.len(),
{
    if s.len() <= 1 {
        s[0] as int
    } else if s.last() > seq_max(s.drop_last()) {
        s.last() as int
    } else {
        seq_max(s.drop_last())
    }
}

/// The export shift for a world format.
pub fn level_offset(version: RegionVersion) -> (r: isize)
    ensures
        r == offset_of(version),
{
    match version {
        RegionVersion::Pre118 => 0,
        RegionVersion::AtLeast118 => 64,
    }
}

/// The lowest and the highest of a non-empty list of levels.
pub fn level_span(levels: &Vec<isize>) -> (r: (isize, isize))
    requires
        levels.len() > 0,
    ensures
        r.0 == seq_min(levels@),
        r.1 == seq_max(levels@),
        forall|i: int| 0 <= i < levels.len() ==> r.0 <= #[trigger] levels@[i] <= r.1,
{
    let mut lo = levels[0];
    let mut hi = levels[0];
    let mut i: usize = 1;
    assert(levels@.take(1).drop_last() =~= Seq::<isize>::empty());
    while i < levels.len()
        invariant
            1 <= i <= levels.len(),
            lo == seq_min(levels@.take(i as int)),
            hi == seq_max(levels@.take(i as int)),
            forall|j: int| 0 <= j < i ==> lo <= #[trigger] levels@[j] <= hi,
        decreases levels.len() - i,
    {
        let v = levels[i];
        assert(levels@.take(i + 1).drop_last() =~= levels@.take(i as int));
        if v < lo {
            lo = v;
        }
        if v > hi {
            hi = v;
        }
        i = i + 1;
    }
    assert(levels@.take(levels.len() as int) =~= levels@);
    (lo, hi)
}

/// What a distribution string covers for one block kind: each exported
/// level as `(level, level + offset)`, and whether some observed level lay
/// outside what the format can hold.
pub struct JerPlan {
    pub levels: Vec<(isize, u16)>,
    pub out_of_range: bool,
}

/// Plans the distribution string of a block kind observed at `observed`
/// levels. It runs from the world's lowest level, `-offset`, to the highest
/// observed level or 255, whichever is lower; each level is exported shifted
/// up by the offset. Observed levels below `-offset` or above 255 are left
/// out, and `out_of_range` tells of them.
pub fn jer_plan(observed: &Vec<isize>, version: RegionVersion) -> (r: JerPlan)
    requires
        observed.len() > 0,
    ensures
        r.out_of_range == (seq_min(observed@) < -offset_of(version) || seq_max(observed@)
            > MAX_JER_LEVEL),
        r.levels.len() == if seq_max(observed@) < -offset_of(version) {
            0
        } else if seq_max(observed@) > MAX_JER_LEVEL {
            MAX_JER_LEVEL + offset_of(version) + 1
        } else {
            seq_max(observed@) + offset_of(version) + 1
        },
        forall|i: int|
            0 <= i < r.levels.len() ==> #[trigger] r.levels@[i] == ((i - offset_of(version)) as isize, i as u16),
{
    let offset = level_offset(version);
    let depth_limit: isize = -offset;
    let (min_y, max_y) = level_span(observed);
    let top = if max_y < MAX_JER_LEVEL {
        max_y
    } else {
        MAX_JER_LEVEL
    };
    let mut levels: Vec<(isize, u16)> = Vec::new();
    if top >= depth_limit {
        let mut y: isize = depth_limit;
        while y <= top
            invariant
                depth_limit == -offset,
                0 <= offset <= 64,
                depth_limit <= y <= top + 1,
                top <= MAX_JER_LEVEL,
                levels.len() == y - depth_limit,
                forall|i: int|
                    0 <= i < levels.len() ==> #[trigger] levels@[i] == ((i - offset) as isize, i as u16),
            decreases top + 1 - y,
        {
            levels.push((y, (y + offset) as u16));
            y = y + 1;
        }
    }
    JerPlan { levels, out_of_range: min_y < depth_limit || max_y > MAX_JER_LEVEL }
}

/// The dimensions that have already been told that some of their levels were
/// left out of an export.
pub struct ExportNotices {
    pub warned: Vec<String>,
}

impl ExportNotices {
    pub open spec fn has(&self, dimension: Seq<char>) -> bool {
        exists|i: int| 0 <= i < self.warned.len() && #[trigger] self.warned@[i]@ == dimension
    }

    pub fn new() -> (r: ExportNotices)
        ensures
            forall|d: Seq<char>| !r.has(d),
    {
        ExportNotices { warned: Vec::new() }
    }

    /// Records a notice for `dimension`; true the first time for it.
    pub fn first_notice(&mut self, dimension: &str) -> (r: bool)
        ensures
            r == !old(self).has(dimension@),
            forall|d: Seq<char>| #[trigger] final(self).has(d) <==> old(self).has(d) || d == dimension@,
    {
        let key = dimension.to_owned();
        assert(key@ == dimension@);
        let mut i: usize = 0;
        while i < self.warned.len()
            invariant
                i <= self.warned.len(),
                self.warned == old(self).warned,
                key@ == dimension@,
                forall|j: int| 0 <= j < i ==> #[trigger] self.warned@[j]@ != dimension@,
            decreases self.warned.len() - i,
        {
            if self.warned[i] == key {
                assert(self.warned@[i as int]@ == dimension@);
                return false;
            }
            assert(self.warned@[i as int]@ != key@);
            i = i + 1;
        }
        let ghost before = self.warned@;
        self.warned.push(key);
        assert forall|d: Seq<char>| #[trigger] self.has(d) <==> old(self).has(d) || d == dimension@ by {
            if old(self).has(d) {
                let j = choose|j: int| 0 <= j < before.len() && #[trigger] before[j]@ == d;
                assert(self.warned@[j] == before[j]);
            }
            if self.has(d) && d != dimension@ {
                let j = choose|j: int| 0 <= j < self.warned.len() && #[trigger] self.warned@[j]@ == d;
                assert(self.warned@[j] == before[j]);
            }
            if d == dimension@ {
                assert(self.warned@[before.len() as int]@ == d);
            }
        }
        true
    }
}

/// One record of a distribution export: a block kind, its distribution
/// string, and its dimension.
pub struct BlockJERDistributionData {
    pub block: String,
    pub distrib: String,
    pub silktouch: bool,
    pub dim: String,
}

impl BlockJERDistributionData {
    /// A record for blocks that are not mined with silk touch.
    pub fn new(block: String, distrib: String, dim: String) -> (r: BlockJERDistributionData)
        ensures
            r.block == block,
            r.distrib == distrib,
            r.dim == dim,
            !r.silktouch,
    {
        BlockJERDistributionData { block, distrib, silktouch: false, dim }
    }
}

/// How the scan of one dimension ended.
#[derive(Debug, Clone, Copy, PartialEq, Eq, Structural)]
pub enum DimensionOutcome {
    /// No region of the zone could be loaded.
    NoRegionsPresent,
    /// Regions were loaded, but none held a chunk that was counted.
    NoChunksFound,
    /// Some chunk was counted.
    Scanned,
}

/// Classifies a dimension's scan by how many regions loaded and how many
/// chunks were counted in them.
pub fn dimension_outcome(regions_loaded: usize, chunks_counted: usize) -> (r: DimensionOutcome)
    ensures
        regions_loaded == 0 ==> r == DimensionOutcome::NoRegionsPresent,
        regions_loaded > 0 && chunks_counted == 0 ==> r == DimensionOutcome::NoChunksFound,
        regions_loaded > 0 && chunks_counted > 0 ==> r == DimensionOutcome::Scanned,
{
    if regions_loaded == 0 {
        DimensionOutcome::NoRegionsPresent
    } else if chunks_counted == 0 {
        DimensionOutcome::NoChunksFound
    } else {
        DimensionOutcome::Scanned
    }
}

} // verus!
