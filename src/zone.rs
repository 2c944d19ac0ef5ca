use vstd::prelude::*;

verus! {

/// A configuration value that cannot be used, reported before any scanning.
#[derive(Debug, Clone, Copy, PartialEq, Eq, Structural)]
pub enum ConfigError {
    /// The zone's upper bound is not above its lower bound on some axis.
    EmptyZone,
    /// A zone is given by exactly four coordinates.
    WrongZoneLength,
}

/// A rectangle of region coordinates, half-open on the upper bounds.
#[derive(Debug, Clone, Copy, PartialEq, Eq, Structural)]
pub struct Zone {
    pub from_x: isize,
    pub to_x: isize,
    pub from_z: isize,
    pub to_z: isize,
}

impl Zone {
    /// Both extents are positive.
    pub open spec fn wf(&self) -> bool {
        self.to_x > self.from_x && self.to_z > self.from_z
    }

    pub open spec fn width(&self) -> int {
        self.to_x - self.from_x
    }

    pub open spec fn depth(&self) -> int {
        self.to_z - self.from_z
    }

    /// Number of regions in the zone.
    pub open spec fn spec_size(&self) -> int {
        self.width() * self.depth()
    }

    /// The `i`-th region coordinate of the zone, x changing slowest.
    pub open spec fn coord_at(&self, i: int) -> (isize, isize) {
        ((self.from_x + i / self.depth()) as isize, (self.from_z + i % self.depth()) as isize)
    }

    /// Builds a zone, rejecting a zero or negative extent on either axis.
    pub fn new(from_x: isize, to_x: isize, from_z: isize, to_z: isize) -> (r: Result<Zone, ConfigError>)
        ensures
            (to_x > from_x && to_z > from_z) ==> r == Ok::<Zone, ConfigError>(
                Zone { from_x, to_x, from_z, to_z },
            ),
            !(to_x > from_x && to_z > from_z) ==> r == Err::<Zone, ConfigError>(
                ConfigError::EmptyZone,
            ),
    {
        if to_x <= from_x || to_z <= from_z {
            Err(ConfigError::EmptyZone)
        } else {
            Ok(Zone { from_x, to_x, from_z, to_z })
        }
    }

    /// Builds a zone from `[from_x, to_x, from_z, to_z]`.
    pub fn from_coords(coords: &Vec<isize>) -> (r: Result<Zone, ConfigError>)
        ensures
            coords.len() != 4 ==> r == Err::<Zone, ConfigError>(ConfigError::WrongZoneLength),
            coords.len() == 4 && coords[1] > coords[0] && coords[3] > coords[2] ==> r == Ok::<
                Zone,
                ConfigError,
            >(Zone { from_x: coords[0], to_x: coords[1], from_z: coords[2], to_z: coords[3] }),
            coords.len() == 4 && !(coords[1] > coords[0] && coords[3] > coords[2]) ==> r == Err::<
                Zone,
                ConfigError,
            >(ConfigError::EmptyZone),
    {
        if coords.len() != 4 {
            return Err(ConfigError::WrongZoneLength);
        }
        Zone::new(coords[0], coords[1], coords[2], coords[3])
    }

    /// Number of regions in the zone.
    pub fn size(&self) -> (r: usize)
        requires
            self.wf(),
            self.spec_size() <= usize::MAX,
        ensures
            r == self.spec_size(),
    {
        let w = (self.to_x as i128 - self.from_x as i128) as usize;
        let d = (self.to_z as i128 - self.from_z as i128) as usize;
        assert(w * d == self.spec_size());
        assert(w <= w * d) by (nonlinear_arith)
            requires
                d >= 1,
        ;
        w * d
    }
}

/// Every region coordinate of the zone, x changing slowest and z fastest.
pub fn region_coords(zone: &Zone) -> (r: Vec<(isize, isize)>)
    requires
        zone.wf(),
        zone.spec_size() <= usize::MAX,
    ensures
        r.len() == zone.spec_size(),
        forall|i: int| 0 <= i < r.len() ==> #[trigger] r[i] == zone.coord_at(i),
{
    let mut r: Vec<(isize, isize)> = Vec::new();
    let mut x: isize = zone.from_x;
    while x < zone.to_x
        invariant
            zone.wf(),
            zone.from_x <= x <= zone.to_x,
            r.len() == (x - zone.from_x) * zone.depth(),
            forall|i: int| 0 <= i < r.len() ==> #[trigger] r[i] == zone.coord_at(i),
        decreases zone.to_x - x,
    {
        let mut z: isize = zone.from_z;
        while z < zone.to_z
            invariant
                zone.wf(),
                zone.from_x <= x < zone.to_x,
                zone.from_z <= z <= zone.to_z,
                r.len() == (x - zone.from_x) * zone.depth() + (z - zone.from_z),
                forall|i: int| 0 <= i < r.len() ==> #[trigger] r[i] == zone.coord_at(i),
            decreases zone.to_z - z,
        {
            let ghost k = r.len() as int;
            proof {
                let q = x - zone.from_x;
                let d = zone.depth();
                let m = z - zone.from_z;
                assert(k == q * d + m);
                assert(k / d == q && k % d == m) by (nonlinear_arith)
                    requires
                        k == q * d + m,
                        0 <= m < d,
                        q >= 0,
                ;
            }
            r.push((x, z));
            z = z + 1;
        }
        proof {
            let q = x - zone.from_x;
            let d = zone.depth();
            assert((q + 1) * d == q * d + d) by (nonlinear_arith);
        }
        x = x + 1;
    }
    r
}

} // verus!
