use crate::constants;
use vstd::prelude::*;

verus! {

/// `side` is the least number whose square is at least `count`: the side of
/// the smallest square lattice that has room for `count` particles.
pub open spec fn is_side(side: nat, count: nat) -> bool {
    count <= side * side && (side == 0 || (side - 1) * (side - 1) < count)
}

/// The side of the smallest square lattice with room for `count` particles.
pub open spec fn lattice_side(count: nat) -> nat {
    choose|side: nat| is_side(side, count)
}

/// There is one side for each count.
pub proof fn lemma_side_unique(side: nat, count: nat)
    requires
        is_side(side, count),
    ensures
        lattice_side(count) == side,
        count > 0 ==> side > 0,
{
    let other = lattice_side(count);
    if other < side {
        assert(other * other <= (side - 1) * (side - 1)) by (nonlinear_arith)
            requires
                0 <= other <= side - 1,
        ;
    }
    if side < other {
        assert(side * side <= (other - 1) * (other - 1)) by (nonlinear_arith)
            requires
                0 <= side <= other - 1,
        ;
    }
}

/// An upper bound on the number of places that one particle of the given
/// radius takes from the others: the places closer to its centre than twice
/// the radius all lie in a square of this many.
pub open spec fn blocked(radius: nat) -> nat {
    if radius == 0 {
        0
    } else {
        ((4 * radius - 1) * (4 * radius - 1)) as nat
    }
}

/// Why a simulation cannot be set up.
#[derive(Debug, Clone, Copy, PartialEq, Eq, Structural)]
pub enum SetupError {
    /// There is no particle to simulate.
    NoParticles,
    /// The smoothing radius is zero.
    NoSmoothingRadius,
    /// The heatmap resolution is zero.
    NoHeatmapResolution,
    /// Neighbours on the lattice would be closer than two radii.
    SpacingTooSmall,
    /// The area is too small to place the particles without overlap.
    AreaTooSmall,
}

/// The whole-numbered settings of a simulation, fixed when it is set up.
#[derive(Debug, Clone, Copy, PartialEq, Eq)]
pub struct Config {
    /// The number of particles.
    pub particle_count: usize,
    /// The width and the height of the simulation area.
    pub area_size: (u32, u32),
    /// The radius of a particle.
    pub particle_radius: u32,
    /// The distance between neighbours on the starting lattice.
    pub particle_spacing: u32,
    /// The distance beyond which particles do not influence each other, and
    /// the side of a cell of the neighbour lookup.
    pub smoothing_radius: u32,
    /// The distance between two sample points of the density heatmap.
    pub heatmap_resolution: u32,
}

impl Config {
    /// The side of the starting lattice, counted in particles.
    pub open spec fn side(self) -> nat {
        lattice_side(self.particle_count as nat)
    }

    /// The area has room for the particles, however they are placed.
    ///
    /// A particle's centre keeps one radius away from the edges. For a
    /// random placement the places left for centres outnumber those that
    /// all particles but one can take from the last; for a placement on the
    /// lattice, the lattice fits between the edges.
    pub open spec fn has_room(self) -> bool {
        let (w, h) = self.area_size;
        let r = self.particle_radius;
        let s = self.particle_spacing;
        let n = self.particle_count;
        &&& 2 * r < w
        &&& 2 * r < h
        &&& (n - 1) * blocked(r as nat) < (w - 2 * r) * (h - 2 * r)
        &&& self.side() * s + 2 * r <= w
        &&& (n * s) / (self.side() as int) + 2 * r <= h
    }

    /// The first reason, if there is one, for which no simulation can be
    /// set up with these settings.
    pub open spec fn flaw(self) -> Option<SetupError> {
        if self.particle_count == 0 {
            Some(SetupError::NoParticles)
        } else if self.smoothing_radius == 0 {
            Some(SetupError::NoSmoothingRadius)
        } else if self.heatmap_resolution == 0 {
            Some(SetupError::NoHeatmapResolution)
        } else if self.particle_spacing < 2 * self.particle_radius {
            Some(SetupError::SpacingTooSmall)
        } else if !self.has_room() {
            Some(SetupError::AreaTooSmall)
        } else {
            None
        }
    }

    /// A simulation can be set up with these settings.
    pub open spec fn valid(self) -> bool {
        self.flaw() is None
    }

    /// The numbers of columns and rows of the neighbour lookup: as many
    /// cells of the side `smoothing_radius` as it takes to cover the area.
    pub open spec fn lookup_size(self) -> (nat, nat) {
        let (w, h) = self.area_size;
        let c = self.smoothing_radius as int;
        (((w + c - 1) / c) as nat, ((h + c - 1) / c) as nat)
    }

    /// The numbers of columns and rows of sample points of the heatmap:
    /// one every `heatmap_resolution` pixels, from the origin to the far
    /// edges.
    pub open spec fn heatmap_size(self) -> (nat, nat) {
        let (w, h) = self.area_size;
        let res = self.heatmap_resolution as int;
        ((w as int / res + 1) as nat, (h as int / res + 1) as nat)
    }

    /// The sample point in column `x` and row `y` of the heatmap.
    pub open spec fn heatmap_sample(self, x: int, y: int) -> (i64, i64) {
        ((x * self.heatmap_resolution) as i64, (y * self.heatmap_resolution) as i64)
    }

    /// The corner of the starting lattice, which stands in the middle of
    /// the area.
    pub open spec fn lattice_corner(self) -> (int, int) {
        let (w, h) = self.area_size;
        let span = (self.side() * self.particle_spacing) as int;
        let rise = (self.particle_count * self.particle_spacing) as int / (self.side() as int);
        ((w - span) / 2, (h - rise) / 2)
    }

    /// Where particle `index` starts on the lattice: the particles fill it
    /// row by row, `side()` to a row.
    pub open spec fn lattice_position(self, index: int) -> (i64, i64) {
        let side = self.side() as int;
        let corner = self.lattice_corner();
        (
            (corner.0 + (index % side) * self.particle_spacing) as i64,
            (corner.1 + (index / side) * self.particle_spacing) as i64,
        )
    }

    /// The starting positions on the lattice.
    pub open spec fn lattice(self) -> Seq<(i64, i64)> {
        Seq::new(self.particle_count as nat, |index: int| self.lattice_position(index))
    }

    /// In a valid configuration no number is zero that something is divided
    /// by, and the lookup has a cell.
    pub proof fn lemma_valid(self)
        requires
            self.valid(),
        ensures
            self.side() > 0,
            is_side(self.side(), self.particle_count as nat),
            self.lookup_size().0 > 0,
            self.lookup_size().1 > 0,
            self.lookup_size().0 <= self.area_size.0,
            self.lookup_size().1 <= self.area_size.1,
    {
        self.lemma_side();
        let c = self.smoothing_radius as int;
        let (w, h) = self.area_size;
        assert(0 < (w + c - 1) / c <= w) by (nonlinear_arith)
            requires
                c > 0,
                w > 0,
        ;
        assert(0 < (h + c - 1) / c <= h) by (nonlinear_arith)
            requires
                c > 0,
                h > 0,
        ;
    }

    /// Every count has its side.
    pub proof fn lemma_side(self)
        ensures
            is_side(self.side(), self.particle_count as nat),
            self.particle_count > 0 ==> self.side() > 0,
    {
        let count = self.particle_count as nat;
        assert(count <= count * count) by (nonlinear_arith);
        lemma_side_exists(count, count);
        let side = choose|side: nat| is_side(side, count);
        lemma_side_unique(side, count);
    }

    /// The settings that the simulation is known by.
    pub fn standard() -> (config: Config)
        ensures
            config == (Config {
                particle_count: constants::PARTICLE_AMT,
                area_size: constants::WINDOW_SIZE,
                particle_radius: constants::PARTICLE_RADIUS,
                particle_spacing: constants::PARTICLE_SPACING,
                smoothing_radius: constants::SMOOTHING_RADIUS,
                heatmap_resolution: constants::HEATMAP_RESOLUTION,
            }),
            config.valid(),
    {
        let config = Config {
            particle_count: constants::PARTICLE_AMT,
            area_size: constants::WINDOW_SIZE,
            particle_radius: constants::PARTICLE_RADIUS,
            particle_spacing: constants::PARTICLE_SPACING,
            smoothing_radius: constants::SMOOTHING_RADIUS,
            heatmap_resolution: constants::HEATMAP_RESOLUTION,
        };
        proof {
            assert(is_side(46, 2048));
            lemma_side_unique(46, 2048);
            assert(config.side() == 46);
            assert(blocked(3) == 121) by {
                assert(11 * 11 == 121int) by (nonlinear_arith);
            }
            assert(config.has_room());
        }
        config
    }

    /// The side of the starting lattice, counted in particles.
    pub fn lattice_side(&self) -> (side: u64)
        ensures
            side == self.side(),
            is_side(side as nat, self.particle_count as nat),
            side <= 0x1_0000_0000,
    {
        let count = self.particle_count;
        let mut side: u64 = 0;
        while !holds(side, count)
            invariant
                side <= 0x1_0000_0000,
                count == self.particle_count,
                side == 0 || (side - 1) * (side - 1) < count,
            decreases 0x1_0000_0000 - side,
        {
            assert(side < 0x1_0000_0000) by (nonlinear_arith)
                requires
                    side * side < count,
                    count <= 0xffff_ffff_ffff_ffff,
                    side <= 0x1_0000_0000,
            ;
            side += 1;
        }
        proof {
            lemma_side_unique(side as nat, self.particle_count as nat);
        }
        side
    }

    /// Computes `has_room`.
    fn room(&self) -> (ok: bool)
        requires
            self.particle_count > 0,
        ensures
            ok == self.has_room(),
    {
        let n = self.particle_count as u128;
        let w = self.area_size.0 as u128;
        let h = self.area_size.1 as u128;
        let r = self.particle_radius as u128;
        let s = self.particle_spacing as u128;
        if 2 * r >= w || 2 * r >= h {
            return false;
        }
        assert(0 < (w - 2 * r) * (h - 2 * r) < 0x1_0000_0000_0000_0000) by (nonlinear_arith)
            requires
                0 < w - 2 * r < 0x1_0000_0000,
                0 < h - 2 * r < 0x1_0000_0000,
        ;
        let places = (w - 2 * r) * (h - 2 * r);
        if n > 1 && r > 0 {
            assert((4 * r - 1) * (4 * r - 1) < 0x10_0000_0000_0000_0000) by (nonlinear_arith)
                requires
                    0 < 4 * r - 1 < 0x4_0000_0000,
            ;
            let taken = (4 * r - 1) * (4 * r - 1);
            if taken >= places {
                assert((n - 1) * taken >= places) by (nonlinear_arith)
                    requires
                        n - 1 >= 1,
                        taken >= places,
                ;
                return false;
            }
            assert((n - 1) * taken < 0x1_0000_0000_0000_0000_0000_0000_0000_0000)
                by (nonlinear_arith)
                requires
                    0 <= n - 1 < 0x1_0000_0000_0000_0000,
                    0 <= taken < 0x1_0000_0000_0000_0000,
            ;
            if (n - 1) * taken >= places {
                return false;
            }
        } else {
            assert((n - 1) * blocked(r as nat) == 0) by (nonlinear_arith)
                requires
                    n == 1 || blocked(r as nat) == 0,
            ;
        }
        let side = self.lattice_side() as u128;
        proof {
            self.lemma_side();
        }
        assert(side * s < 0x1_0000_0000_0000_0000) by (nonlinear_arith)
            requires
                0 <= side <= 0x1_0000_0000,
                0 <= s < 0x1_0000_0000,
        ;
        if side * s + 2 * r > w {
            return false;
        }
        assert(n * s < 0x1_0000_0000_0000_0000_0000_0000) by (nonlinear_arith)
            requires
                0 <= n < 0x1_0000_0000_0000_0000,
                0 <= s < 0x1_0000_0000,
        ;
        if (n * s) / side + 2 * r > h {
            return false;
        }
        true
    }

    /// Tells whether a simulation can be set up with these settings, and if
    /// not, why not.
    pub fn check(&self) -> (result: Result<(), SetupError>)
        ensures
            result is Ok <==> self.valid(),
            result is Err ==> self.flaw() == Some(result->Err_0),
    {
        if self.particle_count == 0 {
            Err(SetupError::NoParticles)
        } else if self.smoothing_radius == 0 {
            Err(SetupError::NoSmoothingRadius)
        } else if self.heatmap_resolution == 0 {
            Err(SetupError::NoHeatmapResolution)
        } else if (self.particle_spacing as u64) < 2 * (self.particle_radius as u64) {
            Err(SetupError::SpacingTooSmall)
        } else if !self.room() {
            Err(SetupError::AreaTooSmall)
        } else {
            Ok(())
        }
    }

    /// The numbers of columns and rows of the neighbour lookup.
    pub fn lookup_dimensions(&self) -> (dimensions: (usize, usize))
        requires
            self.smoothing_radius > 0,
        ensures
            dimensions.0 == self.lookup_size().0,
            dimensions.1 == self.lookup_size().1,
    {
        let c = self.smoothing_radius as u64;
        let w = self.area_size.0 as u64;
        let h = self.area_size.1 as u64;
        let columns = (w + c - 1) / c;
        let rows = (h + c - 1) / c;
        assert(columns <= w && rows <= h) by (nonlinear_arith)
            requires
                c > 0,
                columns == (w + c - 1) as int / c as int,
                rows == (h + c - 1) as int / c as int,
        ;
        (columns as usize, rows as usize)
    }

    /// The numbers of columns and rows of sample points of the heatmap.
    pub fn heatmap_dimensions(&self) -> (dimensions: (u64, u64))
        requires
            self.heatmap_resolution > 0,
        ensures
            dimensions.0 == self.heatmap_size().0,
            dimensions.1 == self.heatmap_size().1,
    {
        let res = self.heatmap_resolution as u64;
        let w = self.area_size.0 as u64;
        let h = self.area_size.1 as u64;
        assert(w / res <= w && h / res <= h) by (nonlinear_arith)
            requires
                res > 0,
                w >= 0,
                h >= 0,
        ;
        (w / res + 1, h / res + 1)
    }

    /// The sample point in column `x` and row `y` of the heatmap.
    pub fn heatmap_point(&self, x: u64, y: u64) -> (point: (i64, i64))
        requires
            self.heatmap_resolution > 0,
            x < self.heatmap_size().0,
            y < self.heatmap_size().1,
        ensures
            point == self.heatmap_sample(x as int, y as int),
            0 <= point.0 <= self.area_size.0,
            0 <= point.1 <= self.area_size.1,
    {
        let res = self.heatmap_resolution as u64;
        assert(x * res <= self.area_size.0 && y * res <= self.area_size.1) by (nonlinear_arith)
            requires
                res > 0,
                0 <= x <= self.area_size.0 as int / res as int,
                0 <= y <= self.area_size.1 as int / res as int,
        ;
        ((x * res) as i64, (y * res) as i64)
    }
}

/// Tells whether a square lattice of the given side holds `count` particles.
fn holds(side: u64, count: usize) -> (enough: bool)
    requires
        side <= 0x1_0000_0000,
    ensures
        enough == (count <= side * side),
{
    assert(side * side <= 0x1_0000_0000_0000_0000) by (nonlinear_arith)
        requires
            0 <= side <= 0x1_0000_0000,
    ;
    (side as u128) * (side as u128) >= count as u128
}

/// Between zero and `bound` there is a side for `count`, if the square of
/// `bound` is large enough.
proof fn lemma_side_exists(count: nat, bound: nat)
    requires
        count <= bound * bound,
    ensures
        exists|side: nat| is_side(side, count),
    decreases bound,
{
    if bound == 0 || (bound - 1) * (bound - 1) < count {
        assert(is_side(bound, count));
    } else {
        lemma_side_exists(count, (bound - 1) as nat);
    }
}

} // verus!
