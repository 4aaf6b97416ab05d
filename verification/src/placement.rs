use crate::config::{blocked, Config};
use crate::counting::{
    all_surroundings, grid_points, lemma_all_surroundings, lemma_grid_points, surroundings,
};
use crate::game_context::GameContext;
use crate::random::random_between;
use rand::rngs::ThreadRng;
use vstd::prelude::*;

verus! {

/// How often a place is drawn at random for one particle before the places
/// are searched one by one.
pub const ATTEMPTS: u32 = 64;

/// Two centres are closer to each other than twice the radius: the two
/// particles overlap.
pub open spec fn too_close(a: (i64, i64), b: (i64, i64), radius: nat) -> bool {
    (a.0 - b.0) * (a.0 - b.0) + (a.1 - b.1) * (a.1 - b.1) < (2 * radius) * (2 * radius)
}

/// A particle at `candidate` overlaps none of the particles at `placed`.
pub open spec fn free(placed: Seq<(i64, i64)>, candidate: (i64, i64), radius: nat) -> bool {
    forall|j: int| 0 <= j < placed.len() ==> !too_close(#[trigger] placed[j], candidate, radius)
}

/// No two of the particles overlap.
pub open spec fn spread(positions: Seq<(i64, i64)>, radius: nat) -> bool {
    forall|i: int, j: int|
        0 <= i < j < positions.len() ==> !too_close(
            #[trigger] positions[i],
            #[trigger] positions[j],
            radius,
        )
}

impl Config {
    /// A place that a random placement may give to a centre: one radius or
    /// more from the near edges, more than one radius from the far edges.
    pub open spec fn is_place(self, p: (i64, i64)) -> bool {
        &&& self.particle_radius <= p.0 < self.area_size.0 - self.particle_radius
        &&& self.particle_radius <= p.1 < self.area_size.1 - self.particle_radius
    }

    /// A particle with its centre at `p` lies within the area.
    pub open spec fn contains(self, p: (i64, i64)) -> bool {
        &&& self.particle_radius <= p.0 <= self.area_size.0 - self.particle_radius
        &&& self.particle_radius <= p.1 <= self.area_size.1 - self.particle_radius
    }

    /// What is owed of the positions that a simulation starts from. On the
    /// lattice they are the lattice's. At random there is one for each
    /// particle, each a place of its own, and no two particles overlap.
    pub open spec fn places(self, positions: Seq<(i64, i64)>, use_random_pos: bool) -> bool {
        if use_random_pos {
            &&& positions.len() == self.particle_count
            &&& spread(positions, self.particle_radius as nat)
            &&& forall|i: int| 0 <= i < positions.len() ==> self.is_place(#[trigger] positions[i])
        } else {
            positions == self.lattice()
        }
    }

    /// While a particle is still to be placed, one place at least is free.
    pub proof fn lemma_room(self, placed: Seq<(i64, i64)>)
        requires
            self.valid(),
            placed.len() < self.particle_count,
        ensures
            exists|p: (i64, i64)|
                self.is_place(p) && #[trigger] free(placed, p, self.particle_radius as nat),
    {
        let (w, h) = self.area_size;
        let r = self.particle_radius as int;
        let radius = self.particle_radius as nat;
        let corner = (r as i64, r as i64);
        if free(placed, corner, radius) {
            assert(self.is_place(corner));
        } else if forall|p: (i64, i64)| self.is_place(p) ==> !#[trigger] free(placed, p, radius) {
            let j = choose|j: int| 0 <= j < placed.len() && too_close(placed[j], corner, radius);
            assert(r > 0) by (nonlinear_arith)
                requires
                    (placed[j].0 - corner.0) * (placed[j].0 - corner.0) + (placed[j].1 - corner.1)
                        * (placed[j].1 - corner.1) < (2 * r) * (2 * r),
                    r >= 0,
            ;
            let places = grid_points(r, r, w - 2 * r, h - 2 * r);
            let taken = all_surroundings(placed, 2 * r, placed.len());
            lemma_grid_points(r, r, (w - 2 * r) as nat, (h - 2 * r) as nat);
            lemma_all_surroundings(placed, 2 * r, placed.len());
            assert forall|p: (int, int)| places.contains(p) implies taken.contains(p) by {
                let at = (p.0 as i64, p.1 as i64);
                assert(self.is_place(at));
                assert(!free(placed, at, radius));
                let k = choose|k: int| 0 <= k < placed.len() && too_close(placed[k], at, radius);
                let dx = placed[k].0 - at.0;
                let dy = placed[k].1 - at.1;
                assert(-2 * r < dx < 2 * r && -2 * r < dy < 2 * r) by (nonlinear_arith)
                    requires
                        dx * dx + dy * dy < (2 * r) * (2 * r),
                        r > 0,
                ;
                assert(surroundings(placed[k], 2 * r).contains(p));
            }
            vstd::set_lib::lemma_len_subset(places, taken);
            assert(placed.len() * blocked(radius) <= (self.particle_count - 1) * blocked(radius))
                by (nonlinear_arith)
                requires
                    placed.len() <= self.particle_count - 1,
                    blocked(radius) >= 0,
            ;
            assert(blocked(radius) == (2 * (2 * r) - 1) * (2 * (2 * r) - 1));
            assert(false);
        } else {
            let p = choose|p: (i64, i64)| self.is_place(p) && #[trigger] free(placed, p, radius);
            assert(self.is_place(p) && free(placed, p, radius));
        }
    }

    /// The lattice of a valid configuration lies within the area, and no
    /// two of its particles overlap.
    pub proof fn lemma_lattice(self)
        requires
            self.valid(),
        ensures
            self.lattice().len() == self.particle_count,
            forall|i: int|
                0 <= i < self.particle_count ==> self.contains(#[trigger] self.lattice()[i]),
            spread(self.lattice(), self.particle_radius as nat),
    {
        let radius = self.particle_radius as nat;
        assert forall|i: int| 0 <= i < self.particle_count implies self.contains(
            #[trigger] self.lattice()[i],
        ) by {
            self.lemma_lattice_position(i);
        }
        assert forall|i: int, j: int| 0 <= i < j < self.lattice().len() implies !too_close(
            #[trigger] self.lattice()[i],
            #[trigger] self.lattice()[j],
            radius,
        ) by {
            self.lemma_lattice_position(i);
            self.lemma_lattice_position(j);
            self.lemma_lattice_apart(i, j);
        }
    }

    /// Where a particle stands on the lattice, without the casts: within
    /// the area.
    pub proof fn lemma_lattice_position(self, index: int)
        requires
            self.valid(),
            0 <= index < self.particle_count,
        ensures
            self.lattice_position(index).0 == self.lattice_corner().0 + (index % (
            self.side() as int)) * self.particle_spacing,
            self.lattice_position(index).1 == self.lattice_corner().1 + (index / (
            self.side() as int)) * self.particle_spacing,
            self.contains(self.lattice_position(index)),
            0 <= self.lattice_corner().0,
            0 <= self.lattice_corner().1,
            0 <= index % (self.side() as int) < self.side(),
            0 <= index / (self.side() as int),
    {
        self.lemma_valid();
        let side = self.side() as int;
        let s = self.particle_spacing as int;
        let n = self.particle_count as int;
        let column = index % side;
        let row = index / side;
        let span = side * s;
        let rise = (n * s) / side;
        assert(0 <= column < side && 0 <= row && row * side <= index) by (nonlinear_arith)
            requires
                column == index % side,
                row == index / side,
                side > 0,
                index >= 0,
        ;
        assert(column * s <= span - s) by (nonlinear_arith)
            requires
                0 <= column <= side - 1,
                s >= 0,
                span == side * s,
        ;
        assert(row * s <= rise) by (nonlinear_arith)
            requires
                row * side <= index,
                index < n,
                s >= 0,
                side > 0,
                row >= 0,
                rise == (n * s) / side,
        {
            assert((row * s) * side <= n * s);
            assert(((row * s) * side) / side == row * s);
            assert(((row * s) * side) / side <= (n * s) / side);
        }
        assert(0 <= row * s) by (nonlinear_arith)
            requires
                row >= 0,
                s >= 0,
        ;
        assert(0 <= column * s) by (nonlinear_arith)
            requires
                column >= 0,
                s >= 0,
        ;
    }

    /// Two particles of the lattice do not overlap: they stand a spacing or
    /// more apart along one axis at least.
    proof fn lemma_lattice_apart(self, i: int, j: int)
        requires
            self.valid(),
            0 <= i < j < self.particle_count,
        ensures
            !too_close(
                self.lattice_position(i),
                self.lattice_position(j),
                self.particle_radius as nat,
            ),
    {
        self.lemma_lattice_position(i);
        self.lemma_lattice_position(j);
        let side = self.side() as int;
        let s = self.particle_spacing as int;
        let r = self.particle_radius as int;
        let dc = i % side - j % side;
        let dr = i / side - j / side;
        let dx = self.lattice_position(i).0 - self.lattice_position(j).0;
        let dy = self.lattice_position(i).1 - self.lattice_position(j).1;
        assert(dc != 0 || dr != 0) by (nonlinear_arith)
            requires
                side > 0,
                i != j,
                dc == i % side - j % side,
                dr == i / side - j / side,
        {
            assert(i == (i / side) * side + i % side);
            assert(j == (j / side) * side + j % side);
        }
        assert(dx == dc * s && dy == dr * s) by (nonlinear_arith)
            requires
                dx == (i % side) * s - (j % side) * s,
                dy == (i / side) * s - (j / side) * s,
                dc == i % side - j % side,
                dr == i / side - j / side,
        ;
        assert(dx * dx + dy * dy >= (2 * r) * (2 * r)) by (nonlinear_arith)
            requires
                dx == dc * s,
                dy == dr * s,
                dc != 0 || dr != 0,
                s >= 2 * r,
                r >= 0,
        {
            assert(dc * dc >= 1 || dr * dr >= 1);
            assert(dx * dx == (dc * dc) * (s * s));
            assert(dy * dy == (dr * dr) * (s * s));
            assert(s * s >= (2 * r) * (2 * r));
        }
    }
}

/// Computes `too_close`.
fn is_too_close(a: (i64, i64), b: (i64, i64), radius: u32) -> (close: bool)
    ensures
        close == too_close(a, b, radius as nat),
{
    let dx: i128 = a.0 as i128 - b.0 as i128;
    let dy: i128 = a.1 as i128 - b.1 as i128;
    let reach: i128 = 2 * (radius as i128);
    if dx >= reach || dx <= -reach || dy >= reach || dy <= -reach {
        assert(dx * dx + dy * dy >= reach * reach) by (nonlinear_arith)
            requires
                dx >= reach || dx <= -reach || dy >= reach || dy <= -reach,
                reach >= 0,
        ;
        false
    } else {
        assert(0 <= dx * dx <= reach * reach && 0 <= dy * dy <= reach * reach && reach * reach
            <= 0x4_0000_0000_0000_0000) by (nonlinear_arith)
            requires
                -reach < dx < reach,
                -reach < dy < reach,
                reach <= 0x2_0000_0000,
        ;
        dx * dx + dy * dy < reach * reach
    }
}

/// Tells whether a particle at `candidate` would overlap one of the
/// particles at `placed`.
pub fn overlaps(placed: &Vec<(i64, i64)>, candidate: (i64, i64), radius: u32) -> (hit: bool)
    ensures
        hit == !free(placed@, candidate, radius as nat),
{
    let mut j: usize = 0;
    while j < placed.len()
        invariant
            j <= placed@.len(),
            forall|k: int| 0 <= k < j ==> !too_close(#[trigger] placed@[k], candidate, radius as nat),
        decreases placed@.len() - j,
    {
        if is_too_close(placed[j], candidate, radius) {
            return true;
        }
        j += 1;
    }
    false
}

/// Finds a free place for one more particle: draws places at random and
/// takes the first that is free; when `ATTEMPTS` draws have all failed,
/// goes through the places one by one.
fn place_one(config: &Config, placed: &Vec<(i64, i64)>, generator: &mut ThreadRng) -> (place: (
    i64,
    i64,
))
    requires
        config.valid(),
        placed@.len() < config.particle_count,
    ensures
        config.is_place(place),
        free(placed@, place, config.particle_radius as nat),
{
    let r = config.particle_radius;
    let w = config.area_size.0;
    let h = config.area_size.1;
    let mut attempt: u32 = 0;
    while attempt < ATTEMPTS
        invariant
            2 * r < w,
            2 * r < h,
            r == config.particle_radius,
            w == config.area_size.0,
            h == config.area_size.1,
        decreases ATTEMPTS - attempt,
    {
        let x = random_between(generator, r, w - r);
        let y = random_between(generator, r, h - r);
        let place = (x as i64, y as i64);
        if !overlaps(placed, place, r) {
            return place;
        }
        attempt += 1;
    }
    let mut x: u32 = r;
    while x < w - r
        invariant
            2 * r < w,
            2 * r < h,
            r == config.particle_radius,
            w == config.area_size.0,
            h == config.area_size.1,
            r <= x <= w - r,
            forall|p: (i64, i64)|
                r <= p.0 < x && r <= p.1 < h - r ==> !#[trigger] free(placed@, p, r as nat),
        decreases w - r - x,
    {
        let mut y: u32 = r;
        while y < h - r
            invariant
                2 * r < w,
                2 * r < h,
                r == config.particle_radius,
                w == config.area_size.0,
                h == config.area_size.1,
                r <= x < w - r,
                r <= y <= h - r,
                forall|p: (i64, i64)|
                    r <= p.0 < x && r <= p.1 < h - r ==> !#[trigger] free(placed@, p, r as nat),
                forall|p: (i64, i64)|
                    p.0 == x && r <= p.1 < y ==> !#[trigger] free(placed@, p, r as nat),
            decreases h - r - y,
        {
            let place = (x as i64, y as i64);
            if !overlaps(placed, place, r) {
                return place;
            }
            y += 1;
        }
        x += 1;
    }
    // Not reached: a place is free, so the search above has found one.
    proof {
        config.lemma_room(placed@);
    }
    (r as i64, r as i64)
}

impl GameContext {
    /// Places the particles on a square lattice in the middle of the area,
    /// row by row.
    pub fn create_particles_grid(config: &Config) -> (positions: Vec<(i64, i64)>)
        requires
            config.valid(),
        ensures
            positions@ == config.lattice(),
    {
        let side = config.lattice_side() as u128;
        let n = config.particle_count;
        let s = config.particle_spacing as u128;
        let w = config.area_size.0 as u128;
        let h = config.area_size.1 as u128;
        proof {
            config.lemma_valid();
            assert(n * s < 0x1_0000_0000_0000_0000_0000_0000) by (nonlinear_arith)
                requires
                    0 <= n < 0x1_0000_0000_0000_0000,
                    0 <= s < 0x1_0000_0000,
            ;
        }
        let span = side * s;
        let rise = ((n as u128) * s) / side;
        let corner = ((w - span) / 2, (h - rise) / 2);
        let mut positions: Vec<(i64, i64)> = Vec::new();
        let mut index: usize = 0;
        while index < n
            invariant
                config.valid(),
                n == config.particle_count,
                s == config.particle_spacing,
                side == config.side(),
                side > 0,
                corner.0 == config.lattice_corner().0,
                corner.1 == config.lattice_corner().1,
                index <= n,
                positions@.len() == index,
                forall|i: int|
                    0 <= i < index ==> #[trigger] positions@[i] == config.lattice_position(i),
            decreases n - index,
        {
            let column = (index as u128) % side;
            let row = (index as u128) / side;
            proof {
                config.lemma_lattice_position(index as int);
            }
            let x = corner.0 + column * s;
            let y = corner.1 + row * s;
            positions.push((x as i64, y as i64));
            index += 1;
        }
        assert(positions@ =~= config.lattice());
        positions
    }

    /// Places the particles at random, so that no two of them overlap and
    /// each lies within the area.
    pub fn create_particles_random_pos(config: &Config) -> (positions: Vec<(i64, i64)>)
        requires
            config.valid(),
        ensures
            config.places(positions@, true),
    {
        let n = config.particle_count;
        let mut generator = rand::thread_rng();
        let mut positions: Vec<(i64, i64)> = Vec::new();
        while positions.len() < n
            invariant
                config.valid(),
                n == config.particle_count,
                positions@.len() <= n,
                spread(positions@, config.particle_radius as nat),
                forall|i: int|
                    0 <= i < positions@.len() ==> config.is_place(#[trigger] positions@[i]),
            decreases n - positions@.len(),
        {
            let place = place_one(config, &positions, &mut generator);
            positions.push(place);
        }
        positions
    }
}

} // verus!
