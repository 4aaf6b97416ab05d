use crate::config::{Config, SetupError};
use crate::particles_lookup::{Lookup, ParticlesLookup};
use crate::spatial_lookup::Grid;
use vstd::prelude::*;

verus! {

/// Whether the simulation runs.
#[derive(Debug, Clone, Copy, PartialEq, Eq, Structural)]
pub enum GameState {
    /// Every tick moves the particles.
    Playing,
    /// A tick changes nothing.
    Paused,
}

impl GameState {
    /// The other state.
    pub open spec fn toggled(self) -> GameState {
        match self {
            GameState::Playing => GameState::Paused,
            GameState::Paused => GameState::Playing,
        }
    }
}

/// What a `GameContext` stands for.
pub struct Game {
    pub state: GameState,
    pub frame_count: u32,
    pub config: Config,
    pub lookup: Lookup,
}

impl Game {
    /// The settings are valid, and the lookup has the particles and the
    /// grid that the settings ask for.
    pub open spec fn wf(self) -> bool {
        &&& self.config.valid()
        &&& self.lookup.wf()
        &&& self.lookup.positions.len() == self.config.particle_count
        &&& self.lookup.grid.cell_size == self.config.smoothing_radius
        &&& self.lookup.grid.columns() == self.config.lookup_size().0
        &&& self.lookup.grid.rows() == self.config.lookup_size().1
    }

    /// The game after the pause was switched on or off.
    pub open spec fn toggled(self) -> Game {
        Game {
            state: self.state.toggled(),
            frame_count: self.frame_count,
            config: self.config,
            lookup: self.lookup,
        }
    }

    /// The game after the whole-numbered part of a tick: a paused game
    /// stays as it is; a running game counts the frame and rebuilds the
    /// cells of its lookup from the positions.
    pub open spec fn ticked(self) -> Game {
        match self.state {
            GameState::Paused => self,
            GameState::Playing => Game {
                state: self.state,
                frame_count: (self.frame_count + 1) as u32,
                config: self.config,
                lookup: self.lookup.rebuilt(),
            },
        }
    }

    /// Switching the pause twice leaves the game as it was.
    pub proof fn lemma_toggle_twice(self)
        ensures
            self.toggled().toggled() == self,
    {
    }

    /// A tick leaves a paused game as it was: the state, the frame count
    /// and every position.
    pub proof fn lemma_paused_tick(self)
        requires
            self.state == GameState::Paused,
        ensures
            self.ticked() == self,
    {
    }
}

/// The state of a simulation, as far as it is made of whole numbers: whether
/// it runs, the frames it has counted, its settings, and where its particles
/// are, each position rounded down to the pixel.
pub struct GameContext {
    state: GameState,
    frame_count: u32,
    config: Config,
    particles_lookup: ParticlesLookup,
}

impl View for GameContext {
    type V = Game;

    closed spec fn view(&self) -> Game {
        Game {
            state: self.state,
            frame_count: self.frame_count,
            config: self.config,
            lookup: self.particles_lookup@,
        }
    }
}

impl GameContext {
    /// Sets a simulation up: paused, at frame zero, the particles placed at
    /// random or on the lattice, and none of them filed in the lookup yet.
    pub fn new(config: Config, use_random_pos: bool) -> (result: Result<GameContext, SetupError>)
        ensures
            result is Ok <==> config.valid(),
            result is Err ==> config.flaw() == Some(result->Err_0),
            result matches Ok(context) ==> {
                &&& context@.wf()
                &&& context@.state == GameState::Paused
                &&& context@.frame_count == 0
                &&& context@.config == config
                &&& context@.lookup.grid == Grid::empty(
                    config.smoothing_radius as nat,
                    config.lookup_size().0,
                    config.lookup_size().1,
                )
                &&& config.places(context@.lookup.positions, use_random_pos)
            },
    {
        match config.check() {
            Err(error) => Err(error),
            Ok(()) => {
                let particles = if use_random_pos {
                    Self::create_particles_random_pos(&config)
                } else {
                    Self::create_particles_grid(&config)
                };
                proof {
                    config.lemma_valid();
                }
                let dimensions = config.lookup_dimensions();
                let particles_lookup = ParticlesLookup::new(
                    particles,
                    config.smoothing_radius,
                    dimensions,
                );
                proof {
                    Grid::lemma_empty(
                        config.smoothing_radius as nat,
                        dimensions.0 as nat,
                        dimensions.1 as nat,
                    );
                }
                Ok(GameContext { state: GameState::Paused, frame_count: 0, config, particles_lookup })
            },
        }
    }

    /// Whether the simulation runs.
    pub fn state(&self) -> (state: GameState)
        ensures
            state == self@.state,
    {
        self.state
    }

    /// The number of ticks since the simulation was set up or reset.
    pub fn frame_count(&self) -> (count: u32)
        ensures
            count == self@.frame_count,
    {
        self.frame_count
    }

    /// The settings that the simulation was set up with.
    pub fn config(&self) -> (config: Config)
        ensures
            config == self@.config,
    {
        self.config
    }

    /// The particles' positions and the grid that finds neighbours.
    pub fn particles_lookup(&self) -> (lookup: &ParticlesLookup)
        ensures
            lookup@ == self@.lookup,
    {
        &self.particles_lookup
    }

    /// Moves particle `index` to `position`. The cells of the lookup follow
    /// at the next tick.
    pub fn set_position(&mut self, index: usize, position: (i64, i64))
        requires
            old(self)@.wf(),
            index < old(self)@.config.particle_count,
        ensures
            final(self)@.wf(),
            final(self)@ == (Game {
                state: old(self)@.state,
                frame_count: old(self)@.frame_count,
                config: old(self)@.config,
                lookup: Lookup {
                    positions: old(self)@.lookup.positions.update(index as int, position),
                    grid: old(self)@.lookup.grid,
                },
            }),
    {
        self.particles_lookup.set_position(index, position);
    }

    /// The whole-numbered part of a tick. While the simulation is paused
    /// nothing changes, and there is no answer. While it runs, the frame is
    /// counted, the cells of the lookup are rebuilt from the positions, and
    /// the answer holds, for every particle, its neighbour candidates: the
    /// particles that the lookup files within the smoothing radius of it,
    /// without the particle itself. With these the particles are to be
    /// moved.
    pub fn update(&mut self) -> (neighbors: Option<Vec<Vec<usize>>>)
        requires
            old(self)@.wf(),
            old(self)@.state == GameState::Playing ==> old(self)@.frame_count < u32::MAX,
        ensures
            neighbors is Some <==> old(self)@.state == GameState::Playing,
            final(self)@ == old(self)@.ticked(),
            final(self)@.wf(),
            neighbors is None ==> *final(self) == *old(self),
            neighbors matches Some(lists) ==> {
                &&& final(self)@.lookup.indexed()
                &&& lists@.len() == final(self)@.config.particle_count
                &&& forall|i: int|
                    0 <= i < lists@.len() ==> (#[trigger] lists@[i])@ == final(self)@.lookup.query(
                        None,
                        None,
                        Some(i as usize),
                    )
                &&& forall|i: int, k: int|
                    0 <= i < lists@.len() && 0 <= k < lists@[i]@.len() ==> (#[trigger] lists@[i]@[k])
                        < final(self)@.config.particle_count
            },
    {
        match self.state {
            GameState::Paused => None,
            GameState::Playing => {
                self.frame_count += 1;
                self.particles_lookup.update_cells();
                proof {
                    old(self)@.lookup.lemma_filed(old(self)@.lookup.positions.len());
                }
                let count = self.particles_lookup.len();
                let mut lists: Vec<Vec<usize>> = Vec::new();
                let mut index: usize = 0;
                while index < count
                    invariant
                        self@.wf(),
                        count == self@.config.particle_count,
                        index <= count,
                        lists@.len() == index,
                        forall|i: int|
                            0 <= i < index ==> (#[trigger] lists@[i])@ == self@.lookup.query(
                                None,
                                None,
                                Some(i as usize),
                            ),
                        forall|i: int, k: int|
                            0 <= i < index && 0 <= k < lists@[i]@.len() ==> (
                            #[trigger] lists@[i]@[k]) < count,
                    decreases count - index,
                {
                    let found = self.particles_lookup.query_radius(None, None, Some(index));
                    lists.push(found);
                    index += 1;
                }
                Some(lists)
            },
        }
    }

    /// Places the particles anew, at random or on the lattice, files them
    /// in the lookup, and starts the frame count over. Whether the
    /// simulation runs stays as it is.
    pub fn reset(&mut self, use_random_pos: bool)
        requires
            old(self)@.wf(),
        ensures
            final(self)@.wf(),
            final(self)@.state == old(self)@.state,
            final(self)@.frame_count == 0,
            final(self)@.config == old(self)@.config,
            final(self)@.config.places(final(self)@.lookup.positions, use_random_pos),
            final(self)@.lookup.indexed(),
    {
        let particles = if use_random_pos {
            Self::create_particles_random_pos(&self.config)
        } else {
            Self::create_particles_grid(&self.config)
        };
        let ghost emptied = Lookup {
            positions: particles@,
            grid: old(self)@.lookup.grid.cleared(),
        };
        self.particles_lookup.set_particles(particles);
        self.particles_lookup.update_cells();
        self.frame_count = 0;
        proof {
            Grid::lemma_empty(
                old(self)@.lookup.grid.cell_size,
                old(self)@.lookup.grid.columns(),
                old(self)@.lookup.grid.rows(),
            );
            emptied.lemma_filed(emptied.positions.len());
        }
    }

    /// Switches the pause on or off.
    pub fn toggle_pause(&mut self)
        ensures
            final(self)@ == old(self)@.toggled(),
    {
        let toggled = match self.state {
            GameState::Playing => GameState::Paused,
            GameState::Paused => GameState::Playing,
        };
        self.state = toggled;
    }

    /// The numbers of columns and rows of sample points of the heatmap.
    pub fn heatmap_dimensions(&self) -> (dimensions: (u64, u64))
        requires
            self@.wf(),
        ensures
            dimensions.0 == self@.config.heatmap_size().0,
            dimensions.1 == self@.config.heatmap_size().1,
    {
        self.config.heatmap_dimensions()
    }

    /// The particles that may add to the density at the sample point in
    /// column `x` and row `y` of the heatmap: those that the lookup files
    /// within the smoothing radius of the point.
    pub fn heatmap_neighbors(&self, x: u64, y: u64) -> (neighbors: Vec<usize>)
        requires
            self@.wf(),
            x < self@.config.heatmap_size().0,
            y < self@.config.heatmap_size().1,
        ensures
            neighbors@ == self@.lookup.query(
                Some(self@.config.heatmap_sample(x as int, y as int)),
                Some(self@.config.smoothing_radius as i64),
                None,
            ),
            forall|k: int|
                0 <= k < neighbors@.len() ==> neighbors@[k] < self@.config.particle_count,
    {
        let point = self.config.heatmap_point(x, y);
        self.particles_lookup.query_radius(
            Some(point),
            Some(self.config.smoothing_radius as i64),
            None,
        )
    }
}

} // verus!
