//! A swarm and its neighbour table, advanced one frame at a time.

use vstd::prelude::*;

use crate::particle::{advanced, all_can_move, all_valid, in_region, Motion, Node, ParticleStore};
use crate::proximity::{is_table, ProximityIndex};

verus! {

/// Why a swarm could not be made.
#[derive(Clone, Copy, Debug, PartialEq, Eq, Structural)]
pub enum ConfigError {
    /// There must be at least one particle, and fewer neighbours per particle
    /// than particles.
    InvalidConfiguration,
}

/// Settings fixed for a simulation's lifetime.
#[derive(Clone, Copy, Debug, PartialEq, Eq, Structural)]
pub struct Config {
    /// Neighbours kept per particle.
    pub neighbors: usize,
    /// Whether the neighbour table is rebuilt on each step.
    pub draw_edges: bool,
}

/// A swarm of `count` particles can keep `neighbors` neighbours each.
pub open spec fn accepted(count: int, neighbors: int) -> bool {
    1 <= count && neighbors < count
}

/// Checks a particle count and neighbour count before anything is built.
pub fn check_config(count: usize, neighbors: usize) -> (r: Result<(), ConfigError>)
    ensures
        r is Ok <==> accepted(count as int, neighbors as int),
        r is Err ==> r == Err::<(), ConfigError>(ConfigError::InvalidConfiguration),
{
    if count >= 1 && neighbors < count {
        Ok(())
    } else {
        Err(ConfigError::InvalidConfiguration)
    }
}

/// The particles, the neighbour table, and whether the table is kept.
pub struct Simulation {
    store: ParticleStore,
    index: ProximityIndex,
    draw_edges: bool,
}

impl Simulation {
    pub closed spec fn swarm(&self) -> Seq<Node> {
        self.store@
    }

    pub closed spec fn neighbors(&self) -> nat {
        self.index.neighbors()
    }

    pub closed spec fn table(&self) -> Seq<Seq<usize>> {
        self.index.table()
    }

    pub closed spec fn keeps_table(&self) -> bool {
        self.draw_edges
    }

    /// At least one particle, fewer neighbours than particles, every
    /// coordinate in range; the table is current when it is kept, and
    /// empty when it is not.
    pub open spec fn wf(&self) -> bool {
        &&& accepted(self.swarm().len() as int, self.neighbors() as int)
        &&& all_valid(self.swarm())
        &&& self.keeps_table() ==> is_table(self.swarm(), self.neighbors() as int, self.table())
        &&& !self.keeps_table() ==> self.table().len() == 0
    }

    /// When the table is kept it is built here, before any motion, with the
    /// same squared Euclidean distance as every later rebuild; no cheaper
    /// approximate distance is used for this first table.
    fn assemble(store: ParticleStore, config: Config) -> (r: Simulation)
        requires
            store.wf(),
            accepted(store@.len() as int, config.neighbors as int),
        ensures
            r.wf(),
            r.swarm() == store@,
            r.neighbors() == config.neighbors,
            r.keeps_table() == config.draw_edges,
    {
        let mut index = ProximityIndex::new(config.neighbors);
        if config.draw_edges {
            index.rebuild(store.nodes());
        }
        Simulation { store, index, draw_edges: config.draw_edges }
    }

    /// A simulation of exactly the given particles. Fails with
    /// `InvalidConfiguration` when there is none, or when `config.neighbors`
    /// is not below their number.
    pub fn new(nodes: Vec<Node>, config: Config) -> (r: Result<Simulation, ConfigError>)
        requires
            all_valid(nodes@),
        ensures
            r is Ok <==> accepted(nodes@.len() as int, config.neighbors as int),
            r is Err ==> r == Err::<Simulation, ConfigError>(ConfigError::InvalidConfiguration),
            r matches Ok(sim) ==> sim.wf() && sim.swarm() == nodes@ && sim.neighbors() == config.neighbors
                && sim.keeps_table() == config.draw_edges,
    {
        match check_config(nodes.len(), config.neighbors) {
            Ok(()) => Ok(Simulation::assemble(ParticleStore::from_nodes(nodes), config)),
            Err(e) => Err(e),
        }
    }

    /// A simulation with one particle for each of `motions`, at random
    /// positions in `[-width/2, width/2] x [-height/2, height/2]` and with
    /// random visual attributes. Fails with `InvalidConfiguration` when
    /// `motions` is empty or `config.neighbors` is not below its length.
    pub fn spawn(width: i64, height: i64, motions: &Vec<Motion>, config: Config) -> (r: Result<Simulation, ConfigError>)
        requires
            0 <= width,
            0 <= height,
        ensures
            r is Ok <==> accepted(motions.len() as int, config.neighbors as int),
            r is Err ==> r == Err::<Simulation, ConfigError>(ConfigError::InvalidConfiguration),
            r matches Ok(sim) ==> {
                &&& sim.wf()
                &&& sim.swarm().len() == motions.len()
                &&& in_region(sim.swarm(), width as int, height as int)
                &&& forall|j: int| 0 <= j < motions.len() ==> (#[trigger] sim.swarm()[j]).motion == motions[j]
                &&& forall|j: int| 0 <= j < motions.len() ==> (#[trigger] sim.swarm()[j]).look.in_ranges()
                &&& sim.neighbors() == config.neighbors
                &&& sim.keeps_table() == config.draw_edges
            },
    {
        match check_config(motions.len(), config.neighbors) {
            Ok(()) => Ok(Simulation::assemble(ParticleStore::spawn(width, height, motions), config)),
            Err(e) => Err(e),
        }
    }

    /// Whether `step(dt)` keeps every coordinate in range.
    pub fn can_step(&self, dt: u32) -> (r: bool)
        requires
            self.wf(),
        ensures
            r == all_can_move(self.swarm(), dt as int),
    {
        self.store.can_integrate(dt)
    }

    /// One frame: moves every particle for `dt`, then rebuilds the
    /// neighbour table if it is kept.
    pub fn step(&mut self, dt: u32)
        requires
            old(self).wf(),
            all_can_move(old(self).swarm(), dt as int),
        ensures
            final(self).wf(),
            final(self).swarm() == advanced(old(self).swarm(), dt as int),
            final(self).neighbors() == old(self).neighbors(),
            final(self).keeps_table() == old(self).keeps_table(),
    {
        self.store.integrate(dt);
        if self.draw_edges {
            self.index.rebuild(self.store.nodes());
        }
    }

    pub fn particles(&self) -> (r: &Vec<Node>)
        ensures
            r@ == self.swarm(),
    {
        self.store.nodes()
    }

    pub fn neighbor_count(&self) -> (r: usize)
        ensures
            r == self.neighbors(),
    {
        self.index.neighbor_count()
    }

    pub fn draws_edges(&self) -> (r: bool)
        ensures
            r == self.keeps_table(),
    {
        self.draw_edges
    }

    /// The neighbours of particle `i`, nearest first.
    pub fn neighbors_of(&self, i: usize) -> (r: &Vec<usize>)
        requires
            self.wf(),
            self.keeps_table(),
            i < self.swarm().len(),
        ensures
            r@ == self.table()[i as int],
    {
        self.index.row(i)
    }
}

} // verus!
