//! A cave instance and the stages that build it.
//!
//! An instance is created empty and passes, in this order and once each,
//! through seeding (the leaves of a random partition become nodes),
//! connecting (near nodes are joined), rasterizing (nodes and tunnels are
//! painted to tiles) and finishing. Until it is finished its graph is not
//! handed out.
//!
//! Rasterizing may also be handed out as a job to be done elsewhere. The
//! instance remembers that a job is out and in which generation cycle it was
//! handed out; what comes back is applied when it belongs to the cycle that
//! the instance is in, and dropped when the instance was regenerated
//! meanwhile.

use crate::config::Config;
use crate::geometry::{IVec2, Rect, UVec2, MAX_SIDE};
use crate::graph::{
    graph_add_edge, graph_add_node, graph_edge_count, graph_edge_endpoints, graph_edge_weight,
    graph_edges, graph_new, graph_node, graph_node_count, graph_nodes, CaveEdge, CaveGraph,
};
use crate::partition::{leaf_node, node_of, partitions, random_bsp, CaveNode};
use crate::pathfinding::{cell_at, DMap, UpdateDMap};
use crate::raster::{is_jitter_for, rasterize, rastered};
use crate::spatial::{found_around, SpatialIndex};
use crate::terrain::{SetTiles, TilePos, TileType};
use rand::rngs::StdRng;
use vstd::prelude::*;

verus! {

/// How far an instance has been built.
#[derive(Clone, Copy, Debug, PartialEq, Eq, Structural)]
pub enum Phase {
    Created,
    Seeded,
    Connected,
    Rasterized,
    Finished,
}

/// A step of building an instance.
#[derive(Clone, Copy, Debug, PartialEq, Eq, Structural)]
pub enum Stage {
    Seed,
    Connect,
    PopulateTiles,
    Finish,
}

/// The signal to discard an instance and start a fresh one.
#[derive(Clone, Copy, Debug, PartialEq, Eq, Structural)]
pub struct Regen;

/// The mark of an instance that is still being built.
#[derive(Clone, Copy, Debug, PartialEq, Eq, Structural)]
pub struct Generating;

impl Phase {
    /// The phase after a stage has run: a stage moves an instance on from
    /// the one phase it belongs to and leaves every other as it is.
    pub open spec fn after(self, stage: Stage) -> Phase {
        match (self, stage) {
            (Phase::Created, Stage::Seed) => Phase::Seeded,
            (Phase::Seeded, Stage::Connect) => Phase::Connected,
            (Phase::Connected, Stage::PopulateTiles) => Phase::Rasterized,
            (Phase::Rasterized, Stage::Finish) => Phase::Finished,
            _ => self,
        }
    }

    /// How many stages lie behind the phase.
    pub open spec fn rank(self) -> int {
        match self {
            Phase::Created => 0,
            Phase::Seeded => 1,
            Phase::Connected => 2,
            Phase::Rasterized => 3,
            Phase::Finished => 4,
        }
    }
}

/// The four stages in their order take a new instance through
/// `Seeded`, `Connected` and `Rasterized` to `Finished`. No stage takes an
/// instance back, none takes it further than one phase, and a finished
/// instance stays finished.
pub proof fn lemma_one_cycle(phase: Phase, stage: Stage)
    ensures
        Phase::Created.after(Stage::Seed) == Phase::Seeded,
        Phase::Seeded.after(Stage::Connect) == Phase::Connected,
        Phase::Connected.after(Stage::PopulateTiles) == Phase::Rasterized,
        Phase::Rasterized.after(Stage::Finish) == Phase::Finished,
        phase.rank() <= phase.after(stage).rank() <= phase.rank() + 1,
        Phase::Finished.after(stage) == Phase::Finished,
        phase.after(stage) != phase ==> phase.after(stage).after(stage) == phase.after(stage),
{
}

/// The ones of `found`, in their order, that a node is joined to: not the
/// node itself, and no more than `limit`.
pub open spec fn chosen(found: Seq<usize>, node: usize, limit: nat) -> Seq<usize>
    decreases found.len(),
{
    if found.len() == 0 {
        Seq::empty()
    } else {
        let before = chosen(found.drop_last(), node, limit);
        if found.last() != node && before.len() < limit {
            before.push(found.last())
        } else {
            before
        }
    }
}

/// The positions of nodes.
pub open spec fn positions(nodes: Seq<CaveNode>) -> Seq<IVec2> {
    Seq::new(nodes.len(), |i: int| nodes[i].position)
}

/// The neighbours that node `i` is joined to: of the nodes closer to it than
/// its own radius, in the order in which the spatial index yields them, the
/// first `edge_neighbors` other than itself.
pub open spec fn neighbors_of(nodes: Seq<CaveNode>, size: UVec2, config: Config, i: int) -> Seq<
    usize,
> {
    chosen(
        found_around(
            positions(nodes),
            config.grid_size as int,
            size,
            nodes[i].position,
            nodes[i].radius as int,
        ),
        i as usize,
        config.edge_neighbors as nat,
    )
}

/// The edges from one node to the given neighbours, of width one.
pub open spec fn links_to(node: usize, neighbors: Seq<usize>) -> Seq<(usize, usize, CaveEdge)> {
    Seq::new(neighbors.len(), |k: int| (node, neighbors[k], CaveEdge { width: 1 }))
}

/// The edges of the first `upto` nodes, node after node.
pub open spec fn links(nodes: Seq<CaveNode>, size: UVec2, config: Config, upto: nat) -> Seq<
    (usize, usize, CaveEdge),
>
    decreases upto,
{
    if upto == 0 {
        Seq::empty()
    } else {
        links(nodes, size, config, (upto - 1) as nat) + links_to(
            (upto - 1) as usize,
            neighbors_of(nodes, size, config, upto - 1),
        )
    }
}

/// The pairs of nodes that edges join.
pub open spec fn endpoints(edges: Seq<(usize, usize, CaveEdge)>) -> Seq<(usize, usize)> {
    Seq::new(edges.len(), |k: int| (edges[k].0, edges[k].1))
}

/// The region of a cave of the given size.
pub open spec fn region_of(size: UVec2) -> Rect {
    Rect { min: UVec2 { x: 0, y: 0 }, max: size }
}

/// The nodes that leaves become, in their order.
pub open spec fn nodes_of(leaves: Seq<Rect>) -> Seq<CaveNode> {
    Seq::new(leaves.len(), |i: int| node_of(leaves[i]))
}

/// A cave instance: its extent, its graph, how far it has been built, which
/// generation cycle it is in, and whether a job is out.
pub struct Caves {
    size: UVec2,
    graph: CaveGraph,
    phase: Phase,
    cycle: u64,
    outstanding: bool,
}

/// The rasterizing of one instance in one generation cycle, handed out.
pub struct Job {
    cycle: u64,
    size: UVec2,
    nodes: Vec<CaveNode>,
    edges: Vec<(usize, usize)>,
}

/// The tiles that a job made.
pub struct Finished {
    cycle: u64,
    tiles: SetTiles,
}

impl Job {
    /// The generation cycle in which the job was handed out.
    pub closed spec fn cycle(&self) -> u64 {
        self.cycle
    }

    /// The extent of the cave to paint.
    pub closed spec fn size(&self) -> UVec2 {
        self.size
    }

    /// The nodes to paint.
    pub closed spec fn nodes(&self) -> Seq<CaveNode> {
        self.nodes@
    }

    /// The pairs of nodes to dig tunnels between.
    pub closed spec fn edges(&self) -> Seq<(usize, usize)> {
        self.edges@
    }

    /// The job is one that can be painted.
    pub closed spec fn wf(&self) -> bool {
        &&& self.size.x <= MAX_SIDE
        &&& self.size.y <= MAX_SIDE
        &&& forall|i: int| 0 <= i < self.nodes.len() ==> (#[trigger] self.nodes[i]).wf()
        &&& forall|i: int|
            0 <= i < self.edges.len() ==> (#[trigger] self.edges[i]).0 < self.nodes.len()
                && self.edges[i].1 < self.nodes.len()
    }

    /// Does the job: paints the cave and reads out its tiles.
    pub fn run(&self, config: &Config, rng: &mut StdRng) -> (done: Finished)
        requires
            self.wf(),
            config.valid(),
        ensures
            done.cycle() == self.cycle(),
            exists|jitter: Seq<Seq<int>>|
                {
                    &&& #[trigger] is_jitter_for(jitter, self.edges(), *config)
                    &&& done.tiles() == rastered(
                        self.nodes(),
                        self.edges(),
                        self.size(),
                        *config,
                        jitter,
                    )
                },
    {
        let tiles: SetTiles = rasterize(&self.nodes, &self.edges, self.size, config, rng);
        proof {
            let jitter = choose|jitter: Seq<Seq<int>>|
                {
                    &&& #[trigger] is_jitter_for(jitter, self.edges@, *config)
                    &&& tiles.0@ == rastered(self.nodes@, self.edges@, self.size, *config, jitter)
                };
            assert(is_jitter_for(jitter, self.edges(), *config));
        }
        Finished { cycle: self.cycle, tiles }
    }
}

impl Finished {
    /// The generation cycle in which the job was handed out.
    pub closed spec fn cycle(&self) -> u64 {
        self.cycle
    }

    /// The tiles made.
    pub closed spec fn tiles(&self) -> Seq<(TilePos, TileType)> {
        self.tiles.0@
    }
}

impl Caves {
    /// The extent of the cave.
    pub closed spec fn size(&self) -> UVec2 {
        self.size
    }

    /// How far the instance has been built.
    pub closed spec fn phase(&self) -> Phase {
        self.phase
    }

    /// The nodes of the graph, by index.
    pub closed spec fn nodes(&self) -> Seq<CaveNode> {
        graph_nodes(self.graph)
    }

    /// The edges of the graph, by index.
    pub closed spec fn edges(&self) -> Seq<(usize, usize, CaveEdge)> {
        graph_edges(self.graph)
    }

    /// The generation cycle that the instance is in.
    pub closed spec fn cycle(&self) -> u64 {
        self.cycle
    }

    /// Whether a job is out.
    pub closed spec fn outstanding(&self) -> bool {
        self.outstanding
    }

    /// The instance fits the largest region; its nodes lie within it; its
    /// edges join nodes that it has, no node to itself, and are no more than
    /// each node may have; a new instance is empty, and there are no edges
    /// before the nodes are joined; a job is out only while the instance
    /// waits to be rasterized.
    pub open spec fn wf(&self) -> bool {
        &&& self.size().x <= MAX_SIDE
        &&& self.size().y <= MAX_SIDE
        &&& self.nodes().len() <= MAX_SIDE * MAX_SIDE
        &&& self.edges().len() <= 255 * self.nodes().len()
        &&& forall|i: int|
            0 <= i < self.nodes().len() ==> {
                &&& 0 <= (#[trigger] self.nodes()[i]).position.x <= self.size().x
                &&& 0 <= self.nodes()[i].position.y <= self.size().y
                &&& self.nodes()[i].radius <= MAX_SIDE
            }
        &&& forall|k: int|
            0 <= k < self.edges().len() ==> {
                &&& (#[trigger] self.edges()[k]).0 < self.nodes().len()
                &&& self.edges()[k].1 < self.nodes().len()
                &&& self.edges()[k].0 != self.edges()[k].1
            }
        &&& self.phase() == Phase::Created ==> self.nodes().len() == 0
        &&& self.phase() == Phase::Created || self.phase() == Phase::Seeded
            ==> self.edges().len() == 0
        &&& self.outstanding() ==> self.phase() == Phase::Connected
    }

    /// Whether `other` is this instance at another phase, in the same
    /// generation cycle.
    pub open spec fn moved_to(&self, other: Caves, phase: Phase) -> bool {
        &&& other.size() == self.size()
        &&& other.nodes() == self.nodes()
        &&& other.edges() == self.edges()
        &&& other.cycle() == self.cycle()
        &&& other.phase() == phase
    }

    /// A new, empty instance.
    pub fn new(size: UVec2) -> (caves: Caves)
        requires
            size.x <= MAX_SIDE,
            size.y <= MAX_SIDE,
        ensures
            caves.wf(),
            caves.size() == size,
            caves.phase() == Phase::Created,
            caves.nodes().len() == 0,
            caves.edges().len() == 0,
            caves.cycle() == 0,
            !caves.outstanding(),
    {
        Caves { size, graph: graph_new(), phase: Phase::Created, cycle: 0, outstanding: false }
    }

    /// The extent of the cave.
    pub fn extent(&self) -> (size: UVec2)
        ensures
            size == self.size(),
    {
        self.size
    }

    /// How far the instance has been built.
    pub fn stage(&self) -> (phase: Phase)
        ensures
            phase == self.phase(),
    {
        self.phase
    }

    /// The mark of an instance that is not finished yet.
    pub fn generating(&self) -> (mark: Option<Generating>)
        ensures
            mark is Some <==> self.phase() != Phase::Finished,
    {
        match self.phase {
            Phase::Finished => None,
            _ => Some(Generating),
        }
    }

    /// The nodes of a finished instance, by index; `None` while it is being
    /// built.
    pub fn node_weights(&self) -> (nodes: Option<Vec<CaveNode>>)
        requires
            self.wf(),
        ensures
            nodes is Some <==> self.phase() == Phase::Finished,
            nodes matches Some(list) ==> list@ == self.nodes(),
    {
        match self.phase {
            Phase::Finished => Some(self.node_list()),
            _ => None,
        }
    }

    /// The edges of a finished instance, by index; `None` while it is being
    /// built.
    pub fn edge_references(&self) -> (edges: Option<Vec<(usize, usize, CaveEdge)>>)
        requires
            self.wf(),
        ensures
            edges is Some <==> self.phase() == Phase::Finished,
            edges matches Some(list) ==> list@ == self.edges(),
    {
        match self.phase {
            Phase::Finished => Some(self.edge_list()),
            _ => None,
        }
    }

    fn node_list(&self) -> (nodes: Vec<CaveNode>)
        requires
            self.wf(),
        ensures
            nodes@ == self.nodes(),
    {
        let count: usize = graph_node_count(&self.graph);
        let mut nodes: Vec<CaveNode> = Vec::new();
        let mut i: usize = 0;
        while i < count
            invariant
                i <= count,
                count == self.nodes().len(),
                count <= MAX_SIDE * MAX_SIDE,
                nodes.len() == i,
                forall|k: int| 0 <= k < i ==> #[trigger] nodes[k] == self.nodes()[k],
            decreases count - i,
        {
            match graph_node(&self.graph, i) {
                Some(node) => {
                    nodes.push(node);
                },
                None => {},
            }
            i = i + 1;
        }
        assert(nodes@ =~= self.nodes());
        nodes
    }

    fn edge_list(&self) -> (edges: Vec<(usize, usize, CaveEdge)>)
        requires
            self.wf(),
        ensures
            edges@ == self.edges(),
    {
        let count: usize = graph_edge_count(&self.graph);
        let mut edges: Vec<(usize, usize, CaveEdge)> = Vec::new();
        let mut i: usize = 0;
        while i < count
            invariant
                i <= count,
                count == self.edges().len(),
                count <= 255 * (MAX_SIDE * MAX_SIDE),
                edges.len() == i,
                forall|k: int| 0 <= k < i ==> #[trigger] edges[k] == self.edges()[k],
            decreases count - i,
        {
            match (graph_edge_endpoints(&self.graph, i), graph_edge_weight(&self.graph, i)) {
                (Some(ends), Some(weight)) => {
                    edges.push((ends.0, ends.1, weight));
                },
                _ => {},
            }
            i = i + 1;
        }
        assert(edges@ =~= self.edges());
        edges
    }

    fn endpoint_list(&self) -> (ends: Vec<(usize, usize)>)
        requires
            self.wf(),
        ensures
            ends@ == endpoints(self.edges()),
    {
        let edges: Vec<(usize, usize, CaveEdge)> = self.edge_list();
        let mut ends: Vec<(usize, usize)> = Vec::new();
        let mut k: usize = 0;
        while k < edges.len()
            invariant
                k <= edges.len(),
                ends.len() == k,
                forall|j: int| 0 <= j < k ==> #[trigger] ends[j] == (edges[j].0, edges[j].1),
            decreases edges.len() - k,
        {
            ends.push((edges[k].0, edges[k].1));
            k = k + 1;
        }
        assert(ends@ =~= endpoints(self.edges()));
        ends
    }
}

/// The tunables that cave generation starts with.
pub fn caves_plugin() -> (config: Config)
    ensures
        config.valid(),
        config == (Config {
            min_area: 16,
            grid_size: 64,
            edge_neighbors: 3,
            tunnel_segments: 10,
            tunnel_angle: 45,
            tunnel_thickness: 100,
            node_radius_factor: 100,
            node_color_factor: 256,
            edge_color_factor: 256,
            trunc_falloff_factor: 50,
        }),
{
    Config {
        min_area: 16,
        grid_size: 64,
        edge_neighbors: 3,
        tunnel_segments: 10,
        tunnel_angle: 45,
        tunnel_thickness: 100,
        node_radius_factor: 100,
        node_color_factor: 256,
        edge_color_factor: 256,
        trunc_falloff_factor: 50,
    }
}

/// Seeds a new instance: partitions its region at random and makes each leaf
/// a node, in the order of the leaves. An instance at any other phase is
/// left as it is.
pub fn seed(caves: &mut Caves, config: &Config, rng: &mut StdRng)
    requires
        old(caves).wf(),
        config.valid(),
    ensures
        final(caves).wf(),
        final(caves).size() == old(caves).size(),
        final(caves).cycle() == old(caves).cycle(),
        final(caves).outstanding() == old(caves).outstanding(),
        final(caves).phase() == old(caves).phase().after(Stage::Seed),
        old(caves).phase() == Phase::Created ==> final(caves).edges().len() == 0,
        old(caves).phase() == Phase::Created ==> exists|leaves: Seq<Rect>|
            {
                &&& #[trigger] partitions(leaves, region_of(old(caves).size()), *config)
                &&& final(caves).nodes() == nodes_of(leaves)
            },
        old(caves).phase() != Phase::Created ==> old(caves).moved_to(
            *final(caves),
            old(caves).phase(),
        ),
{
    match caves.phase {
        Phase::Created => {},
        _ => {
            return ;
        },
    }
    let leaves: Vec<Rect> = random_bsp(caves.size, config, rng);
    let ghost size = caves.size;
    proof {
        assert(size.x * size.y <= 4096 * 4096) by (nonlinear_arith)
            requires
                0 <= size.x <= 4096,
                0 <= size.y <= 4096,
        ;
        assert(leaves@.len() <= 4096 * 4096);
    }
    let mut i: usize = 0;
    while i < leaves.len()
        invariant
            i <= leaves.len(),
            leaves.len() <= MAX_SIDE * MAX_SIDE,
            caves.size() == size,
            size.x <= MAX_SIDE,
            size.y <= MAX_SIDE,
            partitions(leaves@, region_of(size), *config),
            caves.phase() == Phase::Created,
            caves.cycle() == old(caves).cycle(),
            !caves.outstanding(),
            caves.edges().len() == 0,
            caves.nodes() == nodes_of(leaves@.take(i as int)),
        decreases leaves.len() - i,
    {
        assert(leaves[i as int].wf());
        let node: CaveNode = leaf_node(&leaves[i]);
        graph_add_node(&mut caves.graph, node);
        assert(caves.nodes() =~= nodes_of(leaves@.take(i + 1))) by {
            assert(leaves@.take(i + 1).len() == i + 1);
            assert(forall|k: int| 0 <= k < i ==> leaves@.take(i + 1)[k] == leaves@.take(i as int)[k]);
        }
        i = i + 1;
    }
    caves.phase = Phase::Seeded;
    proof {
        assert(leaves@.take(leaves.len() as int) =~= leaves@);
        assert forall|k: int| 0 <= k < caves.nodes().len() implies {
            &&& 0 <= (#[trigger] caves.nodes()[k]).position.x <= size.x
            &&& 0 <= caves.nodes()[k].position.y <= size.y
            &&& caves.nodes()[k].radius <= MAX_SIDE
        } by {
            assert(leaves@[k].wf());
            assert(leaves@[k].within(region_of(size)));
        }
    }
}

/// Picks from what a query found the neighbours that a node is joined to.
pub fn choose_neighbors(found: &Vec<usize>, node: usize, limit: u8) -> (picked: Vec<usize>)
    ensures
        picked@ == chosen(found@, node, limit as nat),
        picked.len() <= limit,
        forall|k: int|
            0 <= k < picked.len() ==> #[trigger] picked[k] != node && found@.contains(picked[k]),
{
    let mut picked: Vec<usize> = Vec::new();
    let mut k: usize = 0;
    assert(found@.take(0) =~= Seq::<usize>::empty());
    while k < found.len()
        invariant
            k <= found.len(),
            picked@ == chosen(found@.take(k as int), node, limit as nat),
            picked.len() <= limit,
            forall|j: int|
                0 <= j < picked.len() ==> #[trigger] picked[j] != node && found@.contains(picked[j]),
        decreases found.len() - k,
    {
        proof {
            assert(found@.take(k + 1).drop_last() =~= found@.take(k as int));
            assert(found@.take(k + 1).last() == found[k as int]);
        }
        if found[k] != node && picked.len() < limit as usize {
            picked.push(found[k]);
        }
        k = k + 1;
    }
    assert(found@.take(found.len() as int) =~= found@);
    picked
}

/// Joins the nodes of a seeded instance: each node, in the order of the
/// nodes, to its neighbours, by an edge of width one. An instance at any
/// other phase is left as it is.
pub fn connect(caves: &mut Caves, config: &Config)
    requires
        old(caves).wf(),
        config.valid(),
    ensures
        final(caves).wf(),
        final(caves).size() == old(caves).size(),
        final(caves).nodes() == old(caves).nodes(),
        final(caves).cycle() == old(caves).cycle(),
        final(caves).outstanding() == old(caves).outstanding(),
        final(caves).phase() == old(caves).phase().after(Stage::Connect),
        old(caves).phase() == Phase::Seeded ==> final(caves).edges() == links(
            old(caves).nodes(),
            old(caves).size(),
            *config,
            old(caves).nodes().len(),
        ),
        old(caves).phase() != Phase::Seeded ==> final(caves).edges() == old(caves).edges(),
{
    match caves.phase {
        Phase::Seeded => {},
        _ => {
            return ;
        },
    }
    let nodes: Vec<CaveNode> = caves.node_list();
    let index: SpatialIndex = build_index(&nodes, caves.size, config);
    let ghost size = caves.size;
    let mut i: usize = 0;
    assert(caves.edges() =~= links(nodes@, size, *config, 0));
    while i < nodes.len()
        invariant
            i <= nodes.len(),
            config.valid(),
            caves.size() == size,
            caves.phase() == Phase::Seeded,
            caves.cycle() == old(caves).cycle(),
            !caves.outstanding(),
            caves.nodes() == nodes@,
            nodes.len() <= MAX_SIDE * MAX_SIDE,
            index.wf(),
            index@ == positions(nodes@),
            index.cell_size() == config.grid_size,
            index.extent() == size,
            caves.edges() == links(nodes@, size, *config, i as nat),
            caves.edges().len() <= 255 * i,
            forall|k: int|
                0 <= k < caves.edges().len() ==> {
                    &&& (#[trigger] caves.edges()[k]).0 < nodes.len()
                    &&& caves.edges()[k].1 < nodes.len()
                    &&& caves.edges()[k].0 != caves.edges()[k].1
                },
        decreases nodes.len() - i,
    {
        let node: CaveNode = nodes[i];
        let found: Vec<usize> = index.query_around(node.position, node.radius);
        let picked: Vec<usize> = choose_neighbors(&found, i, config.edge_neighbors);
        let ghost done = caves.edges();
        let mut k: usize = 0;
        proof {
            assert(positions(nodes@)[i as int] == node.position);
            assert(picked@ == neighbors_of(nodes@, size, *config, i as int));
            assert(done + links_to(i, picked@.take(0)) =~= done);
        }
        while k < picked.len()
            invariant
                k <= picked.len(),
                picked.len() <= 255,
                i < nodes.len(),
                nodes.len() <= MAX_SIDE * MAX_SIDE,
                caves.size() == size,
                caves.phase() == Phase::Seeded,
                caves.cycle() == old(caves).cycle(),
                !caves.outstanding(),
                caves.nodes() == nodes@,
                done.len() <= 255 * i,
                caves.edges() == done + links_to(i, picked@.take(k as int)),
                forall|j: int|
                    0 <= j < picked.len() ==> #[trigger] picked[j] != i && picked[j] < nodes.len(),
                forall|j: int|
                    0 <= j < caves.edges().len() ==> {
                        &&& (#[trigger] caves.edges()[j]).0 < nodes.len()
                        &&& caves.edges()[j].1 < nodes.len()
                        &&& caves.edges()[j].0 != caves.edges()[j].1
                    },
            decreases picked.len() - k,
        {
            graph_add_edge(&mut caves.graph, i, picked[k], CaveEdge { width: 1 });
            proof {
                assert(links_to(i, picked@.take(k + 1)) =~= links_to(i, picked@.take(k as int)).push(
                    (i, picked[k as int], CaveEdge { width: 1 }),
                ));
                assert(caves.edges() =~= done + links_to(i, picked@.take(k + 1)));
            }
            k = k + 1;
        }
        proof {
            assert(picked@.take(picked.len() as int) =~= picked@);
            assert(caves.edges() =~= links(nodes@, size, *config, (i + 1) as nat));
        }
        i = i + 1;
    }
    caves.phase = Phase::Connected;
}

/// Files the positions of the nodes in a spatial index, in their order.
fn build_index(nodes: &Vec<CaveNode>, size: UVec2, config: &Config) -> (index: SpatialIndex)
    requires
        config.valid(),
        size.x <= MAX_SIDE,
        size.y <= MAX_SIDE,
        forall|i: int|
            0 <= i < nodes.len() ==> 0 <= (#[trigger] nodes[i]).position.x <= size.x && 0
                <= nodes[i].position.y <= size.y,
    ensures
        index.wf(),
        index@ == positions(nodes@),
        index.cell_size() == config.grid_size,
        index.extent() == size,
{
    let mut index: SpatialIndex = SpatialIndex::new(config.grid_size, size);
    let mut i: usize = 0;
    while i < nodes.len()
        invariant
            i <= nodes.len(),
            index.wf(),
            index.cell_size() == config.grid_size,
            index.extent() == size,
            index@ == positions(nodes@.take(i as int)),
            forall|i: int|
                0 <= i < nodes.len() ==> 0 <= (#[trigger] nodes[i]).position.x <= size.x && 0
                    <= nodes[i].position.y <= size.y,
        decreases nodes.len() - i,
    {
        index.insert(nodes[i].position);
        assert(index@ =~= positions(nodes@.take(i + 1)));
        i = i + 1;
    }
    assert(nodes@.take(nodes.len() as int) =~= nodes@);
    index
}

/// Paints a connected instance and hands out its tiles: the discs of the
/// nodes, then the tunnels along the edges, on a canvas of walls of the
/// cave's size. An instance at any other phase is left as it is and yields
/// nothing. A job that is out is waited for no longer.
pub fn populate_tiles(caves: &mut Caves, config: &Config, rng: &mut StdRng) -> (tiles: Option<
    SetTiles,
>)
    requires
        old(caves).wf(),
        config.valid(),
    ensures
        final(caves).wf(),
        old(caves).moved_to(*final(caves), old(caves).phase().after(Stage::PopulateTiles)),
        !final(caves).outstanding(),
        tiles is Some <==> old(caves).phase() == Phase::Connected,
        tiles matches Some(set) ==> exists|jitter: Seq<Seq<int>>|
            {
                &&& #[trigger] is_jitter_for(jitter, endpoints(old(caves).edges()), *config)
                &&& set.0@ == rastered(
                    old(caves).nodes(),
                    endpoints(old(caves).edges()),
                    old(caves).size(),
                    *config,
                    jitter,
                )
            },
{
    match caves.phase {
        Phase::Connected => {},
        _ => {
            return None;
        },
    }
    let nodes: Vec<CaveNode> = caves.node_list();
    let ends: Vec<(usize, usize)> = caves.endpoint_list();
    assert forall|i: int| 0 <= i < nodes.len() implies (#[trigger] nodes[i]).wf() by {
        assert(caves.nodes()[i].radius <= MAX_SIDE);
    }
    assert forall|i: int| 0 <= i < ends.len() implies (#[trigger] ends[i]).0 < nodes.len()
        && ends[i].1 < nodes.len() by {
        assert(caves.edges()[i].0 < caves.nodes().len());
    }
    let tiles: SetTiles = rasterize(&nodes, &ends, caves.size, config, rng);
    caves.phase = Phase::Rasterized;
    caves.outstanding = false;
    Some(tiles)
}

/// Hands out the rasterizing of a connected instance as a job, unless one is
/// out already. The instance stays as it is but for remembering the job.
pub fn submit(caves: &mut Caves) -> (job: Option<Job>)
    requires
        old(caves).wf(),
    ensures
        final(caves).wf(),
        old(caves).moved_to(*final(caves), old(caves).phase()),
        job is Some <==> old(caves).phase() == Phase::Connected && !old(caves).outstanding(),
        final(caves).outstanding() == (old(caves).outstanding() || job is Some),
        job matches Some(j) ==> {
            &&& j.wf()
            &&& j.cycle() == old(caves).cycle()
            &&& j.size() == old(caves).size()
            &&& j.nodes() == old(caves).nodes()
            &&& j.edges() == endpoints(old(caves).edges())
        },
{
    match caves.phase {
        Phase::Connected => {},
        _ => {
            return None;
        },
    }
    if caves.outstanding {
        return None;
    }
    let nodes: Vec<CaveNode> = caves.node_list();
    let edges: Vec<(usize, usize)> = caves.endpoint_list();
    assert forall|i: int| 0 <= i < nodes.len() implies (#[trigger] nodes[i]).wf() by {
        assert(caves.nodes()[i].radius <= MAX_SIDE);
    }
    assert forall|i: int| 0 <= i < edges.len() implies (#[trigger] edges[i]).0 < nodes.len()
        && edges[i].1 < nodes.len() by {
        assert(caves.edges()[i].0 < caves.nodes().len());
    }
    caves.outstanding = true;
    Some(Job { cycle: caves.cycle, size: caves.size, nodes, edges })
}

/// Asks after the job that is out, without waiting: `done` is what has come
/// back, if anything has. The tiles are applied, and the instance moves on
/// to `Rasterized`, when a job is out and what came back belongs to the
/// generation cycle that the instance is in. Anything else that came back
/// is dropped, and the instance stays as it is.
pub fn poll(caves: &mut Caves, done: Option<Finished>) -> (tiles: Option<SetTiles>)
    requires
        old(caves).wf(),
    ensures
        final(caves).wf(),
        tiles is Some <==> old(caves).outstanding() && done is Some
            && done->0.cycle() == old(caves).cycle(),
        tiles matches Some(set) ==> set.0@ == done->0.tiles() && !final(caves).outstanding()
            && old(caves).moved_to(*final(caves), Phase::Rasterized),
        tiles is None ==> final(caves).outstanding() == old(caves).outstanding()
            && old(caves).moved_to(*final(caves), old(caves).phase()),
{
    match done {
        Some(finished) => {
            if caves.outstanding && finished.cycle == caves.cycle {
                caves.outstanding = false;
                caves.phase = Phase::Rasterized;
                Some(finished.tiles)
            } else {
                None
            }
        },
        None => None,
    }
}

/// Finishes a rasterized instance: from now on its graph is handed out. An
/// instance at any other phase is left as it is.
pub fn finish(caves: &mut Caves)
    requires
        old(caves).wf(),
    ensures
        final(caves).wf(),
        old(caves).moved_to(*final(caves), old(caves).phase().after(Stage::Finish)),
        final(caves).outstanding() == old(caves).outstanding(),
{
    match caves.phase {
        Phase::Rasterized => {
            caves.phase = Phase::Finished;
        },
        _ => {},
    }
}

/// Discards an instance on the signal and starts a fresh one of the same
/// size, in the next generation cycle. A job that is out is waited for no
/// longer, and what it brings back will belong to a cycle gone by.
pub fn regen(signal: Regen, caves: &mut Caves)
    requires
        old(caves).wf(),
    ensures
        final(caves).wf(),
        final(caves).size() == old(caves).size(),
        final(caves).phase() == Phase::Created,
        final(caves).nodes().len() == 0,
        final(caves).edges().len() == 0,
        final(caves).cycle() != old(caves).cycle(),
        final(caves).cycle() == if old(caves).cycle() < u64::MAX {
            (old(caves).cycle() + 1) as u64
        } else {
            0u64
        },
        !final(caves).outstanding(),
{
    caves.graph = graph_new();
    caves.phase = Phase::Created;
    caves.cycle = if caves.cycle < u64::MAX {
        caves.cycle + 1
    } else {
        0
    };
    caves.outstanding = false;
}

/// Gives a finished instance that has no flow field yet a field of its size
/// over the given tile grid, together with the request to compute it.
pub fn insert_dmap(caves: &Caves, cave: u64, tile_storage: u64, has_dmap: bool) -> (inserted:
    Option<(DMap, UpdateDMap)>)
    requires
        caves.wf(),
    ensures
        inserted is Some <==> caves.phase() == Phase::Finished && !has_dmap,
        inserted matches Some(pair) ==> {
            &&& pair.0.wf()
            &&& pair.0.width() == caves.size().x
            &&& pair.0.height() == caves.size().y
            &&& pair.0.tile_storage() == tile_storage
            &&& forall|x: int, y: int| cell_at(pair.0@, x, y) is None
            &&& pair.1 == UpdateDMap(cave)
        },
{
    match caves.phase {
        Phase::Finished => {
            if has_dmap {
                None
            } else {
                Some(
                    (
                        DMap::new(caves.size.x as usize, caves.size.y as usize, tile_storage),
                        UpdateDMap(cave),
                    ),
                )
            }
        },
        _ => None,
    }
}

} // verus!
