//! The tunables of cave generation.

use vstd::prelude::*;

verus! {

/// Named tunables of the generator. Factors are in thousandths (`100` is one
/// tenth), the tunnel angle in whole degrees.
#[derive(Clone, Copy, Debug, PartialEq, Eq, Structural)]
pub struct Config {
    /// A rectangle with fewer cells than this is never split.
    pub min_area: u32,
    /// Side of a bucket of the spatial index, in cells.
    pub grid_size: u32,
    /// How many neighbours a node is joined to at most.
    pub edge_neighbors: u8,
    /// How many discs make up a tunnel.
    pub tunnel_segments: u32,
    /// Largest jitter of a tunnel's direction, in degrees to either side.
    pub tunnel_angle: u32,
    /// Scales the radii of a tunnel's discs, in thousandths.
    pub tunnel_thickness: u16,
    /// Scales the radius of a node's disc, in thousandths.
    pub node_radius_factor: u16,
    /// Length of the colour ramp for nodes; read by a renderer only.
    pub node_color_factor: u16,
    /// Length of the colour ramp for edges; read by a renderer only.
    pub edge_color_factor: u16,
    /// Largest chance of keeping a rectangle whole, in thousandths.
    pub trunc_falloff_factor: u16,
}

impl Config {
    /// Every count and factor is positive and the angle is at most a right
    /// angle.
    pub open spec fn valid(&self) -> bool {
        &&& self.min_area > 0
        &&& self.grid_size > 0
        &&& self.edge_neighbors > 0
        &&& self.tunnel_segments > 0
        &&& self.tunnel_angle <= 90
        &&& self.tunnel_thickness > 0
        &&& self.node_radius_factor > 0
        &&& self.trunc_falloff_factor > 0
    }

    /// Tests [`Config::valid`].
    pub fn is_valid(&self) -> (ok: bool)
        ensures
            ok == self.valid(),
    {
        self.min_area > 0 && self.grid_size > 0 && self.edge_neighbors > 0
            && self.tunnel_segments > 0 && self.tunnel_angle <= 90 && self.tunnel_thickness > 0
            && self.node_radius_factor > 0 && self.trunc_falloff_factor > 0
    }
}

} // verus!
