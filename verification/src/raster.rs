//! Painting nodes and tunnels as discs of floor onto a canvas of walls.
//!
//! The canvas is a grey image of the `image` crate and the discs are drawn by
//! `imageproc`. Which pixels a disc covers is that crate's business; the
//! library says exactly which discs are drawn, in which order, and how the
//! finished canvas is read out as tiles.

use crate::config::Config;
use crate::geometry::{IVec2, UVec2, MAX_SIDE};
use crate::math::{div_toward_zero, toward_zero, THOUSAND};
use crate::partition::CaveNode;
use crate::random::draw_between;
use crate::terrain::{SetTiles, TilePos, TileType};
use rand::rngs::StdRng;
use vstd::prelude::*;

verus! {

/// The grey value of a pixel of floor. Every other value is wall.
pub const FLOOR_PIXEL: u8 = 255;

/// Centres and radii handed to the drawing routine stay within this.
pub const PAINT_LIMIT: i32 = 1048576;

/// A grey image, one byte a pixel.
#[verifier::external_body]
pub struct Canvas {
    image: image::GrayImage,
}

/// The pixels of a canvas row by row: the pixel `(x, y)` stands at
/// `y * width + x`.
pub uninterp spec fn canvas_pixels(canvas: Canvas) -> Seq<u8>;

/// The width of a canvas in pixels.
pub uninterp spec fn canvas_width(canvas: Canvas) -> nat;

/// The pixels of an image of the given width after `imageproc` has drawn a
/// filled circle on it.
pub uninterp spec fn circle_filled(
    pixels: Seq<u8>,
    width: nat,
    x: int,
    y: int,
    radius: int,
    color: u8,
) -> Seq<u8>;

/// `ImageBuffer::new` of `image`. Believed of it: the image has the given
/// width, `width * height` pixels, and all of them are zero. It panics where
/// the buffer would be longer than a vector can be.
#[verifier::external_body]
fn canvas_new(width: u32, height: u32) -> (canvas: Canvas)
    requires
        width * height <= 0x7fff_ffff,
    ensures
        canvas_width(canvas) == width,
        canvas_pixels(canvas) == Seq::new((width * height) as nat, |i: int| 0u8),
{
    Canvas { image: image::GrayImage::new(width, height) }
}

/// `draw_filled_circle_mut` of `imageproc`. Believed of it: the image keeps
/// its size, and its pixels afterwards depend only on its pixels before, its
/// width, and the circle and colour given. The bounds keep the routine's
/// 32-bit arithmetic from overflowing.
#[verifier::external_body]
fn canvas_fill_circle(canvas: &mut Canvas, x: i32, y: i32, radius: i32, color: u8)
    requires
        -PAINT_LIMIT <= x <= PAINT_LIMIT,
        -PAINT_LIMIT <= y <= PAINT_LIMIT,
        0 <= radius <= PAINT_LIMIT,
    ensures
        canvas_width(*final(canvas)) == canvas_width(*old(canvas)),
        canvas_pixels(*final(canvas)).len() == canvas_pixels(*old(canvas)).len(),
        canvas_pixels(*final(canvas)) == circle_filled(
            canvas_pixels(*old(canvas)),
            canvas_width(*old(canvas)),
            x as int,
            y as int,
            radius as int,
            color,
        ),
{
    imageproc::drawing::draw_filled_circle_mut(
        &mut canvas.image,
        (x, y),
        radius,
        image::Luma([color]),
    );
}

/// `ImageBuffer::into_raw` of `image`. Believed of it: it hands out the
/// pixels row by row.
#[verifier::external_body]
fn canvas_into_pixels(canvas: Canvas) -> (pixels: Vec<u8>)
    ensures
        pixels@ == canvas_pixels(canvas),
{
    canvas.image.into_raw()
}

/// A filled circle to paint.
#[derive(Clone, Copy, Debug, PartialEq, Eq, Structural)]
pub struct Disc {
    pub center: IVec2,
    pub radius: i32,
}

impl Disc {
    /// The disc is one that the drawing routine takes.
    pub open spec fn paintable(&self) -> bool {
        &&& -PAINT_LIMIT <= self.center.x <= PAINT_LIMIT
        &&& -PAINT_LIMIT <= self.center.y <= PAINT_LIMIT
        &&& 0 <= self.radius <= PAINT_LIMIT
    }
}

/// The pixels after one disc of floor has been painted.
pub open spec fn painted(pixels: Seq<u8>, width: nat, disc: Disc) -> Seq<u8> {
    circle_filled(
        pixels,
        width,
        disc.center.x as int,
        disc.center.y as int,
        disc.radius as int,
        FLOOR_PIXEL,
    )
}

/// The pixels after the discs have been painted one after the other.
pub open spec fn painted_all(pixels: Seq<u8>, width: nat, discs: Seq<Disc>) -> Seq<u8>
    decreases discs.len(),
{
    if discs.len() == 0 {
        pixels
    } else {
        painted(painted_all(pixels, width, discs.drop_last()), width, discs.last())
    }
}

/// The sine of an angle between 0 and 180 degrees, in thousandths, by
/// Bhaskara's rational approximation `4 d (180 - d) / (40500 - d (180 - d))`.
pub open spec fn sine_of(degrees: int) -> int {
    (4 * THOUSAND * (degrees * (180 - degrees))) / (40500 - degrees * (180 - degrees))
}

/// `v` turned counter-clockwise by an angle between -90 and 90 degrees, each
/// component rounded toward zero.
pub open spec fn rotated(v: IVec2, degrees: int) -> IVec2 {
    let turn = if degrees >= 0 {
        degrees
    } else {
        -degrees
    };
    let cosine = sine_of(90 - turn);
    let sine = if degrees >= 0 {
        sine_of(turn)
    } else {
        -sine_of(turn)
    };
    IVec2 {
        x: toward_zero(v.x * cosine - v.y * sine, THOUSAND as int) as i32,
        y: toward_zero(v.x * sine + v.y * cosine, THOUSAND as int) as i32,
    }
}

/// The disc of a node: at its position, its radius scaled by the node radius
/// factor and rounded down.
pub open spec fn node_disc_of(node: CaveNode, config: Config) -> Disc {
    Disc {
        center: node.position,
        radius: ((node.radius * config.node_radius_factor) / (THOUSAND as int)) as i32,
    }
}

/// Disc number `i` of the tunnel from `a` to `b`, its direction turned by
/// `degrees`. With `t = (i / segments)^2`, it lies at `a` plus `t` times the
/// turned direction, rounded toward zero, and its radius is the tunnel
/// thickness times the radius interpolated from `a` at `t = 0` to `b` at
/// `t = 1`, rounded down.
pub open spec fn tunnel_disc_of(a: CaveNode, b: CaveNode, i: int, config: Config, degrees: int)
    -> Disc {
    let whole = config.tunnel_segments * config.tunnel_segments;
    let part = i * i;
    let dir = rotated(
        IVec2 {
            x: (b.position.x - a.position.x) as i32,
            y: (b.position.y - a.position.y) as i32,
        },
        degrees,
    );
    Disc {
        center: IVec2 {
            x: (a.position.x + toward_zero(dir.x * part, whole)) as i32,
            y: (a.position.y + toward_zero(dir.y * part, whole)) as i32,
        },
        radius: ((config.tunnel_thickness * (b.radius * part + a.radius * (whole - part))) / (
        THOUSAND * whole)) as i32,
    }
}

/// One turn for each disc of a tunnel, none beyond the tunnel angle.
pub open spec fn is_jitter(turns: Seq<int>, config: Config) -> bool {
    &&& turns.len() == config.tunnel_segments
    &&& forall|i: int|
        0 <= i < turns.len() ==> -config.tunnel_angle <= #[trigger] turns[i]
            <= config.tunnel_angle
}

/// One jitter for each edge.
pub open spec fn is_jitter_for(jitter: Seq<Seq<int>>, edges: Seq<(usize, usize)>, config: Config)
    -> bool {
    &&& jitter.len() == edges.len()
    &&& forall|e: int| 0 <= e < jitter.len() ==> is_jitter(#[trigger] jitter[e], config)
}

/// The discs of the tunnel from `a` to `b` for the given turns.
pub open spec fn tunnel_discs(a: CaveNode, b: CaveNode, config: Config, turns: Seq<int>) -> Seq<
    Disc,
> {
    Seq::new(turns.len(), |i: int| tunnel_disc_of(a, b, i, config, turns[i]))
}

/// The discs of the nodes, in their order.
pub open spec fn node_discs(nodes: Seq<CaveNode>, config: Config) -> Seq<Disc> {
    Seq::new(nodes.len(), |i: int| node_disc_of(nodes[i], config))
}

/// The discs of the tunnels along the edges, in the order of the edges, with
/// one sequence of turns for each edge.
pub open spec fn edge_discs(
    nodes: Seq<CaveNode>,
    edges: Seq<(usize, usize)>,
    config: Config,
    jitter: Seq<Seq<int>>,
) -> Seq<Disc>
    decreases edges.len(),
{
    if edges.len() == 0 {
        Seq::empty()
    } else {
        edge_discs(nodes, edges.drop_last(), config, jitter.drop_last()) + tunnel_discs(
            nodes[edges.last().0 as int],
            nodes[edges.last().1 as int],
            config,
            jitter.last(),
        )
    }
}

/// The tiles read off a canvas: pixel number `i` is the tile
/// `(i % width, i / width)`, floor where it has the floor value.
pub open spec fn tiles_of(pixels: Seq<u8>, width: nat) -> Seq<(TilePos, TileType)> {
    Seq::new(
        pixels.len(),
        |i: int|
            (
                TilePos { x: (i % width as int) as u32, y: (i / width as int) as u32 },
                if pixels[i] == FLOOR_PIXEL {
                    TileType::Floor
                } else {
                    TileType::Wall
                },
            ),
    )
}

/// The tiles of a cave of the given size: on a canvas of walls, first the
/// discs of the nodes, then the tunnels along the edges.
pub open spec fn rastered(
    nodes: Seq<CaveNode>,
    edges: Seq<(usize, usize)>,
    size: UVec2,
    config: Config,
    jitter: Seq<Seq<int>>,
) -> Seq<(TilePos, TileType)> {
    tiles_of(
        painted_all(
            Seq::new((size.x * size.y) as nat, |i: int| 0u8),
            size.x as nat,
            node_discs(nodes, config) + edge_discs(nodes, edges, config, jitter),
        ),
        size.x as nat,
    )
}

proof fn lemma_painted_push(pixels: Seq<u8>, width: nat, discs: Seq<Disc>, disc: Disc)
    ensures
        painted_all(pixels, width, discs.push(disc)) == painted(
            painted_all(pixels, width, discs),
            width,
            disc,
        ),
{
    assert(discs.push(disc).drop_last() =~= discs);
}

proof fn lemma_painted_concat(pixels: Seq<u8>, width: nat, first: Seq<Disc>, second: Seq<Disc>)
    ensures
        painted_all(pixels, width, first + second) == painted_all(
            painted_all(pixels, width, first),
            width,
            second,
        ),
    decreases second.len(),
{
    if second.len() == 0 {
        assert(first + second =~= first);
    } else {
        lemma_painted_concat(pixels, width, first, second.drop_last());
        assert((first + second).drop_last() =~= first + second.drop_last());
        assert((first + second).last() == second.last());
    }
}

/// The sine of an angle between 0 and 180 degrees, in thousandths.
pub fn sine(degrees: u32) -> (s: u32)
    requires
        degrees <= 180,
    ensures
        s == sine_of(degrees as int),
        s <= THOUSAND,
        degrees == 0 ==> s == 0,
        degrees == 90 ==> s == THOUSAND,
{
    assert(0 <= degrees * (180 - degrees) <= 8100) by (nonlinear_arith)
        requires
            0 <= degrees <= 180,
    ;
    let p: u32 = degrees * (180 - degrees);
    let s: u32 = 4000 * p / (40500 - p);
    proof {
        assert(4 * THOUSAND * (degrees * (180 - degrees)) == 4000 * p) by (nonlinear_arith)
            requires
                p == degrees * (180 - degrees),
                THOUSAND == 1000,
        ;
        assert((4000 * p) / (40500 - p) <= 1000) by (nonlinear_arith)
            requires
                0 <= p <= 8100,
        ;
        if degrees == 90 {
            assert(degrees * (180 - degrees) == 8100) by (nonlinear_arith)
                requires
                    degrees == 90,
            ;
            assert(32400000int / 32400 == 1000);
        }
        if degrees == 0 {
            assert(degrees * (180 - degrees) == 0) by (nonlinear_arith)
                requires
                    degrees == 0,
            ;
        }
    }
    s
}

/// Turns `v` counter-clockwise by `degrees`.
pub fn rotate(v: IVec2, degrees: i32) -> (r: IVec2)
    requires
        -90 <= degrees <= 90,
        -MAX_SIDE <= v.x <= MAX_SIDE,
        -MAX_SIDE <= v.y <= MAX_SIDE,
    ensures
        r == rotated(v, degrees as int),
        -2 * MAX_SIDE <= r.x <= 2 * MAX_SIDE,
        -2 * MAX_SIDE <= r.y <= 2 * MAX_SIDE,
        degrees == 0 ==> r == v,
{
    let turn: u32 = if degrees >= 0 {
        degrees as u32
    } else {
        (-degrees) as u32
    };
    let cosine: i64 = sine(90 - turn) as i64;
    let sine: i64 = if degrees >= 0 {
        sine(turn) as i64
    } else {
        -(sine(turn) as i64)
    };
    let x: i64 = v.x as i64;
    let y: i64 = v.y as i64;
    assert(-4096000 <= x * cosine <= 4096000 && -4096000 <= y * sine <= 4096000 && -4096000 <= x
        * sine <= 4096000 && -4096000 <= y * cosine <= 4096000) by (nonlinear_arith)
        requires
            -4096 <= x <= 4096,
            -4096 <= y <= 4096,
            0 <= cosine <= 1000,
            -1000 <= sine <= 1000,
    ;
    let rx: i64 = div_toward_zero(x * cosine - y * sine, 1000);
    let ry: i64 = div_toward_zero(x * sine + y * cosine, 1000);
    proof {
        if degrees == 0 {
            assert(x * cosine == x * 1000 && y * cosine == y * 1000 && x * sine == 0 && y * sine
                == 0) by (nonlinear_arith)
                requires
                    cosine == 1000,
                    sine == 0,
            ;
        }
    }
    IVec2 { x: rx as i32, y: ry as i32 }
}

/// Makes the disc of a node.
pub fn node_disc(node: &CaveNode, config: &Config) -> (disc: Disc)
    requires
        node.wf(),
    ensures
        disc == node_disc_of(*node, *config),
        disc.paintable(),
{
    assert(node.radius * config.node_radius_factor <= 4096 * 65535) by (nonlinear_arith)
        requires
            node.radius <= 4096,
            config.node_radius_factor <= 65535,
    ;
    let scaled: u64 = (node.radius as u64) * (config.node_radius_factor as u64);
    Disc { center: node.position, radius: (scaled / 1000) as i32 }
}

/// Makes disc number `i` of the tunnel from `a` to `b`, its direction turned
/// by `degrees`.
pub fn tunnel_disc(a: &CaveNode, b: &CaveNode, i: u32, config: &Config, degrees: i32) -> (disc:
    Disc)
    requires
        a.wf(),
        b.wf(),
        config.valid(),
        i < config.tunnel_segments,
        -90 <= degrees <= 90,
    ensures
        disc == tunnel_disc_of(*a, *b, i as int, *config, degrees as int),
        disc.paintable(),
{
    let segments: u64 = config.tunnel_segments as u64;
    let step: u64 = i as u64;
    assert(segments * segments <= 0xffff_ffff * 0xffff_ffff && step * step < segments * segments
        && segments * segments >= 1) by (nonlinear_arith)
        requires
            0 <= step < segments <= 0xffff_ffff,
    ;
    let whole: u64 = segments * segments;
    let part: u64 = step * step;
    let dir: IVec2 = rotate(
        IVec2 { x: b.position.x - a.position.x, y: b.position.y - a.position.y },
        degrees,
    );
    let x: i32 = a.position.x + along(dir.x, part, whole);
    let y: i32 = a.position.y + along(dir.y, part, whole);
    let ra: u128 = a.radius as u128;
    let rb: u128 = b.radius as u128;
    let thick: u128 = config.tunnel_thickness as u128;
    let wide: u128 = whole as u128;
    let near: u128 = part as u128;
    assert(rb * near + ra * (wide - near) <= 4096 * wide && thick * (rb * near + ra * (wide - near))
        <= 65535 * (4096 * wide) && 4096 * wide <= 4096 * 0xffff_ffff_ffff_ffff && 65535 * (4096
        * wide) <= 65535 * (4096 * 0xffff_ffff_ffff_ffff) && 1000 * wide >= 1000) by (nonlinear_arith)
        requires
            0 <= ra <= 4096,
            0 <= rb <= 4096,
            0 <= thick <= 65535,
            0 <= near < wide,
            1 <= wide <= 0xffff_ffff_ffff_ffff,
    ;
    let mixed: u128 = thick * (rb * near + ra * (wide - near));
    let radius: u128 = mixed / (1000 * wide);
    assert(radius <= 268432) by (nonlinear_arith)
        requires
            radius == (mixed as int) / (1000 * wide),
            mixed <= 65535 * (4096 * wide),
            wide >= 1,
    ;
    Disc { center: IVec2 { x, y }, radius: radius as i32 }
}

/// `v * part / whole`, rounded toward zero.
fn along(v: i32, part: u64, whole: u64) -> (r: i32)
    requires
        -2 * MAX_SIDE <= v <= 2 * MAX_SIDE,
        part < whole,
    ensures
        r == toward_zero(v * part, whole as int),
        -2 * MAX_SIDE <= r <= 2 * MAX_SIDE,
{
    let size: u128 = if v >= 0 {
        v as u128
    } else {
        (-v) as u128
    };
    assert(size * part <= 8192 * 0xffff_ffff_ffff_ffff) by (nonlinear_arith)
        requires
            0 <= size <= 8192,
            0 <= part <= 0xffff_ffff_ffff_ffff,
    ;
    let q: u128 = size * (part as u128) / (whole as u128);
    assert(q <= size) by (nonlinear_arith)
        requires
            q == (size * part) / (whole as int),
            whole > 0,
            0 <= part < whole,
            size >= 0,
    ;
    proof {
        if v >= 0 {
            assert(v * part == size * part) by (nonlinear_arith)
                requires
                    v == size,
            ;
            assert(v * part >= 0) by (nonlinear_arith)
                requires
                    v >= 0,
                    part >= 0,
            ;
        } else {
            assert(-(v * part) == size * part) by (nonlinear_arith)
                requires
                    -v == size,
            ;
            assert(v * part <= 0) by (nonlinear_arith)
                requires
                    v <= 0,
                    part >= 0,
            ;
        }
    }
    if v >= 0 {
        q as i32
    } else {
        -(q as i32)
    }
}

/// A canvas of known size to paint discs of floor on.
pub struct Raster {
    canvas: Canvas,
    size: UVec2,
}

impl Raster {
    /// The pixels row by row: the pixel `(x, y)` stands at `y * width + x`.
    pub closed spec fn view(&self) -> Seq<u8> {
        canvas_pixels(self.canvas)
    }

    /// The extent of the canvas in pixels.
    pub closed spec fn size(&self) -> UVec2 {
        self.size
    }

    /// The canvas is no larger than the largest region and has a pixel for
    /// each position.
    pub closed spec fn wf(&self) -> bool {
        &&& self.size.x <= MAX_SIDE
        &&& self.size.y <= MAX_SIDE
        &&& canvas_width(self.canvas) == self.size.x
        &&& canvas_pixels(self.canvas).len() == self.size.x * self.size.y
    }

    /// Whether `other` is this canvas painted over.
    pub open spec fn repainted(&self, other: Raster) -> bool {
        other.wf() && other.size() == self.size()
    }

    /// A canvas of walls.
    pub fn new(size: UVec2) -> (raster: Raster)
        requires
            size.x <= MAX_SIDE,
            size.y <= MAX_SIDE,
        ensures
            raster.wf(),
            raster.size() == size,
            raster@ == Seq::new((size.x * size.y) as nat, |i: int| 0u8),
    {
        assert(size.x * size.y <= 4096 * 4096) by (nonlinear_arith)
            requires
                0 <= size.x <= 4096,
                0 <= size.y <= 4096,
        ;
        Raster { canvas: canvas_new(size.x, size.y), size }
    }

    /// Paints one disc of floor.
    pub fn paint(&mut self, disc: Disc)
        requires
            old(self).wf(),
            disc.paintable(),
        ensures
            old(self).repainted(*final(self)),
            final(self)@ == painted(old(self)@, old(self).size().x as nat, disc),
    {
        canvas_fill_circle(
            &mut self.canvas,
            disc.center.x,
            disc.center.y,
            disc.radius,
            FLOOR_PIXEL,
        );
    }

    /// Reads the canvas out as tiles, row by row.
    pub fn into_tiles(self) -> (tiles: Vec<(TilePos, TileType)>)
        requires
            self.wf(),
        ensures
            tiles@ == tiles_of(self@, self.size().x as nat),
    {
        let size: UVec2 = self.size;
        let pixels: Vec<u8> = canvas_into_pixels(self.canvas);
        read_tiles(&pixels, size)
    }
}

/// Paints the tunnel from `a` to `b`: one disc for each segment, each with a
/// fresh turn drawn uniformly from the whole degrees within the tunnel angle.
pub fn tunnel_between(
    raster: &mut Raster,
    a: &CaveNode,
    b: &CaveNode,
    config: &Config,
    rng: &mut StdRng,
)
    requires
        old(raster).wf(),
        a.wf(),
        b.wf(),
        config.valid(),
    ensures
        old(raster).repainted(*final(raster)),
        exists|turns: Seq<int>|
            #[trigger] is_jitter(turns, *config) && final(raster)@ == painted_all(
                old(raster)@,
                old(raster).size().x as nat,
                tunnel_discs(*a, *b, *config, turns),
            ),
{
    let ghost start = raster@;
    let ghost width = raster.size().x as nat;
    let ghost mut turns: Seq<int> = Seq::empty();
    let angle: i64 = config.tunnel_angle as i64;
    let mut i: u32 = 0;
    assert(tunnel_discs(*a, *b, *config, turns) =~= Seq::<Disc>::empty());
    while i < config.tunnel_segments
        invariant
            a.wf(),
            b.wf(),
            config.valid(),
            angle == config.tunnel_angle,
            i <= config.tunnel_segments,
            turns.len() == i,
            forall|k: int|
                0 <= k < turns.len() ==> -config.tunnel_angle <= #[trigger] turns[k]
                    <= config.tunnel_angle,
            old(raster).repainted(*raster),
            width == raster.size().x,
            raster@ == painted_all(start, width, tunnel_discs(*a, *b, *config, turns)),
        decreases config.tunnel_segments - i,
    {
        let turn: i64 = draw_between(rng, -angle, angle);
        let disc: Disc = tunnel_disc(a, b, i, config, turn as i32);
        raster.paint(disc);
        proof {
            let before = tunnel_discs(*a, *b, *config, turns);
            lemma_painted_push(start, width, before, disc);
            turns = turns.push(turn as int);
            assert(tunnel_discs(*a, *b, *config, turns) =~= before.push(disc));
        }
        i = i + 1;
    }
    assert(is_jitter(turns, *config));
}

/// Paints the disc of each node, in the order of the nodes.
pub fn paint_nodes(raster: &mut Raster, nodes: &Vec<CaveNode>, config: &Config)
    requires
        old(raster).wf(),
        forall|i: int| 0 <= i < nodes.len() ==> (#[trigger] nodes[i]).wf(),
    ensures
        old(raster).repainted(*final(raster)),
        final(raster)@ == painted_all(
            old(raster)@,
            old(raster).size().x as nat,
            node_discs(nodes@, *config),
        ),
{
    let ghost start = raster@;
    let ghost width = raster.size().x as nat;
    let mut n: usize = 0;
    assert(node_discs(nodes@.take(0), *config) =~= Seq::<Disc>::empty());
    while n < nodes.len()
        invariant
            n <= nodes.len(),
            forall|i: int| 0 <= i < nodes.len() ==> (#[trigger] nodes[i]).wf(),
            old(raster).repainted(*raster),
            width == raster.size().x,
            raster@ == painted_all(start, width, node_discs(nodes@.take(n as int), *config)),
        decreases nodes.len() - n,
    {
        let disc: Disc = node_disc(&nodes[n], config);
        raster.paint(disc);
        proof {
            let before = node_discs(nodes@.take(n as int), *config);
            lemma_painted_push(start, width, before, disc);
            assert(node_discs(nodes@.take(n + 1), *config) =~= before.push(disc));
        }
        n = n + 1;
    }
    assert(nodes@.take(nodes.len() as int) =~= nodes@);
}

/// Paints the tunnel along each edge, in the order of the edges, with fresh
/// turns for each.
pub fn paint_tunnels(
    raster: &mut Raster,
    nodes: &Vec<CaveNode>,
    edges: &Vec<(usize, usize)>,
    config: &Config,
    rng: &mut StdRng,
)
    requires
        old(raster).wf(),
        config.valid(),
        forall|i: int| 0 <= i < nodes.len() ==> (#[trigger] nodes[i]).wf(),
        forall|i: int|
            0 <= i < edges.len() ==> (#[trigger] edges[i]).0 < nodes.len() && edges[i].1
                < nodes.len(),
    ensures
        old(raster).repainted(*final(raster)),
        exists|jitter: Seq<Seq<int>>|
            {
                &&& #[trigger] is_jitter_for(jitter, edges@, *config)
                &&& final(raster)@ == painted_all(
                    old(raster)@,
                    old(raster).size().x as nat,
                    edge_discs(nodes@, edges@, *config, jitter),
                )
            },
{
    let ghost start = raster@;
    let ghost width = raster.size().x as nat;
    let ghost mut jitter: Seq<Seq<int>> = Seq::empty();
    let mut e: usize = 0;
    assert(edges@.take(0) =~= Seq::<(usize, usize)>::empty());
    while e < edges.len()
        invariant
            e <= edges.len(),
            config.valid(),
            forall|i: int| 0 <= i < nodes.len() ==> (#[trigger] nodes[i]).wf(),
            forall|i: int|
                0 <= i < edges.len() ==> (#[trigger] edges[i]).0 < nodes.len() && edges[i].1
                    < nodes.len(),
            jitter.len() == e,
            forall|k: int| 0 <= k < jitter.len() ==> is_jitter(#[trigger] jitter[k], *config),
            old(raster).repainted(*raster),
            width == raster.size().x,
            raster@ == painted_all(
                start,
                width,
                edge_discs(nodes@, edges@.take(e as int), *config, jitter),
            ),
        decreases edges.len() - e,
    {
        let edge: (usize, usize) = edges[e];
        let ghost before = raster@;
        tunnel_between(raster, &nodes[edge.0], &nodes[edge.1], config, rng);
        proof {
            let a = nodes@[edge.0 as int];
            let b = nodes@[edge.1 as int];
            let turns = choose|turns: Seq<int>|
                #[trigger] is_jitter(turns, *config) && raster@ == painted_all(
                    before,
                    width,
                    tunnel_discs(a, b, *config, turns),
                );
            let dug = edge_discs(nodes@, edges@.take(e as int), *config, jitter);
            lemma_painted_concat(start, width, dug, tunnel_discs(a, b, *config, turns));
            let grown = jitter.push(turns);
            assert(grown.drop_last() =~= jitter);
            assert(edges@.take(e + 1).drop_last() =~= edges@.take(e as int));
            assert(edges@.take(e + 1).last() == edge);
            jitter = grown;
        }
        e = e + 1;
    }
    assert(edges@.take(edges.len() as int) =~= edges@);
    assert(is_jitter_for(jitter, edges@, *config));
}

/// Reads pixels out as tiles, row by row.
pub fn read_tiles(pixels: &Vec<u8>, size: UVec2) -> (tiles: Vec<(TilePos, TileType)>)
    requires
        size.x <= MAX_SIDE,
        size.y <= MAX_SIDE,
        pixels.len() == size.x * size.y,
    ensures
        tiles@ == tiles_of(pixels@, size.x as nat),
{
    let mut tiles: Vec<(TilePos, TileType)> = Vec::new();
    let mut i: usize = 0;
    while i < pixels.len()
        invariant
            i <= pixels.len(),
            pixels.len() == size.x * size.y,
            size.x <= MAX_SIDE,
            size.y <= MAX_SIDE,
            tiles.len() == i,
            forall|k: int|
                0 <= k < i ==> #[trigger] tiles[k] == tiles_of(pixels@, size.x as nat)[k],
        decreases pixels.len() - i,
    {
        assert(size.x > 0) by (nonlinear_arith)
            requires
                i < size.x * size.y,
                size.x >= 0,
                size.y >= 0,
        ;
        let width: usize = size.x as usize;
        let x: u32 = (i % width) as u32;
        assert(i / (size.x as usize) < size.y) by (nonlinear_arith)
            requires
                i < size.x * size.y,
                size.x > 0,
        ;
        let y: u32 = (i / width) as u32;
        let tile: TileType = if pixels[i] == FLOOR_PIXEL {
            TileType::Floor
        } else {
            TileType::Wall
        };
        tiles.push((TilePos { x, y }, tile));
        i = i + 1;
    }
    assert(tiles@ =~= tiles_of(pixels@, size.x as nat));
    tiles
}

/// Paints a cave and reads the canvas out as tiles: on a canvas of walls of
/// the given size, first the disc of each node, then the tunnel along each
/// edge, with fresh turns for each.
pub fn rasterize(
    nodes: &Vec<CaveNode>,
    edges: &Vec<(usize, usize)>,
    size: UVec2,
    config: &Config,
    rng: &mut StdRng,
) -> (tiles: SetTiles)
    requires
        size.x <= MAX_SIDE,
        size.y <= MAX_SIDE,
        config.valid(),
        forall|i: int| 0 <= i < nodes.len() ==> (#[trigger] nodes[i]).wf(),
        forall|i: int|
            0 <= i < edges.len() ==> (#[trigger] edges[i]).0 < nodes.len() && edges[i].1
                < nodes.len(),
    ensures
        tiles.0.len() == size.x * size.y,
        exists|jitter: Seq<Seq<int>>|
            {
                &&& #[trigger] is_jitter_for(jitter, edges@, *config)
                &&& tiles.0@ == rastered(nodes@, edges@, size, *config, jitter)
            },
{
    let mut raster: Raster = Raster::new(size);
    let ghost blank = raster@;
    let ghost width = size.x as nat;
    paint_nodes(&mut raster, nodes, config);
    let ghost dotted = raster@;
    paint_tunnels(&mut raster, nodes, edges, config, rng);
    let ghost jitter = choose|jitter: Seq<Seq<int>>|
        {
            &&& #[trigger] is_jitter_for(jitter, edges@, *config)
            &&& raster@ == painted_all(dotted, width, edge_discs(nodes@, edges@, *config, jitter))
        };
    proof {
        lemma_painted_concat(
            blank,
            width,
            node_discs(nodes@, *config),
            edge_discs(nodes@, edges@, *config, jitter),
        );
    }
    let tiles: Vec<(TilePos, TileType)> = raster.into_tiles();
    assert(tiles@ == rastered(nodes@, edges@, size, *config, jitter));
    SetTiles(tiles)
}

} // verus!
