//! Particles and the store that moves them.

use vstd::prelude::*;

use crate::chance::draw_between;

verus! {

/// Largest magnitude a coordinate may take. Keeping both coordinates within
/// it makes every squared distance between two particles fit in an `i128`.
pub const COORD_LIMIT: i64 = 0x3fff_ffff_ffff_ffff;

/// Speeds (and, scaled by `DIRECTION_SCALE`, velocity components) are drawn
/// from `[-MAX_SPEED, MAX_SPEED]`.
pub const MAX_SPEED: i32 = 5000;

/// A heading is given as a direction `(ux, uy)` whose components are the
/// cosine and sine of the heading angle multiplied by this scale.
pub const DIRECTION_SCALE: i32 = 65536;

/// Bounds of the visual attributes, in thousandths (hue in thousandths of a
/// degree, radius in thousandths of a unit of length).
pub const HUE_MIN: u32 = 10000;
pub const HUE_MAX: u32 = 40000;
pub const SATURATION: u32 = 1000;
pub const LIGHTNESS_MIN: u32 = 100;
pub const LIGHTNESS_MAX: u32 = 500;
pub const ALPHA_MIN: u32 = 100;
pub const ALPHA_MAX: u32 = 900;
pub const RADIUS_MIN: u32 = 4000;
pub const RADIUS_MAX: u32 = 7000;

pub open spec fn valid_coord(c: int) -> bool {
    -COORD_LIMIT <= c <= COORD_LIMIT
}

#[derive(Clone, Copy, Debug, PartialEq, Eq, Structural)]
pub struct Position {
    pub x: i64,
    pub y: i64,
}

impl Position {
    pub open spec fn valid(self) -> bool {
        valid_coord(self.x as int) && valid_coord(self.y as int)
    }
}

/// How a particle moves: a velocity given directly by its components, or a
/// scalar speed along a heading direction scaled by `DIRECTION_SCALE`.
#[derive(Clone, Copy, Debug, PartialEq, Eq, Structural)]
pub enum Motion {
    Components { vx: i32, vy: i32 },
    Heading { speed: i32, ux: i32, uy: i32 },
}

/// Displacement per unit of time.
pub open spec fn velocity(m: Motion) -> (int, int) {
    match m {
        Motion::Components { vx, vy } => (vx as int, vy as int),
        Motion::Heading { speed, ux, uy } => (speed * ux, speed * uy),
    }
}

/// Colour and size, fixed when the particle is made and never read by the
/// motion or the neighbour search.
#[derive(Clone, Copy, Debug, PartialEq, Eq, Structural)]
pub struct Appearance {
    pub hue: u32,
    pub saturation: u32,
    pub lightness: u32,
    pub alpha: u32,
    pub radius: u32,
}

impl Appearance {
    /// Every attribute within the range it is drawn from.
    pub open spec fn in_ranges(self) -> bool {
        &&& HUE_MIN <= self.hue <= HUE_MAX
        &&& self.saturation == SATURATION
        &&& LIGHTNESS_MIN <= self.lightness <= LIGHTNESS_MAX
        &&& ALPHA_MIN <= self.alpha <= ALPHA_MAX
        &&& RADIUS_MIN <= self.radius <= RADIUS_MAX
    }
}

#[derive(Clone, Copy, Debug, PartialEq, Eq, Structural)]
pub struct Node {
    pub pos: Position,
    pub motion: Motion,
    pub look: Appearance,
}

/// Where the node stands after `dt` units of time.
pub open spec fn moved(n: Node, dt: int) -> (int, int) {
    (n.pos.x + velocity(n.motion).0 * dt, n.pos.y + velocity(n.motion).1 * dt)
}

pub open spec fn can_move(n: Node, dt: int) -> bool {
    valid_coord(moved(n, dt).0) && valid_coord(moved(n, dt).1)
}

/// The node after `dt` units of time: only its position changes.
pub open spec fn advance(n: Node, dt: int) -> Node {
    Node {
        pos: Position { x: moved(n, dt).0 as i64, y: moved(n, dt).1 as i64 },
        motion: n.motion,
        look: n.look,
    }
}

fn draw_u32(lo: u32, hi: u32) -> (r: u32)
    requires
        lo <= hi,
    ensures
        lo <= r <= hi,
{
    draw_between(lo as i64, hi as i64) as u32
}

fn draw_i32(lo: i32, hi: i32) -> (r: i32)
    requires
        lo <= hi,
    ensures
        lo <= r <= hi,
{
    draw_between(lo as i64, hi as i64) as i32
}

impl Appearance {
    /// Draws each attribute independently and uniformly from its range.
    pub fn random() -> (r: Appearance)
        ensures
            r.in_ranges(),
    {
        Appearance {
            hue: draw_u32(HUE_MIN, HUE_MAX),
            saturation: SATURATION,
            lightness: draw_u32(LIGHTNESS_MIN, LIGHTNESS_MAX),
            alpha: draw_u32(ALPHA_MIN, ALPHA_MAX),
            radius: draw_u32(RADIUS_MIN, RADIUS_MAX),
        }
    }
}

impl Motion {
    /// A velocity whose components are drawn independently from
    /// `[-MAX_SPEED * DIRECTION_SCALE, MAX_SPEED * DIRECTION_SCALE]`.
    pub fn random_components() -> (r: Motion)
        ensures
            r matches Motion::Components { vx, vy } &&
                -MAX_SPEED * DIRECTION_SCALE <= vx <= MAX_SPEED * DIRECTION_SCALE &&
                -MAX_SPEED * DIRECTION_SCALE <= vy <= MAX_SPEED * DIRECTION_SCALE,
    {
        let bound: i32 = MAX_SPEED * DIRECTION_SCALE;
        Motion::Components { vx: draw_i32(-bound, bound), vy: draw_i32(-bound, bound) }
    }

    /// A speed drawn from `[-MAX_SPEED, MAX_SPEED]` along the given heading.
    pub fn random_heading(ux: i32, uy: i32) -> (r: Motion)
        ensures
            r matches Motion::Heading { speed, ux: rx, uy: ry } &&
                -MAX_SPEED <= speed <= MAX_SPEED && rx == ux && ry == uy,
    {
        Motion::Heading { speed: draw_i32(-MAX_SPEED, MAX_SPEED), ux, uy }
    }

    /// The velocity, exactly.
    pub fn velocity(&self) -> (r: (i64, i64))
        ensures
            r.0 == velocity(*self).0,
            r.1 == velocity(*self).1,
    {
        match *self {
            Motion::Components { vx, vy } => (vx as i64, vy as i64),
            Motion::Heading { speed, ux, uy } => {
                proof {
                    lemma_product_fits(speed as int, ux as int);
                    lemma_product_fits(speed as int, uy as int);
                }
                (speed as i64 * ux as i64, speed as i64 * uy as i64)
            },
        }
    }
}

proof fn lemma_product_fits(a: int, b: int)
    requires
        i32::MIN <= a <= i32::MAX,
        i32::MIN <= b <= i32::MAX,
    ensures
        -0x4000_0000_0000_0000 <= a * b <= 0x4000_0000_0000_0000,
{
    assert(-0x4000_0000_0000_0000 <= a * b <= 0x4000_0000_0000_0000) by (nonlinear_arith)
        requires
            -0x8000_0000 <= a <= 0x8000_0000,
            -0x8000_0000 <= b <= 0x8000_0000,
    ;
}

impl Node {
    /// A node at `(x, y)` with the given motion and freshly drawn visual
    /// attributes.
    pub fn new(x: i64, y: i64, motion: Motion) -> (r: Node)
        ensures
            r.pos == (Position { x, y }),
            r.motion == motion,
            r.look.in_ranges(),
    {
        Node { pos: Position { x, y }, motion, look: Appearance::random() }
    }
}

/// Every node of `s` can move for `dt` without leaving the coordinate range.
pub open spec fn all_can_move(s: Seq<Node>, dt: int) -> bool {
    forall|j: int| 0 <= j < s.len() ==> can_move(#[trigger] s[j], dt)
}

/// Every node of `s` after `dt` units of time.
pub open spec fn advanced(s: Seq<Node>, dt: int) -> Seq<Node> {
    s.map_values(|n: Node| advance(n, dt))
}

/// Every position of `s` lies in the region `[-width/2, width/2] x
/// [-height/2, height/2]` (halves rounded down).
pub open spec fn in_region(s: Seq<Node>, width: int, height: int) -> bool {
    forall|j: int|
        0 <= j < s.len() ==> -(width / 2) <= (#[trigger] s[j]).pos.x <= width / 2 && -(height / 2)
            <= s[j].pos.y <= height / 2
}

pub open spec fn all_valid(s: Seq<Node>) -> bool {
    forall|j: int| 0 <= j < s.len() ==> (#[trigger] s[j]).pos.valid()
}

/// The particles of a swarm. Their number is fixed when the store is made,
/// and each keeps its index for the store's lifetime.
pub struct ParticleStore {
    nodes: Vec<Node>,
}

impl View for ParticleStore {
    type V = Seq<Node>;

    closed spec fn view(&self) -> Seq<Node> {
        self.nodes@
    }
}

impl ParticleStore {
    /// Every coordinate within `COORD_LIMIT`.
    pub open spec fn wf(&self) -> bool {
        all_valid(self@)
    }

    /// A store holding exactly the given particles, in that order.
    pub fn from_nodes(nodes: Vec<Node>) -> (r: ParticleStore)
        requires
            all_valid(nodes@),
        ensures
            r.wf(),
            r@ == nodes@,
    {
        ParticleStore { nodes }
    }

    /// One particle for each of `motions`, in that order, each at a position
    /// drawn uniformly from the region `[-width/2, width/2] x
    /// [-height/2, height/2]` and with freshly drawn visual attributes.
    pub fn spawn(width: i64, height: i64, motions: &Vec<Motion>) -> (r: ParticleStore)
        requires
            0 <= width,
            0 <= height,
        ensures
            r.wf(),
            r@.len() == motions.len(),
            in_region(r@, width as int, height as int),
            forall|j: int| 0 <= j < motions.len() ==> (#[trigger] r@[j]).motion == motions[j],
            forall|j: int| 0 <= j < motions.len() ==> (#[trigger] r@[j]).look.in_ranges(),
    {
        let hw: i64 = width / 2;
        let hh: i64 = height / 2;
        let mut nodes: Vec<Node> = Vec::new();
        let mut j: usize = 0;
        while j < motions.len()
            invariant
                hw == width / 2,
                hh == height / 2,
                0 <= hw <= COORD_LIMIT,
                0 <= hh <= COORD_LIMIT,
                j <= motions.len(),
                nodes.len() == j,
                all_valid(nodes@),
                in_region(nodes@, width as int, height as int),
                forall|q: int| 0 <= q < j ==> (#[trigger] nodes@[q]).motion == motions[q],
                forall|q: int| 0 <= q < j ==> (#[trigger] nodes@[q]).look.in_ranges(),
            decreases motions.len() - j,
        {
            let x = draw_between(-hw, hw);
            let y = draw_between(-hh, hh);
            nodes.push(Node::new(x, y, motions[j]));
            j += 1;
        }
        ParticleStore { nodes }
    }

    pub fn len(&self) -> (r: usize)
        ensures
            r == self@.len(),
    {
        self.nodes.len()
    }

    /// The particles, in index order.
    pub fn nodes(&self) -> (r: &Vec<Node>)
        ensures
            r@ == self@,
    {
        &self.nodes
    }

    /// Whether every particle can move for `dt` without a coordinate leaving
    /// `[-COORD_LIMIT, COORD_LIMIT]`.
    pub fn can_integrate(&self, dt: u32) -> (r: bool)
        requires
            self.wf(),
        ensures
            r == all_can_move(self@, dt as int),
    {
        let mut j: usize = 0;
        while j < self.nodes.len()
            invariant
                self.wf(),
                j <= self.nodes@.len(),
                all_can_move(self.nodes@.subrange(0, j as int), dt as int),
            decreases self.nodes@.len() - j,
        {
            let m = moved_exec(&self.nodes[j], dt);
            if m.is_none() {
                assert(!can_move(self.nodes@[j as int], dt as int));
                return false;
            }
            assert(self.nodes@.subrange(0, j + 1) =~= self.nodes@.subrange(0, j as int).push(self.nodes@[j as int]));
            j += 1;
        }
        assert(self.nodes@.subrange(0, j as int) =~= self.nodes@);
        true
    }

    /// Moves every particle by its velocity times `dt`; nothing else changes.
    pub fn integrate(&mut self, dt: u32)
        requires
            old(self).wf(),
            all_can_move(old(self)@, dt as int),
        ensures
            final(self).wf(),
            final(self)@ == advanced(old(self)@, dt as int),
    {
        let ghost start = self.nodes@;
        let mut j: usize = 0;
        while j < self.nodes.len()
            invariant
                self.nodes@.len() == start.len(),
                j <= start.len(),
                all_valid(start),
                all_can_move(start, dt as int),
                forall|q: int| 0 <= q < j ==> #[trigger] self.nodes@[q] == advance(start[q], dt as int),
                forall|q: int| j <= q < start.len() ==> #[trigger] self.nodes@[q] == start[q],
            decreases start.len() - j,
        {
            let n = self.nodes[j];
            assert(can_move(start[j as int], dt as int));
            let m = moved_exec(&n, dt);
            match m {
                Some((x, y)) => {
                    self.nodes.set(j, Node { pos: Position { x, y }, motion: n.motion, look: n.look });
                },
                None => {},
            }
            j += 1;
        }
        assert(self.nodes@ =~= advanced(start, dt as int));
    }
}

/// Where `n` stands after `dt`, or `None` where a coordinate would leave
/// `[-COORD_LIMIT, COORD_LIMIT]`.
fn moved_exec(n: &Node, dt: u32) -> (r: Option<(i64, i64)>)
    requires
        n.pos.valid(),
    ensures
        r.is_some() == can_move(*n, dt as int),
        r.is_some() ==> r.unwrap().0 == moved(*n, dt as int).0 && r.unwrap().1 == moved(*n, dt as int).1,
{
    let (vx, vy) = n.motion.velocity();
    proof {
        lemma_velocity_bounded(n.motion);
        lemma_step_fits(velocity(n.motion).0, dt as int);
        lemma_step_fits(velocity(n.motion).1, dt as int);
    }
    let x: i128 = n.pos.x as i128 + (vx as i128) * (dt as i128);
    let y: i128 = n.pos.y as i128 + (vy as i128) * (dt as i128);
    if -(COORD_LIMIT as i128) <= x && x <= COORD_LIMIT as i128 && -(COORD_LIMIT as i128) <= y && y
        <= COORD_LIMIT as i128 {
        Some((x as i64, y as i64))
    } else {
        None
    }
}

proof fn lemma_velocity_bounded(m: Motion)
    ensures
        -0x4000_0000_0000_0000 <= velocity(m).0 <= 0x4000_0000_0000_0000,
        -0x4000_0000_0000_0000 <= velocity(m).1 <= 0x4000_0000_0000_0000,
{
    match m {
        Motion::Components { vx, vy } => {},
        Motion::Heading { speed, ux, uy } => {
            lemma_product_fits(speed as int, ux as int);
            lemma_product_fits(speed as int, uy as int);
        },
    }
}

proof fn lemma_step_fits(v: int, dt: int)
    requires
        -0x4000_0000_0000_0000 <= v <= 0x4000_0000_0000_0000,
        0 <= dt <= u32::MAX,
    ensures
        -0x1_0000_0000_0000_0000_0000_0000 <= v * dt <= 0x1_0000_0000_0000_0000_0000_0000,
{
    assert(-0x1_0000_0000_0000_0000_0000_0000 <= v * dt <= 0x1_0000_0000_0000_0000_0000_0000) by (nonlinear_arith)
        requires
            -0x4000_0000_0000_0000 <= v <= 0x4000_0000_0000_0000,
            0 <= dt <= 0xffff_ffff,
    ;
}

proof fn lemma_node_additive(n: Node, dt1: int, dt2: int)
    requires
        n.pos.valid(),
        0 <= dt1,
        0 <= dt2,
        can_move(n, dt1 + dt2),
    ensures
        can_move(n, dt1),
        can_move(advance(n, dt1), dt2),
        advance(advance(n, dt1), dt2) == advance(n, dt1 + dt2),
{
    let (vx, vy) = velocity(n.motion);
    assert(vx * (dt1 + dt2) == vx * dt1 + vx * dt2) by (nonlinear_arith);
    assert(vy * (dt1 + dt2) == vy * dt1 + vy * dt2) by (nonlinear_arith);
    lemma_partial_step(vx, dt1, dt2);
    lemma_partial_step(vy, dt1, dt2);
}

/// A part of a step lies between no step and the whole step.
proof fn lemma_partial_step(v: int, dt1: int, dt2: int)
    requires
        0 <= dt1,
        0 <= dt2,
    ensures
        v >= 0 ==> 0 <= v * dt1 <= v * (dt1 + dt2),
        v < 0 ==> v * (dt1 + dt2) <= v * dt1 <= 0,
{
    assert(v >= 0 ==> 0 <= v * dt1 <= v * (dt1 + dt2)) by (nonlinear_arith)
        requires
            0 <= dt1,
            0 <= dt2,
    ;
    assert(v < 0 ==> v * (dt1 + dt2) <= v * dt1 <= 0) by (nonlinear_arith)
        requires
            0 <= dt1,
            0 <= dt2,
    ;
}

/// Integrating for no time is always possible and leaves every particle
/// unchanged.
pub proof fn lemma_integrate_zero(s: Seq<Node>)
    requires
        all_valid(s),
    ensures
        all_can_move(s, 0),
        advanced(s, 0) == s,
{
    assert forall|j: int| 0 <= j < s.len() implies can_move(#[trigger] s[j], 0) && advance(s[j], 0) == s[j] by {
        let (vx, vy) = velocity(s[j].motion);
        assert(vx * 0 == 0 && vy * 0 == 0) by (nonlinear_arith);
    }
    assert(advanced(s, 0) =~= s);
}

/// Motion is linear in time: integrating for `dt1` and then for `dt2` gives
/// the same particles as integrating once for `dt1 + dt2`, and wherever the
/// single step stays within range, so do both shorter ones.
pub proof fn lemma_integrate_additive(s: Seq<Node>, dt1: nat, dt2: nat)
    requires
        all_valid(s),
        all_can_move(s, (dt1 + dt2) as int),
    ensures
        all_can_move(s, dt1 as int),
        all_valid(advanced(s, dt1 as int)),
        all_can_move(advanced(s, dt1 as int), dt2 as int),
        advanced(advanced(s, dt1 as int), dt2 as int) == advanced(s, (dt1 + dt2) as int),
{
    let mid = advanced(s, dt1 as int);
    assert forall|j: int| 0 <= j < s.len() implies can_move(#[trigger] s[j], dt1 as int) && mid[j].pos.valid()
        && can_move(mid[j], dt2 as int) && advance(mid[j], dt2 as int) == advance(s[j], (dt1 + dt2) as int) by {
        lemma_node_additive(s[j], dt1 as int, dt2 as int);
    }
    assert forall|j: int| 0 <= j < mid.len() implies (#[trigger] mid[j]).pos.valid() by {
        lemma_node_additive(s[j], dt1 as int, dt2 as int);
    }
    assert(advanced(mid, dt2 as int) =~= advanced(s, (dt1 + dt2) as int));
}

} // verus!
