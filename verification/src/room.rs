//! The procedural room generator: turns a seed, dimensions, an exit layout
//! and a tuning record into two tile grids — floor tiles and wall tiles —
//! with a guaranteed walkable corridor from the room center to every open
//! exit.
//!
//! Classification is driven by two scalar fields over cell coordinates: a
//! *growth field* (an edge-proximity term plus ridged fractal noise, forced
//! to the lowest value inside exit corridors) and a *special field* (plain
//! value noise, used for sparse decorations). Both are pure functions of the
//! seed and parameters, so generation is deterministic.

use vstd::prelude::*;
use vstd::arithmetic::div_mod::{
    lemma_fundamental_div_mod, lemma_fundamental_div_mod_converse_div,
    lemma_fundamental_div_mod_converse_mod,
};

use crate::fixed::{
    clamp, mul_down, sat_add, sat_sub, spec_clamp, spec_mul_down, spec_sat_add, spec_sat_sub, SCALE,
};
use crate::attribute::lemma_take_step;
use crate::grid::{Grid, GridCell, GridPos};
use crate::noise::{
    ridged_fractal, sat_i64_mul, spec_ridged_fractal, spec_value_noise, value_noise, MAX_FREQUENCY,
};

verus! {

/// Largest room dimension (in cells) the generator accepts.
pub const MAX_ROOM_DIM: usize = 65535;

/// The growth value inside a critical-path corridor: below every cutoff, so
/// a corridor cell can never classify as a wall or a decoration.
pub const CORRIDOR_GROWTH: i64 = i64::MIN;

/// The tuning record for one generation pass, in fixed-point units.
#[derive(Debug, Clone, Copy, PartialEq, Eq, Structural)]
pub struct RoomGenParams {
    /// How fast the edge growth term decays per cell of distance from the
    /// nearest boundary.
    pub growth_falloff: i64,
    /// Growth at the boundary itself.
    pub edge_growth: i64,
    /// Floor value the edge term never drops below.
    pub center_growth: i64,
    /// Amplitude of the fractal noise term.
    pub growth_noise_amplitude: i64,
    /// Base frequency of the fractal noise term.
    pub growth_noise_frequency: i64,
    /// Octave count of the fractal noise term.
    pub grow_noise_octaves: u32,
    /// Constant bias added to the noise term.
    pub growth_noise_bias: i64,
    /// Frequency of the special (decoration) noise.
    pub special_noise_frequency: i64,
    /// Amplitude of the special (decoration) noise.
    pub special_noise_amplitude: i64,
    /// Per-octave amplitude factor of the fractal noise.
    pub noise_fractal_gain: i64,
    /// Growth at or above which a cell becomes a wall (tree mass).
    pub tree_growth_cutoff: i64,
    /// Growth cutoff for a lone tree.
    pub lone_tree_growth_cutoff: i64,
    /// Special-field cutoff for a lone tree.
    pub lone_tree_special_cutoff: i64,
    /// Growth at or above which the floor grows grass.
    pub grass_growth_cutoff: i64,
    /// Growth at or above which the floor grows tall grass.
    pub tall_grass_growth_cutoff: i64,
    /// Width of each exit opening, in cells.
    pub exit_size: u32,
}

impl RoomGenParams {
    /// The parameter ranges the generator accepts: amplitudes and cutoffs
    /// within a thousand units, valid noise frequencies, and a sane octave
    /// count and exit size. Every bound keeps the per-cell arithmetic inside
    /// the fixed-point range.
    pub open spec fn valid(self) -> bool {
        &&& 0 <= self.growth_falloff <= 1000000
        &&& -1000000 <= self.edge_growth <= 1000000
        &&& -1000000 <= self.center_growth <= 1000000
        &&& -1000000 <= self.growth_noise_amplitude <= 1000000
        &&& 0 < self.growth_noise_frequency <= MAX_FREQUENCY
        &&& 1 <= self.grow_noise_octaves <= 16
        &&& -1000000 <= self.growth_noise_bias <= 1000000
        &&& 0 < self.special_noise_frequency <= MAX_FREQUENCY
        &&& -1000000 <= self.special_noise_amplitude <= 1000000
        &&& 0 <= self.noise_fractal_gain <= SCALE
        &&& -1000000 <= self.tree_growth_cutoff <= 1000000
        &&& -1000000 <= self.lone_tree_growth_cutoff <= 1000000
        &&& -1000000 <= self.lone_tree_special_cutoff <= 1000000
        &&& -1000000 <= self.grass_growth_cutoff <= 1000000
        &&& -1000000 <= self.tall_grass_growth_cutoff <= 1000000
        &&& self.exit_size <= 1000
    }
}

/// The stock tuning: a grassy clearing with tree walls near the edges and
/// sparse lone trees.
pub open spec fn spec_default_params() -> RoomGenParams {
    RoomGenParams {
        edge_growth: 1500,
        center_growth: (-1000) as i64,
        growth_falloff: 600,
        growth_noise_amplitude: 4000,
        growth_noise_frequency: 100,
        growth_noise_bias: (-1700) as i64,
        special_noise_frequency: 500,
        special_noise_amplitude: 3000,
        grow_noise_octaves: 3,
        noise_fractal_gain: 600,
        tree_growth_cutoff: 600,
        lone_tree_growth_cutoff: 400,
        lone_tree_special_cutoff: 400,
        grass_growth_cutoff: 0,
        tall_grass_growth_cutoff: 200,
        exit_size: 2,
    }
}

impl Default for RoomGenParams {
    /// The stock tuning; always within [`RoomGenParams::valid`].
    fn default() -> (r: RoomGenParams)
        ensures
            r == spec_default_params(),
            r.valid(),
    {
        RoomGenParams {
            edge_growth: 1500,
            center_growth: -1000,
            growth_falloff: 600,
            growth_noise_amplitude: 4000,
            growth_noise_frequency: 100,
            growth_noise_bias: -1700,
            special_noise_frequency: 500,
            special_noise_amplitude: 3000,
            grow_noise_octaves: 3,
            noise_fractal_gain: 600,
            tree_growth_cutoff: 600,
            lone_tree_growth_cutoff: 400,
            lone_tree_special_cutoff: 400,
            grass_growth_cutoff: 0,
            tall_grass_growth_cutoff: 200,
            exit_size: 2,
        }
    }
}

/// Which of the room's four sides have an opening. Fixed once per room.
#[derive(Debug, Clone, Copy, PartialEq, Eq, Structural)]
pub struct RoomLayout {
    /// Opening on the top side.
    pub exit_top: bool,
    /// Opening on the bottom side.
    pub exit_bottom: bool,
    /// Opening on the left side.
    pub exit_left: bool,
    /// Opening on the right side.
    pub exit_right: bool,
}

/// The floor classification of one cell.
#[derive(Debug, Clone, Copy, PartialEq, Eq, Structural)]
pub enum FloorTile {
    /// Not yet classified.
    Unset,
    /// Bare dirt.
    Dirt,
    /// Short grass.
    Grass,
    /// Tall grass.
    TallGrass,
}

impl GridCell for FloorTile {
    open spec fn spec_default() -> FloorTile {
        FloorTile::Unset
    }

    fn default_value() -> (r: FloorTile) {
        FloorTile::Unset
    }
}

/// The wall-layer classification of one cell.
#[derive(Debug, Clone, Copy, PartialEq, Eq, Structural)]
pub enum WallTile {
    /// Walkable.
    Clear,
    /// Impassable wall.
    Wall,
    /// A standalone decoration; walkable around, drawn above the floor.
    LoneTree,
}

impl GridCell for WallTile {
    open spec fn spec_default() -> WallTile {
        WallTile::Clear
    }

    fn default_value() -> (r: WallTile) {
        WallTile::Clear
    }
}

/// Everything one generation pass depends on: the two fields and every
/// classification are pure functions of this record.
#[derive(Debug, Clone, Copy)]
pub struct RoomCfg {
    /// Noise seed.
    pub seed: u32,
    /// Tuning record.
    pub params: RoomGenParams,
    /// Exit layout.
    pub layout: RoomLayout,
    /// Room width in cells.
    pub width: usize,
    /// Room height in cells.
    pub height: usize,
}

/// The configurations the generator accepts.
pub open spec fn cfg_valid(c: RoomCfg) -> bool {
    &&& c.params.valid()
    &&& 2 <= c.width <= MAX_ROOM_DIM
    &&& 2 <= c.height <= MAX_ROOM_DIM
}

pub open spec fn int_abs(a: int) -> int {
    if a >= 0 {
        a
    } else {
        -a
    }
}

pub open spec fn int_min(a: int, b: int) -> int {
    if a <= b {
        a
    } else {
        b
    }
}

pub open spec fn int_max(a: int, b: int) -> int {
    if a >= b {
        a
    } else {
        b
    }
}

/// Fixed-point distance from cell `(x, y)` to the nearest room boundary,
/// clamped at zero. Distances are half-integral, so this is the doubled
/// distance times half of [`SCALE`].
pub open spec fn spec_edge_dist_fp(c: RoomCfg, x: i64, y: i64) -> i64 {
    let w = c.width as int;
    let h = c.height as int;
    let xd2 = int_max(0, (w - 1) - int_abs(2 * x - (w - 1)));
    let yd2 = int_max(0, (h - 1) - int_abs(2 * y - (h - 1)));
    (int_min(xd2, yd2) * 500) as i64
}

/// Whether the (doubled) offset `(along2, across2)` from the room center
/// lies inside the exit cone along one axis: the cone starts at the center
/// with zero width and widens to half the exit size at the boundary, `span`
/// away.
pub open spec fn spec_on_exit_path(along2: int, across2: int, span: int, exit_size: int) -> bool {
    along2 >= 0 && across2 * span <= along2 * exit_size
}

/// Whether cell `(x, y)` lies inside the critical-path corridor of any open
/// exit: the wedge from the room center to that side's midpoint.
pub open spec fn spec_in_critical_section(c: RoomCfg, x: i64, y: i64) -> bool {
    let w = c.width as int;
    let h = c.height as int;
    let e = c.params.exit_size as int;
    let dx2 = 2 * x - (w - 1);
    let dy2 = 2 * y - (h - 1);
    ||| c.layout.exit_top && spec_on_exit_path(-dy2, int_abs(dx2), h - 1, e)
    ||| c.layout.exit_bottom && spec_on_exit_path(dy2, int_abs(dx2), h - 1, e)
    ||| c.layout.exit_left && spec_on_exit_path(-dx2, int_abs(dy2), w - 1, e)
    ||| c.layout.exit_right && spec_on_exit_path(dx2, int_abs(dy2), w - 1, e)
}

/// The deterministic part of the growth field: the edge-proximity term,
/// floored at the configured center growth.
pub open spec fn spec_const_component(c: RoomCfg, x: i64, y: i64) -> i64 {
    let ed = spec_edge_dist_fp(c, x, y);
    let one_minus = spec_sat_sub(SCALE, spec_mul_down(ed, c.params.growth_falloff));
    let term = spec_mul_down(c.params.edge_growth, one_minus);
    if term >= c.params.center_growth {
        term
    } else {
        c.params.center_growth
    }
}

/// The noise part of the growth field: scaled ridged fractal noise plus the
/// configured bias.
pub open spec fn spec_noise_component(c: RoomCfg, x: i64, y: i64) -> i64 {
    let n = spec_ridged_fractal(
        c.seed,
        x,
        y,
        c.params.growth_noise_frequency,
        SCALE,
        c.params.noise_fractal_gain,
        c.params.grow_noise_octaves,
    );
    spec_sat_add(spec_mul_down(c.params.growth_noise_amplitude, n), c.params.growth_noise_bias)
}

/// The growth field at cell `(x, y)`: [`CORRIDOR_GROWTH`] inside a critical
/// corridor, else the clamped sum of the edge term and the noise term.
pub open spec fn spec_growth(c: RoomCfg, x: i64, y: i64) -> i64 {
    if spec_in_critical_section(c, x, y) {
        CORRIDOR_GROWTH
    } else {
        spec_clamp(
            spec_sat_add(spec_const_component(c, x, y), spec_noise_component(c, x, y)),
            (-SCALE) as i64,
            SCALE,
        )
    }
}

/// The special field at cell `(x, y)`: scaled single-octave value noise,
/// independent of the growth field.
pub open spec fn spec_special(c: RoomCfg, x: i64, y: i64) -> i64 {
    let f = c.params.special_noise_frequency;
    spec_mul_down(
        c.params.special_noise_amplitude,
        spec_value_noise(c.seed, sat_i64_mul(x, f), sat_i64_mul(y, f)),
    )
}

/// Whether cell `(x, y)` gets a boundary wall: boundary cells do, except
/// inside the opening band of an open exit.
pub open spec fn spec_should_edge_wall(c: RoomCfg, x: i64, y: i64) -> bool {
    let w = c.width as int;
    let h = c.height as int;
    let cdx = x - w / 2;
    let cdy = y - h / 2;
    let md = (c.params.exit_size as int) / 2;
    if c.layout.exit_top && int_abs(cdx) <= md && cdy < 0 {
        false
    } else if c.layout.exit_bottom && int_abs(cdx) <= md && cdy > 0 {
        false
    } else if c.layout.exit_left && int_abs(cdy) <= md && cdx < 0 {
        false
    } else if c.layout.exit_right && int_abs(cdy) <= md && cdx > 0 {
        false
    } else {
        x == 0 || y == 0 || x == w - 1 || y == h - 1
    }
}

/// The floor classification of cell `(x, y)`.
pub open spec fn spec_floor_tile(c: RoomCfg, x: i64, y: i64) -> FloorTile {
    let g = spec_growth(c, x, y);
    if g >= c.params.tall_grass_growth_cutoff {
        FloorTile::TallGrass
    } else if g >= c.params.grass_growth_cutoff {
        FloorTile::Grass
    } else {
        FloorTile::Dirt
    }
}

/// Whether cell `(x, y)` holds a lone tree: both fields above their cutoffs.
pub open spec fn spec_lone_tree(c: RoomCfg, x: i64, y: i64) -> bool {
    spec_special(c, x, y) >= c.params.lone_tree_special_cutoff && spec_growth(c, x, y)
        >= c.params.lone_tree_growth_cutoff
}

/// Whether cell `(x, y)` is a wall: a sealed boundary cell, or dense growth.
pub open spec fn spec_wall(c: RoomCfg, x: i64, y: i64) -> bool {
    spec_should_edge_wall(c, x, y) || spec_growth(c, x, y) >= c.params.tree_growth_cutoff
}

/// The wall-layer classification of cell `(x, y)`: lone trees take
/// precedence over walls.
pub open spec fn spec_wall_tile(c: RoomCfg, x: i64, y: i64) -> WallTile {
    if spec_lone_tree(c, x, y) {
        WallTile::LoneTree
    } else if spec_wall(c, x, y) {
        WallTile::Wall
    } else {
        WallTile::Clear
    }
}

/// The floor classification at row-major index `idx`.
pub open spec fn spec_floor_at(c: RoomCfg, idx: int) -> FloorTile {
    spec_floor_tile(c, (idx % (c.width as int)) as i64, (idx / (c.width as int)) as i64)
}

/// The wall classification at row-major index `idx`.
pub open spec fn spec_wall_at(c: RoomCfg, idx: int) -> WallTile {
    spec_wall_tile(c, (idx % (c.width as int)) as i64, (idx / (c.width as int)) as i64)
}

/// Absolute value; the minimum is excluded so negation cannot overflow.
fn abs_i64(v: i64) -> (r: i64)
    requires
        v > i64::MIN,
    ensures
        r as int == int_abs(v as int),
{
    if v >= 0 {
        v
    } else {
        -v
    }
}

/// Decides membership in one exit cone.
fn on_exit_path(along2: i64, across2: i64, span: i64, exit_size: i64) -> (r: bool)
    requires
        -200000 <= along2 <= 200000,
        0 <= across2 <= 200000,
        0 <= span <= 70000,
        0 <= exit_size <= 1000,
    ensures
        r == spec_on_exit_path(along2 as int, across2 as int, span as int, exit_size as int),
{
    proof {
        assert(across2 * span <= 200000 * 70000 && across2 * span >= 0) by (nonlinear_arith)
            requires
                0 <= across2 <= 200000,
                0 <= span <= 70000,
        ;
        assert(-200000000 <= along2 * exit_size <= 200000000) by (nonlinear_arith)
            requires
                -200000 <= along2 <= 200000,
                0 <= exit_size <= 1000,
        ;
    }
    along2 >= 0 && across2 * span <= along2 * exit_size
}

/// Decides membership in the critical-path corridor of any open exit.
fn in_critical_section(c: &RoomCfg, x: i64, y: i64) -> (r: bool)
    requires
        cfg_valid(*c),
        0 <= x < c.width,
        0 <= y < c.height,
    ensures
        r == spec_in_critical_section(*c, x, y),
{
    let w = c.width as i64;
    let h = c.height as i64;
    let e = c.params.exit_size as i64;
    let dx2 = 2 * x - (w - 1);
    let dy2 = 2 * y - (h - 1);
    let adx = abs_i64(dx2);
    let ady = abs_i64(dy2);
    if c.layout.exit_top && on_exit_path(-dy2, adx, h - 1, e) {
        true
    } else if c.layout.exit_bottom && on_exit_path(dy2, adx, h - 1, e) {
        true
    } else if c.layout.exit_left && on_exit_path(-dx2, ady, w - 1, e) {
        true
    } else {
        c.layout.exit_right && on_exit_path(dx2, ady, w - 1, e)
    }
}

/// Evaluates the deterministic edge term of the growth field.
fn const_component(c: &RoomCfg, x: i64, y: i64) -> (r: i64)
    requires
        cfg_valid(*c),
        0 <= x < c.width,
        0 <= y < c.height,
    ensures
        r == spec_const_component(*c, x, y),
{
    let w = c.width as i64;
    let h = c.height as i64;
    let xd2_raw = (w - 1) - abs_i64(2 * x - (w - 1));
    let xd2 = if xd2_raw >= 0 {
        xd2_raw
    } else {
        0
    };
    let yd2_raw = (h - 1) - abs_i64(2 * y - (h - 1));
    let yd2 = if yd2_raw >= 0 {
        yd2_raw
    } else {
        0
    };
    let md2 = if xd2 <= yd2 {
        xd2
    } else {
        yd2
    };
    let ed = md2 * 500;
    proof {
        assert(ed == spec_edge_dist_fp(*c, x, y));
    }
    let one_minus = sat_sub(SCALE, mul_down(ed, c.params.growth_falloff));
    let term = mul_down(c.params.edge_growth, one_minus);
    if term >= c.params.center_growth {
        term
    } else {
        c.params.center_growth
    }
}

/// Evaluates the noise term of the growth field.
fn noise_component(c: &RoomCfg, x: i64, y: i64) -> (r: i64)
    requires
        cfg_valid(*c),
        0 <= x < c.width,
        0 <= y < c.height,
    ensures
        r == spec_noise_component(*c, x, y),
{
    let n = ridged_fractal(
        c.seed,
        x,
        y,
        c.params.growth_noise_frequency,
        SCALE,
        c.params.noise_fractal_gain,
        c.params.grow_noise_octaves,
    );
    sat_add(mul_down(c.params.growth_noise_amplitude, n), c.params.growth_noise_bias)
}

/// Evaluates the growth field at cell `(x, y)` without the memo table.
fn compute_growth(c: &RoomCfg, x: i64, y: i64) -> (r: i64)
    requires
        cfg_valid(*c),
        0 <= x < c.width,
        0 <= y < c.height,
    ensures
        r == spec_growth(*c, x, y),
{
    if in_critical_section(c, x, y) {
        CORRIDOR_GROWTH
    } else {
        clamp(sat_add(const_component(c, x, y), noise_component(c, x, y)), -SCALE, SCALE)
    }
}

/// The growth field with its per-cell memo table: once a cell is evaluated
/// its value is recorded and never recomputed.
pub struct GrowthField {
    cfg: RoomCfg,
    cache: Vec<Option<i64>>,
}

impl GrowthField {
    /// The configuration the field was built over.
    pub closed spec fn cfg(&self) -> RoomCfg {
        self.cfg
    }

    /// The memo table covers the room and every recorded entry equals the
    /// field value at its cell.
    pub closed spec fn wf(&self) -> bool {
        &&& cfg_valid(self.cfg)
        &&& self.cache@.len() == self.cfg.width * self.cfg.height
        &&& forall|i: int|
            0 <= i < self.cache@.len() ==> (#[trigger] self.cache@[i]) is None || self.cache@[i]
                == Some(
                spec_growth(
                    self.cfg,
                    (i % (self.cfg.width as int)) as i64,
                    (i / (self.cfg.width as int)) as i64,
                ),
            )
    }

    /// Builds the field for `cfg` with an empty memo table.
    pub fn new(cfg: RoomCfg) -> (r: GrowthField)
        requires
            cfg_valid(cfg),
        ensures
            r.wf(),
            r.cfg() == cfg,
    {
        proof {
            assert(cfg.width * cfg.height <= 65535 * 65535) by (nonlinear_arith)
                requires
                    cfg.width <= 65535,
                    cfg.height <= 65535,
            ;
        }
        let n = cfg.width * cfg.height;
        let mut cache: Vec<Option<i64>> = Vec::new();
        let mut i: usize = 0;
        while i < n
            invariant
                i <= n,
                cache@.len() == i,
                forall|j: int| 0 <= j < i ==> (#[trigger] cache@[j]) is None,
            decreases n - i,
        {
            cache.push(None);
            i = i + 1;
        }
        GrowthField { cfg, cache }
    }

    /// The growth value at cell `(x, y)`, memoized: a cached cell is read
    /// back, an uncached one is evaluated and recorded.
    pub fn get_growth_factor(&mut self, x: usize, y: usize) -> (r: i64)
        requires
            old(self).wf(),
            x < old(self).cfg().width,
            y < old(self).cfg().height,
        ensures
            final(self).wf(),
            final(self).cfg() == old(self).cfg(),
            r == spec_growth(old(self).cfg(), x as i64, y as i64),
    {
        let w = self.cfg.width;
        proof {
            assert(y * w + x < w * self.cfg.height && y * w + x < 4294836225) by (nonlinear_arith)
                requires
                    x < w,
                    y < self.cfg.height,
                    1 <= w <= 65535,
                    self.cfg.height <= 65535,
            ;
            lemma_fundamental_div_mod_converse_mod((y * w + x) as int, w as int, y as int, x as int);
            lemma_fundamental_div_mod_converse_div((y * w + x) as int, w as int, y as int, x as int);
        }
        let idx = y * w + x;
        let cached = self.cache[idx];
        match cached {
            Some(v) => v,
            None => {
                let v = compute_growth(&self.cfg, x as i64, y as i64);
                let slot = &mut self.cache[idx];
                *slot = Some(v);
                v
            },
        }
    }
}

/// The special (decoration) field: stateless scaled value noise.
pub struct SpecialField {
    cfg: RoomCfg,
}

impl SpecialField {
    /// The configuration the field was built over.
    pub closed spec fn cfg(&self) -> RoomCfg {
        self.cfg
    }

    /// Builds the field for `cfg`.
    pub fn new(cfg: RoomCfg) -> (r: SpecialField)
        requires
            cfg_valid(cfg),
        ensures
            r.cfg() == cfg,
            cfg_valid(r.cfg()),
    {
        SpecialField { cfg }
    }

    /// The special value at cell `(x, y)`.
    pub fn get_special_factor(&self, x: usize, y: usize) -> (r: i64)
        requires
            cfg_valid(self.cfg()),
            x < self.cfg().width,
            y < self.cfg().height,
        ensures
            r == spec_special(self.cfg(), x as i64, y as i64),
    {
        let f = self.cfg.params.special_noise_frequency;
        let xi = x as i64;
        let yi = y as i64;
        proof {
            assert(xi * f <= 65535 * MAX_FREQUENCY && xi * f >= 0) by (nonlinear_arith)
                requires
                    0 <= xi <= 65535,
                    0 < f <= MAX_FREQUENCY,
            ;
            assert(yi * f <= 65535 * MAX_FREQUENCY && yi * f >= 0) by (nonlinear_arith)
                requires
                    0 <= yi <= 65535,
                    0 < f <= MAX_FREQUENCY,
            ;
            assert(sat_i64_mul(xi, f) == xi * f);
            assert(sat_i64_mul(yi, f) == yi * f);
        }
        mul_down(self.cfg.params.special_noise_amplitude, value_noise(self.cfg.seed, xi * f, yi * f))
    }
}


/// Whether row-major index `idx` holds a lone tree.
pub open spec fn spec_lone_at(c: RoomCfg, idx: int) -> bool {
    spec_lone_tree(c, (idx % (c.width as int)) as i64, (idx / (c.width as int)) as i64)
}

/// Whether row-major index `idx` is a wall.
pub open spec fn spec_wall_cond_at(c: RoomCfg, idx: int) -> bool {
    spec_wall(c, (idx % (c.width as int)) as i64, (idx / (c.width as int)) as i64)
}

/// Row-major index facts for an in-range cell: `y * w + x` is in range and
/// decomposes back into `x` and `y`.
proof fn lemma_cell_index(w: int, h: int, x: int, y: int)
    requires
        0 < w <= 65535,
        0 < h <= 65535,
        0 <= x < w,
        0 <= y < h,
    ensures
        0 <= y * w + x < w * h,
        y * w + x < 4294836225,
        (y * w + x) % w == x,
        (y * w + x) / w == y,
        x % w == x,
        y % h == y,
        (y + 1) * w == y * w + w,
{
    assert(0 <= y * w + x < w * h && y * w + x < 4294836225 && (y + 1) * w == y * w + w)
        by (nonlinear_arith)
        requires
            0 < w <= 65535,
            0 < h <= 65535,
            0 <= x < w,
            0 <= y < h,
    ;
    lemma_fundamental_div_mod_converse_mod(y * w + x, w, y, x);
    lemma_fundamental_div_mod_converse_div(y * w + x, w, y, x);
    lemma_fundamental_div_mod_converse_mod(x, w, 0, x);
    lemma_fundamental_div_mod_converse_mod(y, h, 0, y);
}

/// Classifies every floor cell from the growth field: tall grass above its
/// cutoff, then grass, then dirt.
fn generate_floor(growth: &mut GrowthField, grid: &mut Grid<FloorTile>)
    requires
        old(growth).wf(),
        old(grid).wf(),
        old(grid).spec_width() == old(growth).cfg().width,
        old(grid).spec_height() == old(growth).cfg().height,
    ensures
        final(growth).wf(),
        final(growth).cfg() == old(growth).cfg(),
        final(grid).wf(),
        final(grid).spec_width() == old(grid).spec_width(),
        final(grid).spec_height() == old(grid).spec_height(),
        forall|i: int|
            0 <= i < final(grid).cells().len() ==> (#[trigger] final(grid).cells()[i])
                == spec_floor_at(old(growth).cfg(), i),
{
    let ghost c = growth.cfg();
    let w = grid.width();
    let h = grid.height();
    let mut y: usize = 0;
    while y < h
        invariant
            y <= h,
            growth.wf(),
            growth.cfg() == c,
            grid.wf(),
            grid.spec_width() == w,
            grid.spec_height() == h,
            w == c.width,
            h == c.height,
            cfg_valid(c),
            forall|i: int|
                0 <= i < y * w ==> (#[trigger] grid.cells()[i]) == spec_floor_at(c, i),
        decreases h - y,
    {
        let mut x: usize = 0;
        while x < w
            invariant
                x <= w,
                y < h,
                growth.wf(),
                growth.cfg() == c,
                grid.wf(),
                grid.spec_width() == w,
                grid.spec_height() == h,
                w == c.width,
                h == c.height,
                cfg_valid(c),
                forall|i: int|
                    0 <= i < y * w + x ==> (#[trigger] grid.cells()[i]) == spec_floor_at(c, i),
            decreases w - x,
        {
            proof {
                lemma_cell_index(w as int, h as int, x as int, y as int);
            }
            let g = growth.get_growth_factor(x, y);
            let tile = if g >= growth.cfg.params.tall_grass_growth_cutoff {
                FloorTile::TallGrass
            } else if g >= growth.cfg.params.grass_growth_cutoff {
                FloorTile::Grass
            } else {
                FloorTile::Dirt
            };
            grid.set(GridPos::new(x as i32, y as i32), tile);
            proof {
                assert(tile == spec_floor_at(c, y as int * (w as int) + x as int));
            }
            x = x + 1;
        }
        proof {
            assert((y as int + 1) * (w as int) == y as int * (w as int) + w as int)
                by (nonlinear_arith);
        }
        y = y + 1;
    }
    proof {
        assert(h as int * w as int == w as int * h as int);
    }
}

/// Marks a lone tree on every cell where both fields clear their cutoffs;
/// other cells keep their previous wall tile.
fn place_special(growth: &mut GrowthField, special: &SpecialField, grid: &mut Grid<WallTile>)
    requires
        old(growth).wf(),
        special.cfg() == old(growth).cfg(),
        old(grid).wf(),
        old(grid).spec_width() == old(growth).cfg().width,
        old(grid).spec_height() == old(growth).cfg().height,
    ensures
        final(growth).wf(),
        final(growth).cfg() == old(growth).cfg(),
        final(grid).wf(),
        final(grid).spec_width() == old(grid).spec_width(),
        final(grid).spec_height() == old(grid).spec_height(),
        forall|i: int|
            0 <= i < final(grid).cells().len() ==> (#[trigger] final(grid).cells()[i]) == (
            if spec_lone_at(old(growth).cfg(), i) {
                WallTile::LoneTree
            } else {
                old(grid).cells()[i]
            }),
{
    let ghost c = growth.cfg();
    let ghost orig = grid.cells();
    let w = grid.width();
    let h = grid.height();
    let mut y: usize = 0;
    while y < h
        invariant
            y <= h,
            growth.wf(),
            growth.cfg() == c,
            special.cfg() == c,
            grid.wf(),
            grid.spec_width() == w,
            grid.spec_height() == h,
            w == c.width,
            h == c.height,
            cfg_valid(c),
            grid.cells().len() == orig.len(),
            forall|i: int|
                0 <= i < y * w ==> (#[trigger] grid.cells()[i]) == (if spec_lone_at(c, i) {
                    WallTile::LoneTree
                } else {
                    orig[i]
                }),
            forall|i: int|
                y * w <= i < orig.len() ==> (#[trigger] grid.cells()[i]) == orig[i],
        decreases h - y,
    {
        let mut x: usize = 0;
        while x < w
            invariant
                x <= w,
                y < h,
                growth.wf(),
                growth.cfg() == c,
                special.cfg() == c,
                grid.wf(),
                grid.spec_width() == w,
                grid.spec_height() == h,
                w == c.width,
                h == c.height,
                cfg_valid(c),
                grid.cells().len() == orig.len(),
                forall|i: int|
                    0 <= i < y * w + x ==> (#[trigger] grid.cells()[i]) == (if spec_lone_at(c, i) {
                        WallTile::LoneTree
                    } else {
                        orig[i]
                    }),
                forall|i: int|
                    y * w + x <= i < orig.len() ==> (#[trigger] grid.cells()[i]) == orig[i],
            decreases w - x,
        {
            proof {
                lemma_cell_index(w as int, h as int, x as int, y as int);
            }
            let g = growth.get_growth_factor(x, y);
            let s = special.get_special_factor(x, y);
            if s >= growth.cfg.params.lone_tree_special_cutoff && g
                >= growth.cfg.params.lone_tree_growth_cutoff {
                grid.set(GridPos::new(x as i32, y as i32), WallTile::LoneTree);
            }
            x = x + 1;
        }
        proof {
            assert((y as int + 1) * (w as int) == y as int * (w as int) + w as int)
                by (nonlinear_arith);
        }
        y = y + 1;
    }
    proof {
        assert(h as int * w as int == w as int * h as int);
    }
}

/// Marks a wall on every sealed boundary cell and every cell of dense
/// growth; other cells keep their previous wall tile.
fn place_walls(growth: &mut GrowthField, grid: &mut Grid<WallTile>)
    requires
        old(growth).wf(),
        old(grid).wf(),
        old(grid).spec_width() == old(growth).cfg().width,
        old(grid).spec_height() == old(growth).cfg().height,
    ensures
        final(growth).wf(),
        final(growth).cfg() == old(growth).cfg(),
        final(grid).wf(),
        final(grid).spec_width() == old(grid).spec_width(),
        final(grid).spec_height() == old(grid).spec_height(),
        forall|i: int|
            0 <= i < final(grid).cells().len() ==> (#[trigger] final(grid).cells()[i]) == (
            if spec_wall_cond_at(old(growth).cfg(), i) {
                WallTile::Wall
            } else {
                old(grid).cells()[i]
            }),
{
    let ghost c = growth.cfg();
    let ghost orig = grid.cells();
    let w = grid.width();
    let h = grid.height();
    let mut y: usize = 0;
    while y < h
        invariant
            y <= h,
            growth.wf(),
            growth.cfg() == c,
            grid.wf(),
            grid.spec_width() == w,
            grid.spec_height() == h,
            w == c.width,
            h == c.height,
            cfg_valid(c),
            grid.cells().len() == orig.len(),
            forall|i: int|
                0 <= i < y * w ==> (#[trigger] grid.cells()[i]) == (if spec_wall_cond_at(c, i) {
                    WallTile::Wall
                } else {
                    orig[i]
                }),
            forall|i: int|
                y * w <= i < orig.len() ==> (#[trigger] grid.cells()[i]) == orig[i],
        decreases h - y,
    {
        let mut x: usize = 0;
        while x < w
            invariant
                x <= w,
                y < h,
                growth.wf(),
                growth.cfg() == c,
                grid.wf(),
                grid.spec_width() == w,
                grid.spec_height() == h,
                w == c.width,
                h == c.height,
                cfg_valid(c),
                grid.cells().len() == orig.len(),
                forall|i: int|
                    0 <= i < y * w + x ==> (#[trigger] grid.cells()[i]) == (if spec_wall_cond_at(
                        c,
                        i,
                    ) {
                        WallTile::Wall
                    } else {
                        orig[i]
                    }),
                forall|i: int|
                    y * w + x <= i < orig.len() ==> (#[trigger] grid.cells()[i]) == orig[i],
            decreases w - x,
        {
            proof {
                lemma_cell_index(w as int, h as int, x as int, y as int);
            }
            let g = growth.get_growth_factor(x, y);
            if should_have_edge_wall(&growth.cfg, x, y) || g
                >= growth.cfg.params.tree_growth_cutoff {
                grid.set(GridPos::new(x as i32, y as i32), WallTile::Wall);
            }
            x = x + 1;
        }
        proof {
            assert((y as int + 1) * (w as int) == y as int * (w as int) + w as int)
                by (nonlinear_arith);
        }
        y = y + 1;
    }
    proof {
        assert(h as int * w as int == w as int * h as int);
    }
}

/// Decides whether cell `(x, y)` gets a sealed boundary wall.
fn should_have_edge_wall(c: &RoomCfg, x: usize, y: usize) -> (r: bool)
    requires
        cfg_valid(*c),
        x < c.width,
        y < c.height,
    ensures
        r == spec_should_edge_wall(*c, x as i64, y as i64),
{
    let w = c.width as i64;
    let h = c.height as i64;
    let cdx = (x as i64) - w / 2;
    let cdy = (y as i64) - h / 2;
    let md = (c.params.exit_size as i64) / 2;
    proof {
        assert(w / 2 == (c.width as int) / 2);
        assert(h / 2 == (c.height as int) / 2);
        assert((c.params.exit_size as i64) / 2 == (c.params.exit_size as int) / 2);
    }
    let acdx = if cdx >= 0 {
        cdx
    } else {
        -cdx
    };
    let acdy = if cdy >= 0 {
        cdy
    } else {
        -cdy
    };
    if c.layout.exit_top && acdx <= md && cdy < 0 {
        false
    } else if c.layout.exit_bottom && acdx <= md && cdy > 0 {
        false
    } else if c.layout.exit_left && acdy <= md && cdx < 0 {
        false
    } else if c.layout.exit_right && acdy <= md && cdx > 0 {
        false
    } else {
        x == 0 || y == 0 || x as i64 == w - 1 || y as i64 == h - 1
    }
}

/// A room: fixed dimensions and tuning. Each [`Room::generate`] call derives
/// the floor and wall grids for one seed and exit layout.
pub struct Room {
    width: usize,
    height: usize,
    params: RoomGenParams,
}

impl Room {
    /// The dimensions are in the accepted range and the tuning is valid.
    pub closed spec fn wf(&self) -> bool {
        &&& self.params.valid()
        &&& 2 <= self.width <= MAX_ROOM_DIM
        &&& 2 <= self.height <= MAX_ROOM_DIM
    }

    /// The generation configuration for one seed and exit layout.
    pub closed spec fn cfg_for(&self, seed: u32, layout: RoomLayout) -> RoomCfg {
        RoomCfg { seed, params: self.params, layout, width: self.width, height: self.height }
    }

    /// Builds a room of the given dimensions and tuning.
    pub fn new(width: usize, height: usize, params: RoomGenParams) -> (r: Room)
        requires
            params.valid(),
            2 <= width <= MAX_ROOM_DIM,
            2 <= height <= MAX_ROOM_DIM,
        ensures
            r.wf(),
            forall|s: u32, l: RoomLayout| #[trigger] r.cfg_for(s, l) == (RoomCfg {
                seed: s,
                params,
                layout: l,
                width,
                height,
            }),
    {
        Room { width, height, params }
    }

    /// Generates the room for `seed` and `layout`: the floor grid and the
    /// wall grid, each cell classified by the pure per-cell functions
    /// [`spec_floor_at`] and [`spec_wall_at`] of the configuration alone —
    /// so two runs over the same inputs return identical grids.
    pub fn generate(&self, seed: u32, layout: RoomLayout) -> (r: (Grid<FloorTile>, Grid<WallTile>))
        requires
            self.wf(),
        ensures
            r.0.wf(),
            r.1.wf(),
            cfg_valid(self.cfg_for(seed, layout)),
            r.0.spec_width() == self.cfg_for(seed, layout).width,
            r.0.spec_height() == self.cfg_for(seed, layout).height,
            r.1.spec_width() == self.cfg_for(seed, layout).width,
            r.1.spec_height() == self.cfg_for(seed, layout).height,
            r.0.cells().len() == r.0.spec_width() * r.0.spec_height(),
            r.1.cells().len() == r.1.spec_width() * r.1.spec_height(),
            forall|i: int|
                0 <= i < r.0.cells().len() ==> (#[trigger] r.0.cells()[i]) == spec_floor_at(
                    self.cfg_for(seed, layout),
                    i,
                ),
            forall|i: int|
                0 <= i < r.1.cells().len() ==> (#[trigger] r.1.cells()[i]) == spec_wall_at(
                    self.cfg_for(seed, layout),
                    i,
                ),
    {
        let cfg = RoomCfg {
            seed,
            params: self.params,
            layout,
            width: self.width,
            height: self.height,
        };
        proof {
            assert(cfg.width * cfg.height <= 65535 * 65535) by (nonlinear_arith)
                requires
                    cfg.width <= 65535,
                    cfg.height <= 65535,
            ;
        }
        let mut growth = GrowthField::new(cfg);
        let special = SpecialField::new(cfg);

        let mut floor_grid: Grid<FloorTile> = Grid::new(self.width, self.height);
        generate_floor(&mut growth, &mut floor_grid);

        let mut wall_grid: Grid<WallTile> = Grid::new(self.width, self.height);
        let ghost wall0 = wall_grid.cells();
        place_walls(&mut growth, &mut wall_grid);
        let ghost wall1 = wall_grid.cells();
        place_special(&mut growth, &special, &mut wall_grid);
        proof {
            assert forall|i: int| 0 <= i < wall_grid.cells().len() implies (
            #[trigger] wall_grid.cells()[i]) == spec_wall_at(cfg, i) by {
                assert(wall0[i] == WallTile::Clear);
                assert(wall1[i] == (if spec_wall_cond_at(cfg, i) {
                    WallTile::Wall
                } else {
                    WallTile::Clear
                }));
            }
        }
        (floor_grid, wall_grid)
    }
}


/// For an odd extent `n`, the center `(n - 1) / 2` is exact, agrees with
/// `n / 2`, and is strictly interior.
proof fn lemma_center_split(n: int)
    requires
        3 <= n,
        n % 2 == 1,
    ensures
        2 * ((n - 1) / 2) == n - 1,
        (n - 1) / 2 == n / 2,
        1 <= (n - 1) / 2,
        (n - 1) / 2 < n - 1,
{
    lemma_fundamental_div_mod(n, 2);
    lemma_fundamental_div_mod_converse_div(n - 1, 2, n / 2, 0);
    lemma_fundamental_div_mod_converse_mod(n - 1, 2, n / 2, 0);
}

/// Law: boundary sealing. With every exit closed, every boundary cell of the
/// room classifies as a wall — never as walkable — except where the lone-tree
/// precedence rule overrides it with a (still non-walkable) lone tree.
pub proof fn lemma_boundary_sealed(c: RoomCfg, x: i64, y: i64)
    requires
        cfg_valid(c),
        !c.layout.exit_top,
        !c.layout.exit_bottom,
        !c.layout.exit_left,
        !c.layout.exit_right,
        0 <= x < c.width,
        0 <= y < c.height,
        x == 0 || y == 0 || x == c.width - 1 || y == c.height - 1,
    ensures
        spec_wall_tile(c, x, y) == (if spec_lone_tree(c, x, y) {
            WallTile::LoneTree
        } else {
            WallTile::Wall
        }),
        spec_wall_tile(c, x, y) != WallTile::Clear,
{
    assert(spec_should_edge_wall(c, x, y));
}

/// With every exit closed, the edge-wall rule marks exactly the boundary
/// cells: every boundary cell and no interior cell.
pub proof fn lemma_sealed_edge_wall_exact(c: RoomCfg, x: i64, y: i64)
    requires
        cfg_valid(c),
        !c.layout.exit_top,
        !c.layout.exit_bottom,
        !c.layout.exit_left,
        !c.layout.exit_right,
        0 <= x < c.width,
        0 <= y < c.height,
    ensures
        spec_should_edge_wall(c, x, y) == (x == 0 || y == 0 || x == c.width - 1 || y == c.height
            - 1),
{
}

/// Law: determinism. Two generation results that both meet
/// [`Room::generate`]'s contract for the same configuration hold identical
/// floor and wall grids.
pub proof fn lemma_generation_deterministic(
    c: RoomCfg,
    fa: Grid<FloorTile>,
    fb: Grid<FloorTile>,
    wa: Grid<WallTile>,
    wb: Grid<WallTile>,
)
    requires
        fa.cells().len() == fb.cells().len(),
        wa.cells().len() == wb.cells().len(),
        forall|i: int| 0 <= i < fa.cells().len() ==> (#[trigger] fa.cells()[i]) == spec_floor_at(c, i),
        forall|i: int| 0 <= i < fb.cells().len() ==> (#[trigger] fb.cells()[i]) == spec_floor_at(c, i),
        forall|i: int| 0 <= i < wa.cells().len() ==> (#[trigger] wa.cells()[i]) == spec_wall_at(c, i),
        forall|i: int| 0 <= i < wb.cells().len() ==> (#[trigger] wb.cells()[i]) == spec_wall_at(c, i),
    ensures
        fa.cells() =~= fb.cells(),
        wa.cells() =~= wb.cells(),
{
}

/// Law: room connectivity, bottom exit. For odd dimensions and an open
/// bottom exit, the whole center column from the room center down to the
/// boundary — which ends inside the exit's opening band — classifies as
/// walkable, so a path of non-wall cells joins the center to the opening.
#[verifier::rlimit(60)]
pub proof fn lemma_corridor_to_bottom(c: RoomCfg, t: i64)
    requires
        cfg_valid(c),
        c.width % 2 == 1,
        c.height % 2 == 1,
        c.layout.exit_bottom,
        (c.height - 1) / 2 <= t <= c.height - 1,
    ensures
        spec_wall_tile(c, ((c.width - 1) as int / 2) as i64, t) == WallTile::Clear,
{
    let w = c.width as int;
    let h = c.height as int;
    lemma_center_split(w);
    lemma_center_split(h);
    let cx = (w - 1) / 2;
    let cy = (h - 1) / 2;
    let x = cx as i64;
    let e = c.params.exit_size as int;
    let dx2 = 2 * (x as int) - (w - 1);
    let dy2 = 2 * (t as int) - (h - 1);
    assert(dx2 == 0);
    assert(dy2 >= 0);
    assert(dy2 * e >= 0) by (nonlinear_arith)
        requires
            dy2 >= 0,
            e >= 0,
    ;
    assert(int_abs(dx2) * (h - 1) == 0);
    assert(spec_on_exit_path(dy2, int_abs(dx2), h - 1, e));
    assert(spec_in_critical_section(c, x, t));
    assert(spec_growth(c, x, t) == CORRIDOR_GROWTH);
    assert(!spec_should_edge_wall(c, x, t)) by {
        assert(x as int - w / 2 == 0);
        if t as int > cy {
            assert(t as int - h / 2 > 0);
        } else {
            assert(t == cy as i64);
            assert(1 <= x as int && (x as int) < w - 1);
            assert(1 <= t as int && (t as int) < h - 1);
        }
    }
}

/// Law: room connectivity, top exit. The center column from the room center
/// up to the boundary is walkable when the top exit is open.
#[verifier::rlimit(60)]
pub proof fn lemma_corridor_to_top(c: RoomCfg, t: i64)
    requires
        cfg_valid(c),
        c.width % 2 == 1,
        c.height % 2 == 1,
        c.layout.exit_top,
        0 <= t <= (c.height - 1) / 2,
    ensures
        spec_wall_tile(c, ((c.width - 1) as int / 2) as i64, t) == WallTile::Clear,
{
    let w = c.width as int;
    let h = c.height as int;
    lemma_center_split(w);
    lemma_center_split(h);
    let cx = (w - 1) / 2;
    let cy = (h - 1) / 2;
    let x = cx as i64;
    let e = c.params.exit_size as int;
    let dx2 = 2 * (x as int) - (w - 1);
    let dy2 = 2 * (t as int) - (h - 1);
    assert(dx2 == 0);
    assert(-dy2 >= 0);
    assert((-dy2) * e >= 0) by (nonlinear_arith)
        requires
            -dy2 >= 0,
            e >= 0,
    ;
    assert(int_abs(dx2) * (h - 1) == 0);
    assert(spec_on_exit_path(-dy2, int_abs(dx2), h - 1, e));
    assert(spec_in_critical_section(c, x, t));
    assert(spec_growth(c, x, t) == CORRIDOR_GROWTH);
    assert(!spec_should_edge_wall(c, x, t)) by {
        assert(x as int - w / 2 == 0);
        if (t as int) < cy {
            assert(t as int - h / 2 < 0);
        } else {
            assert(t == cy as i64);
            assert(1 <= x as int && (x as int) < w - 1);
            assert(1 <= t as int && (t as int) < h - 1);
        }
    }
}

/// Law: room connectivity, right exit. The center row from the room center
/// to the right boundary is walkable when the right exit is open.
#[verifier::rlimit(60)]
pub proof fn lemma_corridor_to_right(c: RoomCfg, t: i64)
    requires
        cfg_valid(c),
        c.width % 2 == 1,
        c.height % 2 == 1,
        c.layout.exit_right,
        (c.width - 1) / 2 <= t <= c.width - 1,
    ensures
        spec_wall_tile(c, t, ((c.height - 1) as int / 2) as i64) == WallTile::Clear,
{
    let w = c.width as int;
    let h = c.height as int;
    lemma_center_split(w);
    lemma_center_split(h);
    let cx = (w - 1) / 2;
    let cy = (h - 1) / 2;
    let y = cy as i64;
    let e = c.params.exit_size as int;
    let dx2 = 2 * (t as int) - (w - 1);
    let dy2 = 2 * (y as int) - (h - 1);
    assert(dy2 == 0);
    assert(dx2 >= 0);
    assert(dx2 * e >= 0) by (nonlinear_arith)
        requires
            dx2 >= 0,
            e >= 0,
    ;
    assert(int_abs(dy2) * (w - 1) == 0);
    assert(spec_on_exit_path(dx2, int_abs(dy2), w - 1, e));
    assert(spec_in_critical_section(c, t, y));
    assert(spec_growth(c, t, y) == CORRIDOR_GROWTH);
    assert(!spec_should_edge_wall(c, t, y)) by {
        assert(y as int - h / 2 == 0);
        if t as int > cx {
            assert(t as int - w / 2 > 0);
        } else {
            assert(t == cx as i64);
            assert(1 <= t as int && (t as int) < w - 1);
            assert(1 <= y as int && (y as int) < h - 1);
        }
    }
}

/// Law: room connectivity, left exit. The center row from the room center to
/// the left boundary is walkable when the left exit is open.
#[verifier::rlimit(60)]
pub proof fn lemma_corridor_to_left(c: RoomCfg, t: i64)
    requires
        cfg_valid(c),
        c.width % 2 == 1,
        c.height % 2 == 1,
        c.layout.exit_left,
        0 <= t <= (c.width - 1) / 2,
    ensures
        spec_wall_tile(c, t, ((c.height - 1) as int / 2) as i64) == WallTile::Clear,
{
    let w = c.width as int;
    let h = c.height as int;
    lemma_center_split(w);
    lemma_center_split(h);
    let cx = (w - 1) / 2;
    let cy = (h - 1) / 2;
    let y = cy as i64;
    let e = c.params.exit_size as int;
    let dx2 = 2 * (t as int) - (w - 1);
    let dy2 = 2 * (y as int) - (h - 1);
    assert(dy2 == 0);
    assert(-dx2 >= 0);
    assert((-dx2) * e >= 0) by (nonlinear_arith)
        requires
            -dx2 >= 0,
            e >= 0,
    ;
    assert(int_abs(dy2) * (w - 1) == 0);
    assert(spec_on_exit_path(-dx2, int_abs(dy2), w - 1, e));
    assert(spec_in_critical_section(c, t, y));
    assert(spec_growth(c, t, y) == CORRIDOR_GROWTH);
    assert(!spec_should_edge_wall(c, t, y)) by {
        assert(y as int - h / 2 == 0);
        if (t as int) < cx {
            assert(t as int - w / 2 < 0);
        } else {
            assert(t == cx as i64);
            assert(1 <= t as int && (t as int) < w - 1);
            assert(1 <= y as int && (y as int) < h - 1);
        }
    }
}


/// Horizontal distance between neighboring rooms, in world units.
pub const ROOM_PITCH_X: i64 = 576;

/// Vertical distance between neighboring rooms, in world units.
pub const ROOM_PITCH_Y: i64 = 352;

/// The neighbor-room positions reachable through the open exits of
/// `layout`, from a room at `(x, y)`, in the order right, left, bottom, top.
pub open spec fn spec_adjacent_positions(layout: RoomLayout, x: i64, y: i64) -> Seq<(i64, i64)> {
    let r0 = Seq::<(i64, i64)>::empty();
    let r1 = if layout.exit_right {
        r0.push((((x + ROOM_PITCH_X) as i64), y))
    } else {
        r0
    };
    let r2 = if layout.exit_left {
        r1.push((((x - ROOM_PITCH_X) as i64), y))
    } else {
        r1
    };
    let r3 = if layout.exit_bottom {
        r2.push((x, ((y + ROOM_PITCH_Y) as i64)))
    } else {
        r2
    };
    if layout.exit_top {
        r3.push((x, ((y - ROOM_PITCH_Y) as i64)))
    } else {
        r3
    }
}

/// The positions at which neighbor rooms stand, one room pitch away through
/// each open exit. The room placer spawns a room at each returned position
/// that is not already occupied.
pub fn adjacent_room_positions(layout: &RoomLayout, x: i64, y: i64) -> (r: Vec<(i64, i64)>)
    requires
        -1000000000 <= x <= 1000000000,
        -1000000000 <= y <= 1000000000,
    ensures
        r@ == spec_adjacent_positions(*layout, x, y),
{
    let mut out: Vec<(i64, i64)> = Vec::new();
    if layout.exit_right {
        out.push((x + ROOM_PITCH_X, y));
    }
    if layout.exit_left {
        out.push((x - ROOM_PITCH_X, y));
    }
    if layout.exit_bottom {
        out.push((x, y + ROOM_PITCH_Y));
    }
    if layout.exit_top {
        out.push((x, y - ROOM_PITCH_Y));
    }
    out
}

/// Whether the point `(x, y)` lies strictly inside the room whose top-left
/// corner sits at `(room_x, room_y)`, one room pitch in size. The room
/// placer uses this to detect an already-occupied neighbor position.
pub fn room_contains(room_x: i64, room_y: i64, x: i64, y: i64) -> (r: bool)
    requires
        -1000000000 <= room_x <= 1000000000,
        -1000000000 <= room_y <= 1000000000,
    ensures
        r == (room_x < x && x < room_x + ROOM_PITCH_X && room_y < y && y < room_y + ROOM_PITCH_Y),
{
    room_x < x && x < room_x + ROOM_PITCH_X && room_y < y && y < room_y + ROOM_PITCH_Y
}

/// The positions of the cells of `cells` (row-major over width `w`) that
/// hold exactly the tile `tile`, in row-major order.
pub open spec fn spec_floor_cells_with(cells: Seq<FloorTile>, w: int, tile: FloorTile) -> Seq<
    GridPos,
>
    decreases cells.len(),
{
    if cells.len() == 0 {
        Seq::empty()
    } else {
        let rest = spec_floor_cells_with(cells.drop_last(), w, tile);
        let idx = cells.len() - 1;
        if cells.last() == tile {
            rest.push(GridPos { x: ((idx % w) as i32), y: ((idx / w) as i32) })
        } else {
            rest
        }
    }
}

/// The positions of the wall-grid cells that hold exactly `tile`, in
/// row-major order.
pub open spec fn spec_wall_cells_with(cells: Seq<WallTile>, w: int, tile: WallTile) -> Seq<GridPos>
    decreases cells.len(),
{
    if cells.len() == 0 {
        Seq::empty()
    } else {
        let rest = spec_wall_cells_with(cells.drop_last(), w, tile);
        let idx = cells.len() - 1;
        if cells.last() == tile {
            rest.push(GridPos { x: ((idx % w) as i32), y: ((idx / w) as i32) })
        } else {
            rest
        }
    }
}

/// Collects every floor cell holding `tile`, in row-major order, so a
/// renderer can paint each category in one batched call.
pub fn floor_cells_with(grid: &Grid<FloorTile>, tile: FloorTile) -> (r: Vec<GridPos>)
    requires
        grid.wf(),
        grid.spec_width() > 0,
        grid.spec_height() > 0,
    ensures
        r@ == spec_floor_cells_with(grid.cells(), grid.spec_width() as int, tile),
{
    let ghost w = grid.spec_width() as int;
    let total = grid.width() * grid.height();
    let mut out: Vec<GridPos> = Vec::new();
    let mut it = grid.iter();
    while it.idx < total
        invariant
            grid.wf(),
            *it.grid == *grid,
            it.idx <= total,
            total == grid.cells().len(),
            w == grid.spec_width() as int,
            out@ == spec_floor_cells_with(grid.cells().take(it.idx as int), w, tile),
        decreases total - it.idx,
    {
        let ghost i = it.idx as int;
        proof {
            lemma_take_step(grid.cells(), i);
        }
        match it.next() {
            Some(pv) => {
                if *pv.1 == tile {
                    out.push(pv.0);
                }
                proof {
                    let cur = grid.cells().take(i + 1);
                    if grid.cells()[i] == tile {
                        let p = GridPos { x: ((i % w) as i32), y: ((i / w) as i32) };
                        assert(pv.0 == p);
                        assert(spec_floor_cells_with(cur, w, tile) == spec_floor_cells_with(
                            grid.cells().take(i),
                            w,
                            tile,
                        ).push(p));
                    } else {
                        assert(spec_floor_cells_with(cur, w, tile) == spec_floor_cells_with(
                            grid.cells().take(i),
                            w,
                            tile,
                        ));
                    }
                }
            },
            None => {},
        }
    }
    proof {
        assert(grid.cells().take(total as int) =~= grid.cells());
    }
    out
}

/// Collects every wall-grid cell holding `tile`, in row-major order, so a
/// renderer can paint each category in one batched call.
pub fn wall_cells_with(grid: &Grid<WallTile>, tile: WallTile) -> (r: Vec<GridPos>)
    requires
        grid.wf(),
        grid.spec_width() > 0,
        grid.spec_height() > 0,
    ensures
        r@ == spec_wall_cells_with(grid.cells(), grid.spec_width() as int, tile),
{
    let ghost w = grid.spec_width() as int;
    let total = grid.width() * grid.height();
    let mut out: Vec<GridPos> = Vec::new();
    let mut it = grid.iter();
    while it.idx < total
        invariant
            grid.wf(),
            *it.grid == *grid,
            it.idx <= total,
            total == grid.cells().len(),
            w == grid.spec_width() as int,
            out@ == spec_wall_cells_with(grid.cells().take(it.idx as int), w, tile),
        decreases total - it.idx,
    {
        let ghost i = it.idx as int;
        proof {
            lemma_take_step(grid.cells(), i);
        }
        match it.next() {
            Some(pv) => {
                if *pv.1 == tile {
                    out.push(pv.0);
                }
                proof {
                    let cur = grid.cells().take(i + 1);
                    if grid.cells()[i] == tile {
                        let p = GridPos { x: ((i % w) as i32), y: ((i / w) as i32) };
                        assert(pv.0 == p);
                        assert(spec_wall_cells_with(cur, w, tile) == spec_wall_cells_with(
                            grid.cells().take(i),
                            w,
                            tile,
                        ).push(p));
                    } else {
                        assert(spec_wall_cells_with(cur, w, tile) == spec_wall_cells_with(
                            grid.cells().take(i),
                            w,
                            tile,
                        ));
                    }
                }
            },
            None => {},
        }
    }
    proof {
        assert(grid.cells().take(total as int) =~= grid.cells());
    }
    out
}

} // verus!
