//! The immutable level substrate: a rectangular tile grid that behaves as
//! if surrounded by infinite wall, the level metadata (spawn pose, exit
//! cell, textures), and level construction from authored rows of symbols.

use crate::fixed::{fx_trunc, fx_trunc_spec, CellPos, Vec2Fx};
use std::collections::HashMap;
use vstd::prelude::*;
use vstd::string::StringExecFns;

verus! {

/// Identifier reported for every out-of-range coordinate: the grid is
/// bordered by infinite wall.
pub const WALL_SENTINEL: u8 = 1;

/// Largest accepted map side, so that every fixed-point distance the
/// traversal accumulates stays well inside an `i64`.
pub const MAX_MAP_SIDE: i64 = 8192;

/// A decoded RGBA8 image, one packed little-endian `u32` per pixel.
/// Loaded for forward compatibility; the renderer does not sample it.
pub struct Texture {
    pub w: u32,
    pub h: u32,
    pub pixels: Vec<u32>,
}

/// A row-major grid of tile identifiers. Id 0 is open floor, ids 1..=9
/// are wall variants; every out-of-range lookup reports `WALL_SENTINEL`.
#[derive(Clone)]
pub struct TileMap {
    pub width: i64,
    pub height: i64,
    pub tiles: Vec<u8>,
}

impl TileMap {
    /// Well-formedness: positive sides within the renderer's limit, and a
    /// tile buffer of exactly `width * height` entries.
    pub open spec fn wf(&self) -> bool {
        &&& 1 <= self.width <= MAX_MAP_SIDE
        &&& 1 <= self.height <= MAX_MAP_SIDE
        &&& self.tiles@.len() == self.width * self.height
    }

    pub open spec fn in_bounds(&self, x: int, y: int) -> bool {
        0 <= x < self.width && 0 <= y < self.height
    }

    /// The tile id at a cell, with the infinite-wall border applied.
    pub open spec fn tile_at(&self, x: int, y: int) -> u8 {
        if self.in_bounds(x, y) {
            self.tiles@[y * self.width + x]
        } else {
            WALL_SENTINEL
        }
    }

    /// Row-major index of an in-range cell, `None` outside the grid.
    pub fn idx(&self, x: i64, y: i64) -> (r: Option<usize>)
        requires
            self.wf(),
        ensures
            r is Some <==> self.in_bounds(x as int, y as int),
            r matches Some(i) ==> i == y * self.width + x && i < self.width * self.height,
    {
        if x < 0 || y < 0 || x >= self.width || y >= self.height {
            return None;
        }
        proof {
            assert(0 <= y * self.width + x < self.width * self.height <= 0x4000000)
                by (nonlinear_arith)
                requires
                    0 <= x < self.width <= 8192,
                    0 <= y < self.height <= 8192,
            ;
        }
        Some((y * self.width + x) as usize)
    }

    /// Bounds-safe lookup: out-of-range coordinates report the wall
    /// sentinel instead of erroring.
    pub fn tile(&self, x: i64, y: i64) -> (t: u8)
        requires
            self.wf(),
        ensures
            t == self.tile_at(x as int, y as int),
    {
        match self.idx(x, y) {
            Some(i) => self.tiles[i],
            None => WALL_SENTINEL,
        }
    }
}

/// One loaded level: the grid, optional textures keyed by tile id, the
/// spawn pose, the optional exit cell, and a display name.
pub struct World {
    pub map: TileMap,
    pub textures: HashMap<u8, Texture>,
    pub player_spawn: Vec2Fx,
    /// Spawn facing angle in fixed-point degrees.
    pub player_dir_deg: i64,
    pub exit_tile: Option<CellPos>,
    pub name: String,
}

impl World {
    pub open spec fn wf(&self) -> bool {
        self.map.wf()
    }

    pub open spec fn is_wall_at(&self, x: int, y: int) -> bool {
        self.map.tile_at(x, y) != 0
    }

    pub fn is_wall(&self, x: i64, y: i64) -> (b: bool)
        requires
            self.wf(),
        ensures
            b == self.is_wall_at(x as int, y as int),
    {
        self.map.tile(x, y) > 0
    }

    pub fn tile_id(&self, x: i64, y: i64) -> (t: u8)
        requires
            self.wf(),
        ensures
            t == self.map.tile_at(x as int, y as int),
    {
        self.map.tile(x, y)
    }

    /// True exactly while the truncated integer coordinate of the given
    /// fixed-point position equals the recorded exit cell.
    pub open spec fn on_exit_at(&self, x: int, y: int) -> bool {
        match self.exit_tile {
            Some(t) => t.x == fx_trunc_spec(x) && t.y == fx_trunc_spec(y),
            None => false,
        }
    }

    pub fn is_on_exit_tile(&self, x: i64, y: i64) -> (b: bool)
        requires
            x != i64::MIN,
            y != i64::MIN,
        ensures
            b == self.on_exit_at(x as int, y as int),
    {
        match self.exit_tile {
            Some(t) => {
                let cx = fx_trunc(x);
                let cy = fx_trunc(y);
                cx == t.x && cy == t.y
            },
            None => false,
        }
    }

    /// Any coordinate outside the grid is a wall: the border is
    /// impenetrable, so collision and traversal never need bounds checks.
    pub proof fn lemma_outside_is_wall(&self, x: int, y: int)
        requires
            !self.map.in_bounds(x, y),
        ensures
            self.map.tile_at(x, y) == WALL_SENTINEL,
            self.is_wall_at(x, y),
    {
    }
}

/// The tile id an authored symbol maps to: `'0'` is floor, `'1'`..`'9'`
/// keep their digit value, `'E'` is floor (and marks the exit), and any
/// other symbol falls back to the wall sentinel.
pub open spec fn tile_of_symbol(c: u8) -> u8 {
    if c == 48 {
        0
    } else if 49 <= c <= 57 {
        (c - 48) as u8
    } else if c == 69 {
        0
    } else {
        WALL_SENTINEL
    }
}

/// One authored row mapped through the symbol grammar.
pub open spec fn row_tiles(row: Seq<u8>) -> Seq<u8> {
    row.map_values(|c: u8| tile_of_symbol(c))
}

/// The whole authored grid mapped to a row-major tile buffer.
pub open spec fn grid_tiles(rows: Seq<Seq<u8>>) -> Seq<u8>
    decreases rows.len(),
{
    if rows.len() == 0 {
        Seq::empty()
    } else {
        grid_tiles(rows.drop_last()) + row_tiles(rows.last())
    }
}

/// Index of the last exit symbol in a row, if any.
pub open spec fn last_exit_in_row(row: Seq<u8>) -> Option<int>
    decreases row.len(),
{
    if row.len() == 0 {
        None
    } else if row[row.len() - 1] == 69 {
        Some(row.len() - 1)
    } else {
        last_exit_in_row(row.drop_last())
    }
}

/// Cell `(x, y)` of the last exit symbol in the grid, if any; a later
/// exit symbol overrides an earlier one, as the loader records them.
pub open spec fn last_exit(rows: Seq<Seq<u8>>) -> Option<(int, int)>
    decreases rows.len(),
{
    if rows.len() == 0 {
        None
    } else {
        match last_exit_in_row(rows[rows.len() - 1]) {
            Some(j) => Some((j, rows.len() - 1)),
            None => last_exit(rows.drop_last()),
        }
    }
}

/// The view of authored rows as a sequence of byte sequences.
pub open spec fn rows_view(rows: Seq<Vec<u8>>) -> Seq<Seq<u8>> {
    rows.map_values(|r: Vec<u8>| r@)
}

/// Sides within the renderer's limit.
pub open spec fn dims_ok(width: int, height: int) -> bool {
    1 <= width <= MAX_MAP_SIDE && 1 <= height <= MAX_MAP_SIDE
}

/// Every authored row as long as the declared width, and as many rows as
/// the declared height.
pub open spec fn rows_ok(rows: Seq<Seq<u8>>, width: int, height: int) -> bool {
    &&& rows.len() == height
    &&& forall|i: int| 0 <= i < rows.len() ==> (#[trigger] rows[i]).len() == width
}

/// Why a level failed to load.
#[derive(Clone, Copy, PartialEq, Eq, Structural, Debug)]
pub enum LevelError {
    /// A side was not positive or exceeded the renderer's limit.
    BadDimensions,
    /// The number of rows disagrees with the declared height.
    RowCountMismatch,
    /// The named row's length disagrees with the declared width.
    RowLengthMismatch(usize),
}

impl World {
    /// Builds a level from authored rows of symbols and its metadata.
    /// Fails exactly when the sides are unusable or a row disagrees with
    /// the declared dimensions; otherwise the grid is the symbol-mapped
    /// rows, and the exit is the explicit one, or the last exit symbol.
    pub fn from_level(
        name: String,
        width: i64,
        height: i64,
        rows: Vec<Vec<u8>>,
        player_spawn: Vec2Fx,
        player_dir_deg: i64,
        exit_override: Option<CellPos>,
        textures: HashMap<u8, Texture>,
    ) -> (r: Result<World, LevelError>)
        ensures
            r is Ok <==> dims_ok(width as int, height as int) && rows_ok(
                rows_view(rows@),
                width as int,
                height as int,
            ),
            r matches Ok(w) ==> {
                &&& w.map.width == width
                &&& w.map.height == height
                &&& w.wf()
                &&& w.map.tiles@ == grid_tiles(rows_view(rows@))
                &&& w.player_spawn == player_spawn
                &&& w.player_dir_deg == player_dir_deg
                &&& w.name == name
                &&& w.textures == textures
                &&& w.exit_tile == (match exit_override {
                    Some(c) => Some(c),
                    None => (match last_exit(rows_view(rows@)) {
                        Some(e) => Some((CellPos { x: e.0 as i64, y: e.1 as i64 })),
                        None => None,
                    }),
                })
            },
            r matches Err(e) ==> (match e {
                LevelError::BadDimensions => !dims_ok(width as int, height as int),
                LevelError::RowCountMismatch => dims_ok(width as int, height as int)
                    && rows@.len() != height,
                LevelError::RowLengthMismatch(i) => dims_ok(width as int, height as int)
                    && rows@.len() == height && i < rows@.len() && rows_view(rows@)[i as int].len()
                    != width && forall|j: int|
                    0 <= j < i ==> (#[trigger] rows_view(rows@)[j]).len() == width,
            }),
    {
        let ghost rv = rows_view(rows@);
        if width < 1 || width > MAX_MAP_SIDE || height < 1 || height > MAX_MAP_SIDE {
            return Err(LevelError::BadDimensions);
        }
        if rows.len() != height as usize {
            return Err(LevelError::RowCountMismatch);
        }
        let mut i: usize = 0;
        while i < rows.len()
            invariant
                rows.len() == height,
                1 <= width <= MAX_MAP_SIDE,
                1 <= height <= MAX_MAP_SIDE,
                i <= rows.len(),
                rv == rows_view(rows@),
                rv.len() == rows@.len(),
                forall|j: int| 0 <= j < i ==> (#[trigger] rv[j]).len() == width,
            decreases rows.len() - i,
        {
            proof {
                assert(rv[i as int] == rows@[i as int]@);
            }
            if rows[i].len() != width as usize {
                return Err(LevelError::RowLengthMismatch(i));
            }
            i = i + 1;
        }
        proof {
            assert(rows_ok(rv, width as int, height as int));
        }
        let mut tiles: Vec<u8> = Vec::new();
        let mut exit: Option<CellPos> = None;
        let mut y: i64 = 0;
        while y < height
            invariant
                rows_ok(rv, width as int, height as int),
                rv == rows_view(rows@),
                1 <= width <= MAX_MAP_SIDE,
                1 <= height <= MAX_MAP_SIDE,
                rows.len() == height,
                0 <= y <= height,
                tiles@.len() == y * width,
                tiles@ == grid_tiles(rv.subrange(0, y as int)),
                exit_matches(exit, last_exit(rv.subrange(0, y as int))),
            decreases height - y,
        {
            let row = &rows[y as usize];
            let ghost rseq = row@;
            proof {
                assert(rv[y as int] == rseq);
            }
            let mut x: i64 = 0;
            while x < width
                invariant
                    1 <= width <= MAX_MAP_SIDE,
                    1 <= height <= MAX_MAP_SIDE,
                    0 <= y < height,
                    0 <= x <= width,
                    rseq.len() == width,
                    row@ == rseq,
                    tiles@.len() == y * width + x,
                    tiles@ == grid_tiles(rv.subrange(0, y as int)) + row_tiles(
                        rseq.subrange(0, x as int),
                    ),
                    exit_matches(
                        exit,
                        match last_exit_in_row(rseq.subrange(0, x as int)) {
                            Some(j) => Some((j, y as int)),
                            None => last_exit(rv.subrange(0, y as int)),
                        },
                    ),
                decreases width - x,
            {
                let c: u8 = row[x as usize];
                let t: u8 = if c == 48 {
                    0
                } else if 49 <= c && c <= 57 {
                    c - 48
                } else if c == 69 {
                    exit = Some(CellPos { x, y });
                    0
                } else {
                    WALL_SENTINEL
                };
                proof {
                    assert(tiles@.len() < 0x4000000) by (nonlinear_arith)
                        requires
                            tiles@.len() == y * width + x,
                            0 <= x < width <= 8192,
                            0 <= y < height <= 8192,
                    ;
                    assert(rseq.subrange(0, x as int + 1).drop_last() =~= rseq.subrange(
                        0,
                        x as int,
                    ));
                    assert(row_tiles(rseq.subrange(0, x as int + 1)) =~= row_tiles(
                        rseq.subrange(0, x as int),
                    ).push(tile_of_symbol(rseq[x as int])));
                }
                tiles.push(t);
                x = x + 1;
            }
            proof {
                assert(rseq.subrange(0, width as int) =~= rseq);
                assert(rv.subrange(0, y as int + 1).drop_last() =~= rv.subrange(0, y as int));
                assert(rv.subrange(0, y as int + 1).last() == rseq);
                assert(tiles@ =~= grid_tiles(rv.subrange(0, y as int + 1)));
                assert((y + 1) * width == y * width + width) by (nonlinear_arith);
            }
            y = y + 1;
        }
        proof {
            assert(rv.subrange(0, height as int) =~= rv);
            assert(height * width == width * height) by (nonlinear_arith);
        }
        let exit_tile: Option<CellPos> = match exit_override {
            Some(c) => Some(c),
            None => exit,
        };
        Ok(
            World {
                map: TileMap { width, height, tiles },
                textures,
                player_spawn,
                player_dir_deg,
                exit_tile,
                name,
            },
        )
    }
}

/// The authored rows of the built-in fallback level, symbol for symbol.
pub open spec fn default_rows() -> Seq<Seq<u8>> {
    seq![
        seq![49u8, 49, 49, 49, 49, 49, 49, 49, 49, 49, 49, 49, 49, 49, 49, 49],
        seq![49u8, 48, 48, 48, 48, 48, 48, 48, 48, 48, 48, 48, 48, 48, 48, 49],
        seq![49u8, 48, 50, 50, 50, 48, 48, 48, 48, 51, 51, 51, 51, 48, 48, 49],
        seq![49u8, 48, 48, 48, 48, 48, 48, 48, 48, 48, 48, 48, 48, 48, 48, 49],
        seq![49u8, 48, 48, 48, 48, 48, 48, 48, 48, 48, 48, 48, 48, 48, 48, 49],
        seq![49u8, 48, 48, 48, 48, 52, 52, 52, 52, 48, 48, 48, 48, 48, 48, 49],
        seq![49u8, 48, 48, 48, 48, 48, 48, 48, 48, 48, 48, 48, 48, 48, 48, 49],
        seq![49u8, 49, 49, 49, 49, 49, 49, 49, 49, 49, 49, 49, 49, 49, 69, 49],
    ]
}

impl World {
    /// The built-in fallback level: a 16x8 arena with a few wall blocks
    /// and an exit in the bottom border, spawning at (2.5, 2.5) facing
    /// along +X. The grid is exactly `default_rows` mapped through the
    /// symbol grammar, and no textures are bound.
    pub fn default_level() -> (w: World)
        ensures
            w.wf(),
            w.map.width == 16,
            w.map.height == 8,
            w.map.tiles@ == grid_tiles(default_rows()),
            w.textures@ == Map::<u8, Texture>::empty(),
            w.player_spawn == (Vec2Fx { x: 163840, y: 163840 }),
            w.player_dir_deg == 0,
            w.exit_tile == Some((CellPos { x: 14, y: 7 })),
            w.name@ == "default"@,
    {
        let mut rows: Vec<Vec<u8>> = Vec::new();
        rows.push(vec![49, 49, 49, 49, 49, 49, 49, 49, 49, 49, 49, 49, 49, 49, 49, 49]);
        rows.push(vec![49, 48, 48, 48, 48, 48, 48, 48, 48, 48, 48, 48, 48, 48, 48, 49]);
        rows.push(vec![49, 48, 50, 50, 50, 48, 48, 48, 48, 51, 51, 51, 51, 48, 48, 49]);
        rows.push(vec![49, 48, 48, 48, 48, 48, 48, 48, 48, 48, 48, 48, 48, 48, 48, 49]);
        rows.push(vec![49, 48, 48, 48, 48, 48, 48, 48, 48, 48, 48, 48, 48, 48, 48, 49]);
        rows.push(vec![49, 48, 48, 48, 48, 52, 52, 52, 52, 48, 48, 48, 48, 48, 48, 49]);
        rows.push(vec![49, 48, 48, 48, 48, 48, 48, 48, 48, 48, 48, 48, 48, 48, 48, 49]);
        rows.push(vec![49, 49, 49, 49, 49, 49, 49, 49, 49, 49, 49, 49, 49, 49, 69, 49]);
        let ghost rv = rows_view(rows@);
        proof {
            assert forall|i: int| 0 <= i < rv.len() implies (#[trigger] rv[i]).len() == 16 by {
                assert(rv[i] == rows@[i]@);
            }
            assert(rows_ok(rv, 16, 8));
            let s7 = rv[7];
            assert(s7 == rows@[7]@);
            assert(s7.len() == 16);
            assert(s7[15] == 49);
            let d = s7.drop_last();
            assert(d.len() == 15 && d[14] == 69);
            assert(last_exit_in_row(d) == Some(14int));
            assert(last_exit_in_row(s7) == Some(14int));
            assert(last_exit(rv) == Some((14int, 7int)));
            assert forall|i: int| 0 <= i < 8 implies rv[i] =~= default_rows()[i] by {
                assert(rv[i] == rows@[i]@);
            }
            assert(rv =~~= default_rows());
        }
        let name = String::from_str("default");
        let spawn = Vec2Fx { x: 163840, y: 163840 };
        match World::from_level(name, 16, 8, rows, spawn, 0, None, HashMap::new()) {
            Ok(w) => w,
            Err(_) => vstd::pervasive::unreached(),
        }
    }
}

/// The recorded exit agrees with the specified one, coordinate for
/// coordinate.
pub open spec fn exit_matches(exit: Option<CellPos>, spec_exit: Option<(int, int)>) -> bool {
    match spec_exit {
        Some(e) => exit == Some((CellPos { x: e.0 as i64, y: e.1 as i64 })),
        None => exit is None,
    }
}

pub proof fn lemma_grid_tiles_len(rows: Seq<Seq<u8>>, width: int)
    requires
        forall|i: int| 0 <= i < rows.len() ==> (#[trigger] rows[i]).len() == width,
    ensures
        grid_tiles(rows).len() == rows.len() * width,
    decreases rows.len(),
{
    if rows.len() == 0 {
        assert(rows.len() * width == 0) by (nonlinear_arith)
            requires
                rows.len() == 0,
        ;
    } else {
        lemma_grid_tiles_len(rows.drop_last(), width);
        assert((rows.len() - 1) * width + width == rows.len() * width) by (nonlinear_arith);
    }
}

/// Every in-bounds cell of the mapped grid holds exactly the authored
/// symbol's tile id: the authored grid value survives at its row-major
/// position.
pub proof fn lemma_grid_tiles_index(rows: Seq<Seq<u8>>, width: int, x: int, y: int)
    requires
        forall|i: int| 0 <= i < rows.len() ==> (#[trigger] rows[i]).len() == width,
        0 <= x < width,
        0 <= y < rows.len(),
    ensures
        grid_tiles(rows)[y * width + x] == tile_of_symbol(rows[y][x]),
    decreases rows.len(),
{
    lemma_grid_tiles_len(rows.drop_last(), width);
    if y == rows.len() - 1 {
        assert(grid_tiles(rows)[y * width + x] == row_tiles(rows.last())[x]);
    } else {
        lemma_grid_tiles_index(rows.drop_last(), width, x, y);
        assert(y * width + x < (rows.len() - 1) * width) by (nonlinear_arith)
            requires
                0 <= x < width,
                0 <= y < rows.len() - 1,
        ;
        assert(rows.drop_last()[y] == rows[y]);
    }
}

/// One packed little-endian RGBA8 pixel.
pub open spec fn px_le(b0: u8, b1: u8, b2: u8, b3: u8) -> u32 {
    (b0 + b1 * 0x100 + b2 * 0x10000 + b3 * 0x1000000) as u32
}

/// What decoding an image byte stream yields: dimensions and a row-major
/// RGBA8 buffer, a function of the bytes alone.
pub uninterp spec fn decoded_rgba(bytes: Seq<u8>) -> Option<(u32, u32, Seq<u8>)>;

/// Relies on image::load_from_memory and DynamicImage::to_rgba8: decoding
/// is a pure function of the input bytes, and the RGBA8 buffer holds
/// exactly width * height four-byte pixels in row-major order.
#[verifier::external_body]
fn decode_rgba(bytes: &Vec<u8>) -> (r: Option<(u32, u32, Vec<u8>)>)
    ensures
        match r {
            Some(d) => decoded_rgba(bytes@) == Some((d.0, d.1, d.2@)) && d.2@.len() == 4 * ((
            d.0 as int) * (d.1 as int)),
            None => decoded_rgba(bytes@) is None,
        },
{
    match image::load_from_memory(bytes) {
        Ok(img) => {
            let rgba = img.to_rgba8();
            let (w, h) = (rgba.width(), rgba.height());
            Some((w, h, rgba.into_raw()))
        },
        Err(_) => None,
    }
}

impl Texture {
    /// Packs a row-major RGBA8 byte buffer into one little-endian `u32`
    /// per pixel; `None` exactly when the buffer disagrees with the
    /// declared dimensions.
    pub fn from_rgba8(w: u32, h: u32, raw: Vec<u8>) -> (t: Option<Texture>)
        ensures
            match t {
                Some(tex) => raw@.len() == 4 * ((w as int) * (h as int)) && tex.w == w && tex.h
                    == h
                    && tex.pixels@.len() == (w as int) * (h as int) && forall|i: int|
                    0 <= i < tex.pixels@.len() ==> #[trigger] tex.pixels@[i] == px_le(
                        raw@[4 * i],
                        raw@[4 * i + 1],
                        raw@[4 * i + 2],
                        raw@[4 * i + 3],
                    ),
                None => raw@.len() != 4 * ((w as int) * (h as int)),
            },
    {
        proof {
            assert((w as int) * (h as int) < 0x10000000000000000) by (nonlinear_arith)
                requires
                    w <= 0xffffffff,
                    h <= 0xffffffff,
            ;
        }
        let n64: u64 = (w as u64) * (h as u64);
        let rl: usize = raw.len();
        if n64 > 0x3fff_ffff_ffff_ffff {
            proof {
                assert(n64 == (w as int) * (h as int));
                assert(rl <= u64::MAX);
                assert(raw@.len() < 4 * ((w as int) * (h as int)));
            }
            return None;
        }
        if (rl as u64) != 4 * n64 {
            proof {
                assert(n64 == (w as int) * (h as int));
                assert(rl as u64 == rl as int);
                assert(raw@.len() != 4 * ((w as int) * (h as int)));
            }
            return None;
        }
        let np: usize = rl / 4;
        let mut pixels: Vec<u32> = Vec::new();
        let mut i: usize = 0;
        while i < np
            invariant
                raw.len() == 4 * np,
                i <= np,
                pixels@.len() == i,
                forall|j: int| 0 <= j < i ==> #[trigger] pixels@[j] == px_le(
                    raw@[4 * j],
                    raw@[4 * j + 1],
                    raw@[4 * j + 2],
                    raw@[4 * j + 3],
                ),
            decreases np - i,
        {
            let v: u32 = (raw[4 * i] as u32) + (raw[4 * i + 1] as u32) * 0x100 + (raw[4 * i + 2]
                as u32) * 0x10000 + (raw[4 * i + 3] as u32) * 0x1000000;
            pixels.push(v);
            i = i + 1;
        }
        Some(Texture { w, h, pixels })
    }
}

/// Decodes an image byte stream into a packed texture; `None` exactly
/// when the stream does not decode.
pub fn texture_from_bytes(bytes: &Vec<u8>) -> (t: Option<Texture>)
    ensures
        match decoded_rgba(bytes@) {
            Some(d) => t matches Some(tex) && tex.w == d.0 && tex.h == d.1 && tex.pixels@.len() == (
            d.0 as int) * (d.1 as int) && forall|i: int|
                0 <= i < tex.pixels@.len() ==> #[trigger] tex.pixels@[i] == px_le(
                    d.2[4 * i],
                    d.2[4 * i + 1],
                    d.2[4 * i + 2],
                    d.2[4 * i + 3],
                ),
            None => t is None,
        },
{
    match decode_rgba(bytes) {
        Some((w, h, raw)) => Texture::from_rgba8(w, h, raw),
        None => None,
    }
}

/// The law behind grid lookups: on a world built from authored rows,
/// `tile` answers the authored grid value at every in-bounds cell.
pub proof fn lemma_tile_matches_authored(w: World, rows: Seq<Seq<u8>>, x: int, y: int)
    requires
        w.map.wf(),
        w.map.tiles@ == grid_tiles(rows),
        rows_ok(rows, w.map.width as int, w.map.height as int),
        w.map.in_bounds(x, y),
    ensures
        w.map.tile_at(x, y) == tile_of_symbol(rows[y][x]),
{
    lemma_grid_tiles_index(rows, w.map.width as int, x, y);
}

} // verus!
