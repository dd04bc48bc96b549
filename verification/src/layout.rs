//! The textual layout of an arena: one character per tile, rows separated
//! by line feeds, columns running to the right and rows downwards.

use crate::arena::{ArenaGrid, CollectibleType, ResourceSpawner, MAX_TILES};
use crate::building::{Structure, StructureType};
use vstd::prelude::*;
use vstd::slice::*;
use vstd::string::StringSliceAdditionalSpecFns;

verus! {

/// What a character of the layout puts on its tile.
#[derive(Clone, Copy, Debug, PartialEq, Eq, Structural)]
pub enum TileKind {
    /// `.`, and every character without a meaning of its own.
    Floor,
    /// `X`: a wall.
    Wall,
    /// `O`: an obstacle.
    Obstacle,
    /// `T`: a place where turrets appear to be collected.
    TurretSpawner,
    /// `B`: a place where obstacles appear to be collected.
    ObstacleSpawner,
}

/// One tile of the layout.
#[derive(Clone, Copy, Debug, PartialEq, Eq, Structural)]
pub struct LayoutCell {
    pub x: u32,
    pub y: u32,
    pub kind: TileKind,
}

/// A parsed layout: the length of its first row, the number of its rows,
/// and its tiles row by row.
#[derive(Debug, PartialEq, Eq)]
pub struct ArenaLayout {
    pub width: u32,
    pub height: u32,
    pub cells: Vec<LayoutCell>,
}

/// The meaning of the character `b`.
pub open spec fn kind_of(b: u8) -> TileKind {
    if b == 0x58 {
        TileKind::Wall
    } else if b == 0x4f {
        TileKind::Obstacle
    } else if b == 0x54 {
        TileKind::TurretSpawner
    } else if b == 0x42 {
        TileKind::ObstacleSpawner
    } else {
        TileKind::Floor
    }
}

/// `b` is a blank: a space, a tab, a line feed, a vertical tab, a form
/// feed or a carriage return.
pub open spec fn is_blank(b: u8) -> bool {
    b == 0x20 || (0x09 <= b <= 0x0d)
}

/// `text` without the blanks at its two ends.
pub open spec fn trimmed(text: Seq<u8>) -> Seq<u8>
    decreases text.len(),
{
    if text.len() > 0 && is_blank(text[0]) {
        trimmed(text.drop_first())
    } else if text.len() > 0 && is_blank(text.last()) {
        trimmed(text.drop_last())
    } else {
        text
    }
}

/// The character at `i` stands for a tile: it is no line feed, and no
/// carriage return right before a line feed.
pub open spec fn is_cell(text: Seq<u8>, i: int) -> bool {
    text[i] != 0x0a && !(text[i] == 0x0d && i + 1 < text.len() && text[i + 1] == 0x0a)
}

/// The row of the character at `i`: the number of line feeds before it.
pub open spec fn row_of(text: Seq<u8>, i: int) -> nat
    decreases i,
{
    if i <= 0 {
        0
    } else if text[i - 1] == 0x0a {
        row_of(text, i - 1) + 1
    } else {
        row_of(text, i - 1)
    }
}

/// The column of the character at `i`: the number of tiles before it in
/// its row.
pub open spec fn col_of(text: Seq<u8>, i: int) -> nat
    decreases i,
{
    if i <= 0 {
        0
    } else if text[i - 1] == 0x0a {
        0
    } else if is_cell(text, i - 1) {
        col_of(text, i - 1) + 1
    } else {
        col_of(text, i - 1)
    }
}

/// The tiles that the first `n` characters stand for, in order.
pub open spec fn cells_upto(text: Seq<u8>, n: int) -> Seq<LayoutCell>
    decreases n,
{
    if n <= 0 {
        Seq::empty()
    } else if is_cell(text, n - 1) {
        cells_upto(text, n - 1).push(
            LayoutCell {
                x: col_of(text, n - 1) as u32,
                y: row_of(text, n - 1) as u32,
                kind: kind_of(text[n - 1]),
            },
        )
    } else {
        cells_upto(text, n - 1)
    }
}

/// The end of the first row: the index of the first line feed among the
/// first `n` characters, or `n` where there is none.
pub open spec fn first_row_end(text: Seq<u8>, n: int) -> int
    decreases n,
{
    if n <= 0 {
        0
    } else if first_row_end(text, n - 1) < n - 1 {
        first_row_end(text, n - 1)
    } else if text[n - 1] == 0x0a {
        n - 1
    } else {
        n
    }
}

/// The number of tiles in the first row.
pub open spec fn width_of(text: Seq<u8>) -> nat {
    col_of(text, first_row_end(text, text.len() as int))
}

/// The number of rows.
pub open spec fn height_of(text: Seq<u8>) -> nat {
    if text.len() == 0 {
        0
    } else {
        row_of(text, text.len() as int) + 1
    }
}

proof fn lemma_positions_bounded(text: Seq<u8>, i: int)
    requires
        0 <= i <= text.len(),
    ensures
        row_of(text, i) <= i,
        col_of(text, i) <= i,
    decreases i,
{
    if i > 0 {
        lemma_positions_bounded(text, i - 1);
    }
}

fn blank(b: u8) -> (r: bool)
    ensures
        r == is_blank(b),
{
    b == 0x20 || (0x09 <= b && b <= 0x0d)
}

fn classify(b: u8) -> (kind: TileKind)
    ensures
        kind == kind_of(b),
{
    if b == 0x58 {
        TileKind::Wall
    } else if b == 0x4f {
        TileKind::Obstacle
    } else if b == 0x54 {
        TileKind::TurretSpawner
    } else if b == 0x42 {
        TileKind::ObstacleSpawner
    } else {
        TileKind::Floor
    }
}

fn trim_bounds(bytes: &[u8]) -> (bounds: (usize, usize))
    ensures
        bounds.0 <= bounds.1 <= bytes@.len(),
        trimmed(bytes@) == bytes@.subrange(bounds.0 as int, bounds.1 as int),
        bounds.0 < bounds.1 ==> !is_blank(bytes@[bounds.0 as int]),
{
    let len = bytes.len();
    let mut start: usize = 0;
    assert(bytes@.subrange(0, len as int) =~= bytes@);
    while start < len && blank(bytes[start])
        invariant
            start <= len,
            len == bytes@.len(),
            trimmed(bytes@) == trimmed(bytes@.subrange(start as int, len as int)),
        decreases len - start,
    {
        assert(bytes@.subrange(start as int, len as int).drop_first() =~= bytes@.subrange(
            start + 1,
            len as int,
        ));
        start = start + 1;
    }
    let mut end: usize = len;
    while end > start && blank(bytes[end - 1])
        invariant
            start <= end <= len,
            len == bytes@.len(),
            start < len ==> !is_blank(bytes@[start as int]),
            trimmed(bytes@) == trimmed(bytes@.subrange(start as int, end as int)),
        decreases end - start,
    {
        assert(bytes@.subrange(start as int, end as int).drop_last() =~= bytes@.subrange(
            start as int,
            end - 1,
        ));
        end = end - 1;
    }
    (start, end)
}

/// Reads a layout.
///
/// Blanks at the two ends of the text are dropped. Of what is left, each
/// character but the line endings stands for one tile: its column is its
/// place in its row, its row the number of line feeds before it, and its
/// kind the meaning of the character, floor where it has none. The width
/// is the length of the first row, the height the number of rows. A text
/// longer than `u32::MAX` bytes is refused.
pub fn parse_layout(layout: &str) -> (parsed: Option<ArenaLayout>)
    ensures
        parsed.is_some() <==> trimmed(layout.spec_bytes()).len() <= u32::MAX,
        parsed.is_some() ==> {
            let text = trimmed(layout.spec_bytes());
            &&& parsed.unwrap().cells@ == cells_upto(text, text.len() as int)
            &&& parsed.unwrap().width == width_of(text)
            &&& parsed.unwrap().height == height_of(text)
        },
{
    let bytes = layout.as_bytes();
    let (start, end) = trim_bounds(bytes);
    let ghost text = bytes@.subrange(start as int, end as int);
    if end - start > u32::MAX as usize {
        return None;
    }
    let mut cells: Vec<LayoutCell> = Vec::new();
    let mut x: u32 = 0;
    let mut y: u32 = 0;
    let mut width: u32 = 0;
    let mut in_first_row = true;
    let mut i: usize = start;
    while i < end
        invariant
            start <= i <= end <= bytes@.len(),
            end - start <= u32::MAX,
            text == bytes@.subrange(start as int, end as int),
            cells@ == cells_upto(text, i - start),
            x == col_of(text, i - start),
            y == row_of(text, i - start),
            in_first_row == (first_row_end(text, i - start) == i - start),
            width == col_of(text, first_row_end(text, i - start)),
        decreases end - i,
    {
        let b = bytes[i];
        let ghost k = i - start;
        proof {
            assert(text[k] == b);
            lemma_positions_bounded(text, k);
            lemma_positions_bounded(text, k + 1);
        }
        if b == 0x0a {
            in_first_row = false;
            x = 0;
            y = y + 1;
        } else if b == 0x0d && i + 1 < end && bytes[i + 1] == 0x0a {
            assert(text[k + 1] == bytes@[i + 1]);
        } else {
            assert(is_cell(text, k)) by {
                if k + 1 < text.len() {
                    assert(text[k + 1] == bytes@[i + 1]);
                }
            }
            cells.push(LayoutCell { x, y, kind: classify(b) });
            x = x + 1;
            if in_first_row {
                width = x;
            }
        }
        i = i + 1;
    }
    let height: u32 = if end == start {
        0
    } else {
        proof {
            assert(text[0] == bytes@[start as int]);
            lemma_rows_bounded(text, text.len() as int);
        }
        y + 1
    };
    Some(ArenaLayout { width, height, cells })
}

proof fn lemma_rows_bounded(text: Seq<u8>, i: int)
    requires
        1 <= i <= text.len(),
        text[0] != 0x0a,
    ensures
        row_of(text, i) < i,
    decreases i,
{
    if i > 1 {
        lemma_rows_bounded(text, i - 1);
    } else {
        assert(row_of(text, 0) == 0);
    }
}

/// The spawner that a tile of the layout calls for, ready to spawn at
/// once; none for tiles of other kinds.
pub fn spawner_for(kind: TileKind) -> (spawner: Option<ResourceSpawner>)
    ensures
        spawner == (match kind {
            TileKind::TurretSpawner => Some(
                ResourceSpawner { ty: CollectibleType::Turret, timer: 0 },
            ),
            TileKind::ObstacleSpawner => Some(
                ResourceSpawner { ty: CollectibleType::Obstacle, timer: 0 },
            ),
            _ => None,
        }),
{
    match kind {
        TileKind::TurretSpawner => Some(ResourceSpawner { ty: CollectibleType::Turret, timer: 0 }),
        TileKind::ObstacleSpawner => Some(
            ResourceSpawner { ty: CollectibleType::Obstacle, timer: 0 },
        ),
        _ => None,
    }
}

/// The structure that a tile of the layout holds from the start: a wall
/// or an obstacle, each filling its tile; none for tiles of other kinds.
pub open spec fn structure_of(kind: TileKind) -> Option<Structure> {
    match kind {
        TileKind::Wall => Some(Structure { ty: StructureType::Wall, collider_percent: 100 }),
        TileKind::Obstacle => Some(
            Structure { ty: StructureType::Obstacle, collider_percent: 100 },
        ),
        _ => None,
    }
}

/// The structure that a tile of the layout holds from the start.
pub fn structure_for(kind: TileKind) -> (structure: Option<Structure>)
    ensures
        structure == structure_of(kind),
{
    match kind {
        TileKind::Wall => Some(Structure { ty: StructureType::Wall, collider_percent: 100 }),
        TileKind::Obstacle => Some(
            Structure { ty: StructureType::Obstacle, collider_percent: 100 },
        ),
        _ => None,
    }
}

/// Puts one tile of the layout on the grid: its floor, with the handle
/// `floor`, and, where the tile holds a structure from the start, the
/// occupant, with the handle `occupant`. A tile that the grid has no room
/// for is left out altogether, and the answer is `false`.
pub fn place_cell(grid: &mut ArenaGrid, cell: &LayoutCell, floor: u64, occupant: u64) -> (placed:
    bool)
    ensures
        placed == (old(grid).tiles().dom().contains((cell.x, cell.y)) || old(grid).tiles().dom().len() < MAX_TILES),
        placed ==> final(grid).tiles() == old(grid).tiles().insert((cell.x, cell.y), floor),
        placed && structure_of(cell.kind).is_some() ==> final(grid).occupants() == old(grid).occupants().insert((cell.x, cell.y), occupant),
        placed && structure_of(cell.kind).is_none() ==> final(grid).occupants() == old(grid).occupants(),
        !placed ==> final(grid).tiles() == old(grid).tiles() && final(grid).occupants() == old(grid).occupants(),
{
    if !grid.insert_tile(cell.x, cell.y, floor) {
        return false;
    }
    if structure_for(cell.kind).is_some() {
        grid.insert_occupant(cell.x, cell.y, occupant);
    }
    true
}

} // verus!
