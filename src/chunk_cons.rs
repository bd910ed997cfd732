use vstd::prelude::*;

use crate::smp::ChunkColumn;

verus! {

/// How a block is drawn.
#[derive(Debug, Clone, Copy, PartialEq, Eq, Structural)]
pub enum Shape {
    Cube,
    Air,
}

impl Shape {
    pub fn is_visible(&self) -> (r: bool)
        ensures
            r == (*self != Shape::Air),
    {
        match self {
            Shape::Air => false,
            _ => true,
        }
    }

    pub fn is_solid(&self) -> (r: bool)
        ensures
            r == (*self == Shape::Cube),
    {
        match self {
            Shape::Cube => true,
            Shape::Air => false,
        }
    }
}

/// The block kinds the renderer tells apart.
#[derive(Debug, Clone, Copy, PartialEq, Eq, Structural)]
pub enum Block {
    Air,
    Dirt,
    Grass,
    Unknown,
}

pub open spec fn block_kind(id: u16) -> Block {
    if id == 0 {
        Block::Air
    } else if id == 1 {
        Block::Dirt
    } else if id == 2 {
        Block::Grass
    } else {
        Block::Unknown
    }
}

impl Block {
    pub fn from_id(id: u16) -> (r: Block)
        ensures
            r == block_kind(id),
    {
        match id {
            0 => Block::Air,
            1 => Block::Dirt,
            2 => Block::Grass,
            _ => Block::Unknown,
        }
    }

    /// Air is drawn as nothing, every other block as a cube.
    pub fn shape(&self) -> (r: Shape)
        ensures
            r == (if *self == Block::Air {
                Shape::Air
            } else {
                Shape::Cube
            }),
    {
        match self {
            Block::Air => Shape::Air,
            _ => Shape::Cube,
        }
    }
}

/// A rectangle of a 16x16 bitboard: rows `x .. x+width`, bits
/// `y .. y+height`.
#[derive(Debug, Clone, Copy, Hash, PartialEq, Eq, Structural)]
pub struct Quad {
    pub x: u32,
    pub y: u32,
    pub width: u32,
    pub height: u32,
}

/// Whether bit `c` of `row` is set.
pub open spec fn bit(row: u16, c: int) -> bool {
    0 <= c < 16 && ((row >> (c as u16)) & 1u16) == 1u16
}

/// Whether cell `(r, c)` of the bitboard `g` is set.
pub open spec fn cell(g: Seq<u16>, r: int, c: int) -> bool {
    0 <= r < g.len() && bit(g[r], c)
}

pub open spec fn covers(q: Quad, r: int, c: int) -> bool {
    q.x <= r < q.x + q.width && q.y <= c < q.y + q.height
}

/// Whether some quad of `qs` covers cell `(r, c)`.
pub open spec fn covered(qs: Seq<Quad>, r: int, c: int) -> bool {
    exists|i: int| 0 <= i < qs.len() && covers(#[trigger] qs[i], r, c)
}

pub fn bit_at(row: u16, c: u16) -> (r: bool)
    requires
        c < 16,
    ensures
        r == bit(row, c as int),
{
    (row >> c) & 1 == 1
}

/// `row` with bit `c` cleared.
pub fn clear_bit(row: u16, c: u16) -> (r: u16)
    requires
        c < 16,
    ensures
        forall|d: int| #[trigger] bit(r, d) == (bit(row, d) && d != c),
{
    let r = row & !(1u16 << c);
    assert forall|d: int| #[trigger] bit(r, d) == (bit(row, d) && d != c) by {
        if 0 <= d < 16 {
            let e = d as u16;
            assert(((row & !(1u16 << c)) >> e) & 1u16 == (if e == c {
                0u16
            } else {
                (row >> e) & 1u16
            })) by (bit_vector)
                requires
                    c < 16,
                    e < 16,
            ;
        }
    }
    r
}

/// `row` with bit `c` set.
pub fn set_bit(row: u16, c: u16) -> (r: u16)
    requires
        c < 16,
    ensures
        forall|d: int| #[trigger] bit(r, d) == (bit(row, d) || (d == c)),
{
    let r = row | (1u16 << c);
    assert forall|d: int| #[trigger] bit(r, d) == (bit(row, d) || d == c) by {
        if 0 <= d < 16 {
            let e = d as u16;
            assert(((row | (1u16 << c)) >> e) & 1u16 == (if e == c {
                1u16
            } else {
                (row >> e) & 1u16
            })) by (bit_vector)
                requires
                    c < 16,
                    e < 16,
            ;
        }
    }
    r
}

/// The row with no bit set.
pub proof fn lemma_empty_row(d: int)
    ensures
        !bit(0u16, d),
{
    if 0 <= d < 16 {
        let e = d as u16;
        assert((0u16 >> e) & 1u16 == 0u16) by (bit_vector);
    }
}

/// Every bit of the full row is set.
pub proof fn lemma_full_row(d: int)
    ensures
        0 <= d < 16 ==> bit(0xFFFFu16, d),
{
    if 0 <= d < 16 {
        let e = d as u16;
        assert((0xFFFFu16 >> e) & 1u16 == 1u16) by (bit_vector)
            requires
                e < 16,
        ;
    }
}

/// A row with no bit set is zero.
pub proof fn lemma_row_zero(x: u16)
    requires
        forall|d: int| 0 <= d < 16 ==> !#[trigger] bit(x, d),
    ensures
        x == 0,
{
    assert(!bit(x, 0) && !bit(x, 1) && !bit(x, 2) && !bit(x, 3) && !bit(x, 4) && !bit(x, 5) && !bit(
        x,
        6,
    ) && !bit(x, 7) && !bit(x, 8) && !bit(x, 9) && !bit(x, 10) && !bit(x, 11) && !bit(x, 12) && !bit(
        x,
        13,
    ) && !bit(x, 14) && !bit(x, 15));
    assert(((x >> 0u16) & 1u16) != 1u16 && ((x >> 1u16) & 1u16) != 1u16 && ((x >> 2u16) & 1u16) != 1u16
        && ((x >> 3u16) & 1u16) != 1u16 && ((x >> 4u16) & 1u16) != 1u16 && ((x >> 5u16) & 1u16) != 1u16
        && ((x >> 6u16) & 1u16) != 1u16 && ((x >> 7u16) & 1u16) != 1u16 && ((x >> 8u16) & 1u16) != 1u16
        && ((x >> 9u16) & 1u16) != 1u16 && ((x >> 10u16) & 1u16) != 1u16 && ((x >> 11u16) & 1u16)
        != 1u16 && ((x >> 12u16) & 1u16) != 1u16 && ((x >> 13u16) & 1u16) != 1u16 && ((x >> 14u16)
        & 1u16) != 1u16 && ((x >> 15u16) & 1u16) != 1u16 ==> x == 0) by (bit_vector);
}

/// A row with every bit set is `0xFFFF`.
pub proof fn lemma_row_full(x: u16)
    requires
        forall|d: int| 0 <= d < 16 ==> #[trigger] bit(x, d),
    ensures
        x == 0xFFFF,
{
    assert(bit(x, 0) && bit(x, 1) && bit(x, 2) && bit(x, 3) && bit(x, 4) && bit(x, 5) && bit(x, 6)
        && bit(x, 7) && bit(x, 8) && bit(x, 9) && bit(x, 10) && bit(x, 11) && bit(x, 12) && bit(x, 13)
        && bit(x, 14) && bit(x, 15));
    assert(((x >> 0u16) & 1u16) == 1u16 && ((x >> 1u16) & 1u16) == 1u16 && ((x >> 2u16) & 1u16) == 1u16
        && ((x >> 3u16) & 1u16) == 1u16 && ((x >> 4u16) & 1u16) == 1u16 && ((x >> 5u16) & 1u16) == 1u16
        && ((x >> 6u16) & 1u16) == 1u16 && ((x >> 7u16) & 1u16) == 1u16 && ((x >> 8u16) & 1u16) == 1u16
        && ((x >> 9u16) & 1u16) == 1u16 && ((x >> 10u16) & 1u16) == 1u16 && ((x >> 11u16) & 1u16)
        == 1u16 && ((x >> 12u16) & 1u16) == 1u16 && ((x >> 13u16) & 1u16) == 1u16 && ((x >> 14u16)
        & 1u16) == 1u16 && ((x >> 15u16) & 1u16) == 1u16 ==> x == 0xFFFF) by (bit_vector);
}

/// Quad `a` comes before quad `b`: by row, then by bit.
pub open spec fn quad_before(a: Quad, b: Quad) -> bool {
    a.x < b.x || (a.x == b.x && a.y < b.y)
}

/// Whether bits `c .. c+h` of `row` are all set.
fn run_set(row: u16, c: u16, h: u16) -> (r: bool)
    requires
        c + h <= 16,
    ensures
        r == forall|d: int| c <= d < c + h ==> #[trigger] bit(row, d),
{
    let mut k: u16 = 0;
    while k < h
        invariant
            k <= h,
            c + h <= 16,
            forall|d: int| c <= d < c + k ==> #[trigger] bit(row, d),
        decreases h - k,
    {
        if !bit_at(row, c + k) {
            return false;
        }
        k = k + 1;
    }
    true
}

/// Greedy quad merging over a 16-row bitboard: each row is scanned for runs
/// of set bits, and a run grows over the following rows that hold the same
/// run, whose bits are then cleared. The quads cover exactly the set cells,
/// and no cell twice.
#[verifier::loop_isolation(false)]
pub fn greedy(input: &mut Vec<u16>) -> (quads: Vec<Quad>)
    requires
        old(input)@.len() == 16,
    ensures
        forall|r: int, c: int| cell(old(input)@, r, c) <==> covered(quads@, r, c),
        forall|i: int, j: int, r: int, c: int|
            0 <= i < j < quads@.len() && #[trigger] covers(quads@[i], r, c) ==> !#[trigger] covers(
                quads@[j],
                r,
                c,
            ),
        forall|i: int|
            0 <= i < quads@.len() ==> (#[trigger] quads@[i]).width >= 1 && quads@[i].height >= 1
                && quads@[i].x + quads@[i].width <= 16 && quads@[i].y + quads@[i].height <= 16,
        final(input)@.len() == 16,
        (forall|r: int| 0 <= r < 16 ==> old(input)@[r] == 0xFFFFu16) ==> quads@ == seq![
            Quad { x: 0, y: 0, width: 16, height: 16 },
        ],
        (forall|r: int| 0 <= r < 16 ==> old(input)@[r] == 0u16) ==> quads@.len() == 0,
        forall|i: int, j: int| 0 <= i < j < quads@.len() ==> quad_before(quads@[i], quads@[j]),
        forall|r: int, c: int| #[trigger] cell(final(input)@, r, c) ==> cell(old(input)@, r, c),
        quads@.len() == 0 ==> final(input)@ == old(input)@,
        (forall|r: int| 0 <= r < 16 ==> old(input)@[r] == 0xFFFFu16) ==> final(input)@[0] == 0xFFFFu16
            && forall|r: int| 1 <= r < 16 ==> final(input)@[r] == 0u16,
{
    let ghost g0 = input@;
    let ghost full = forall|r: int| 0 <= r < 16 ==> g0[r] == 0xFFFFu16;
    let ghost q16 = Quad { x: 0, y: 0, width: 16, height: 16 };
    let mut quads: Vec<Quad> = Vec::new();
    let mut row: usize = 0;
    while row < 16
        invariant
            input@.len() == 16,
            g0.len() == 16,
            row <= 16,
            // every quad lies on cells set at the start, inside the board
            forall|i: int, r: int, c: int|
                0 <= i < quads@.len() && #[trigger] covers(quads@[i], r, c) ==> cell(g0, r, c),
            forall|i: int|
                0 <= i < quads@.len() ==> (#[trigger] quads@[i]).width >= 1 && quads@[i].height
                    >= 1 && quads@[i].x + quads@[i].width <= 16 && quads@[i].y + quads@[i].height
                    <= 16,
            // quads do not overlap, and none covers a cell still set
            forall|i: int, j: int, r: int, c: int|
                0 <= i < j < quads@.len() && #[trigger] covers(quads@[i], r, c) ==> !#[trigger] covers(
                    quads@[j],
                    r,
                    c,
                ),
            forall|i: int, r: int, c: int|
                0 <= i < quads@.len() && #[trigger] covers(quads@[i], r, c) && r >= row ==> !cell(
                    input@,
                    r,
                    c,
                ),
            // set cells only go away, and only by being covered
            forall|r: int, c: int| #[trigger] cell(input@, r, c) ==> cell(g0, r, c),
            forall|r: int, c: int|
                #[trigger] cell(g0, r, c) ==> cell(input@, r, c) || covered(quads@, r, c),
            // rows already scanned are fully covered
            forall|r: int, c: int| 0 <= r < row && #[trigger] cell(g0, r, c) ==> covered(quads@, r, c),
            full == (forall|r: int| 0 <= r < 16 ==> g0[r] == 0xFFFFu16),
            q16 == (Quad { x: 0, y: 0, width: 16, height: 16 }),
            full && row == 0 ==> input@ == g0 && quads@.len() == 0,
            full && row >= 1 ==> quads@ == seq![q16] && input@[0] == 0xFFFFu16 && forall|r: int, cc: int|
                1 <= r ==> !#[trigger] cell(input@, r, cc),
            forall|i: int| 0 <= i < quads@.len() ==> (#[trigger] quads@[i]).x < row,
            forall|i: int, j: int| 0 <= i < j < quads@.len() ==> quad_before(quads@[i], quads@[j]),
            quads@.len() == 0 ==> input@ == g0,
        decreases 16 - row,
    {
        let mut c: u16 = 0;
        while c < 16
            invariant
                input@.len() == 16,
                g0.len() == 16,
                row < 16,
                c <= 16,
                forall|i: int, r: int, cc: int|
                    0 <= i < quads@.len() && #[trigger] covers(quads@[i], r, cc) ==> cell(g0, r, cc),
                forall|i: int|
                    0 <= i < quads@.len() ==> (#[trigger] quads@[i]).width >= 1 && quads@[i].height
                        >= 1 && quads@[i].x + quads@[i].width <= 16 && quads@[i].y
                        + quads@[i].height <= 16,
                forall|i: int, j: int, r: int, cc: int|
                    0 <= i < j < quads@.len() && #[trigger] covers(quads@[i], r, cc) ==> !#[trigger] covers(
                        quads@[j],
                        r,
                        cc,
                    ),
                forall|i: int, r: int, cc: int|
                    0 <= i < quads@.len() && #[trigger] covers(quads@[i], r, cc) && (r > row || (r
                        == row && cc >= c)) ==> !cell(input@, r, cc),
                forall|r: int, cc: int| #[trigger] cell(input@, r, cc) ==> cell(g0, r, cc),
                forall|r: int, cc: int|
                    #[trigger] cell(g0, r, cc) ==> cell(input@, r, cc) || covered(quads@, r, cc),
                forall|r: int, cc: int|
                    0 <= r < row && #[trigger] cell(g0, r, cc) ==> covered(quads@, r, cc),
                forall|cc: int| 0 <= cc < c && #[trigger] cell(input@, row as int, cc) ==> covered(quads@, row as int, cc),
                full == (forall|r: int| 0 <= r < 16 ==> g0[r] == 0xFFFFu16),
                q16 == (Quad { x: 0, y: 0, width: 16, height: 16 }),
                full && row == 0 ==> (c == 0 && input@ == g0 && quads@.len() == 0) || (c == 16
                    && quads@ == seq![q16] && forall|r: int, cc: int|
                    1 <= r ==> !#[trigger] cell(input@, r, cc)),
                full && row >= 1 ==> quads@ == seq![q16] && input@[0] == 0xFFFFu16 && forall|r: int, cc: int|
                    1 <= r ==> !#[trigger] cell(input@, r, cc),
                full && row == 0 && c == 16 ==> input@[0] == 0xFFFFu16,
                forall|i: int|
                    0 <= i < quads@.len() ==> (#[trigger] quads@[i]).x < row || (quads@[i].x == row
                        && quads@[i].y < c),
                forall|i: int, j: int| 0 <= i < j < quads@.len() ==> quad_before(quads@[i], quads@[j]),
                quads@.len() == 0 ==> input@ == g0,
            decreases 16 - c,
        {
            let bits = input[row];
            if !bit_at(bits, c) {
                proof {
                    if full && row == 0 {
                        lemma_full_row(c as int);
                    }
                }
                c = c + 1;
            } else {
                let mut h: u16 = 1;
                while c + h < 16 && bit_at(bits, c + h)
                    invariant
                        1 <= h,
                        c + h <= 16,
                        forall|d: int| c <= d < c + h ==> #[trigger] bit(bits, d),
                    decreases 16 - h,
                {
                    h = h + 1;
                }
                proof {
                    if full {
                        assert(row == 0 && c == 0) by {
                            if row >= 1 {
                                assert(cell(input@, row as int, c as int));
                            }
                        }
                        assert(bits == 0xFFFFu16);
                        lemma_full_row(c + h);
                    }
                }
                let mut w: usize = 1;
                assert forall|r: int, d: int| row <= r < row + 1 && c <= d < c + h implies #[trigger] cell(
                    g0,
                    r,
                    d,
                ) by {
                    assert(cell(input@, r, d));
                }
                assert forall|i: int, r: int, d: int|
                    0 <= i < quads@.len() && #[trigger] covers(quads@[i], r, d) implies !(row <= r < row
                        + 1 && c <= d < c + h) by {
                    if row <= r < row + 1 && c <= d < c + h {
                        assert(cell(input@, r, d));
                    }
                }
                while row + w < 16 && run_set(input[row + w], c, h)
                    invariant
                        input@.len() == 16,
                        row < 16,
                        c + h <= 16,
                        1 <= w,
                        row + w <= 16,
                        input@[row as int] == bits,
                        full == (forall|r: int| 0 <= r < 16 ==> g0[r] == 0xFFFFu16),
                        full ==> row == 0 && c == 0 && h == 16 && quads@.len() == 0 && forall|r: int|
                            row + w <= r < 16 ==> #[trigger] input@[r] == 0xFFFFu16,
                        forall|i: int, r: int, d: int|
                            0 <= i < quads@.len() && #[trigger] covers(quads@[i], r, d) ==> !(row <= r
                                < row + w && c <= d < c + h),
                        // cells of the quad being built were set at the start
                        forall|r: int, d: int|
                            row <= r < row + w && c <= d < c + h ==> #[trigger] cell(g0, r, d),
                        // and those in later rows are now clear
                        forall|r: int, d: int|
                            row < r < row + w && c <= d < c + h ==> !#[trigger] cell(input@, r, d),
                        forall|i: int, r: int, cc: int|
                            0 <= i < quads@.len() && #[trigger] covers(quads@[i], r, cc) && (r > row
                                || (r == row && cc >= c)) ==> !cell(input@, r, cc),
                        forall|r: int, cc: int| #[trigger] cell(input@, r, cc) ==> cell(g0, r, cc),
                        forall|r: int, cc: int|
                            #[trigger] cell(g0, r, cc) ==> cell(input@, r, cc) || covered(
                                quads@,
                                r,
                                cc,
                            ) || (row < r < row + w && c <= cc < c + h),
                    decreases 16 - w,
                {
                    let target = row + w;
                    let mut k: u16 = 0;
                    assert forall|d: int| c <= d < c + h implies #[trigger] cell(g0, target as int, d) by {
                        assert(cell(input@, target as int, d));
                    }
                    assert forall|i: int, r: int, d: int|
                        0 <= i < quads@.len() && #[trigger] covers(quads@[i], r, d) implies !(row <= r
                            < row + w + 1 && c <= d < c + h) by {
                        if r == target && c <= d < c + h {
                            assert(cell(input@, r, d));
                        }
                    }
                    while k < h
                        invariant
                            input@.len() == 16,
                            row < target < 16,
                            target == row + w,
                            c + h <= 16,
                            k <= h,
                            input@[row as int] == bits,
                            full ==> row == 0 && c == 0 && h == 16 && quads@.len() == 0 && forall|r: int|
                                target < r < 16 ==> #[trigger] input@[r] == 0xFFFFu16,
                            forall|i: int, r: int, d: int|
                                0 <= i < quads@.len() && #[trigger] covers(quads@[i], r, d) ==> !(row
                                    <= r < row + w + 1 && c <= d < c + h),
                            forall|r: int, d: int|
                                row <= r < row + w && c <= d < c + h ==> #[trigger] cell(g0, r, d),
                            forall|d: int| c + k <= d < c + h ==> #[trigger] cell(g0, target as int, d),
                            forall|r: int, d: int|
                                row < r < row + w && c <= d < c + h ==> !#[trigger] cell(input@, r, d),
                            forall|d: int| c <= d < c + k ==> !#[trigger] cell(input@, target as int, d),
                            forall|i: int, r: int, cc: int|
                                0 <= i < quads@.len() && #[trigger] covers(quads@[i], r, cc) && (r
                                    > row || (r == row && cc >= c)) ==> !cell(input@, r, cc),
                            forall|r: int, cc: int| #[trigger] cell(input@, r, cc) ==> cell(g0, r, cc),
                            forall|r: int, cc: int|
                                #[trigger] cell(g0, r, cc) ==> cell(input@, r, cc) || covered(
                                    quads@,
                                    r,
                                    cc,
                                ) || (row < r < row + w && c <= cc < c + h) || (r == target && c <= cc
                                    < c + k),
                        decreases h - k,
                    {
                        let old_row = input[target];
                        let new_row = clear_bit(old_row, c + k);
                        let ghost prev = input@;
                        input.set(target, new_row);
                        assert forall|r: int, d: int|
                            #[trigger] cell(input@, r, d) == (cell(prev, r, d) && !(r == target && d
                                == c + k)) by {
                            if r == target {
                                assert(input@[r] == new_row);
                            } else if 0 <= r < 16 {
                                assert(input@[r] == prev[r]);
                            }
                        }
                        assert(forall|r: int| 0 <= r < 16 && r != target ==> input@[r] == prev[r]);
                        k = k + 1;
                    }
                    w = w + 1;
                }
                proof {
                    if full {
                        if row + w < 16 {
                            assert(input@[(row + w) as int] == 0xFFFFu16);
                            assert forall|d: int| c <= d < c + h implies #[trigger] bit(
                                input@[(row + w) as int],
                                d,
                            ) by {
                                lemma_full_row(d);
                            }
                        }
                        assert(w == 16);
                    }
                }
                let q = Quad { x: row as u32, y: c as u32, width: w as u32, height: h as u32 };
                let ghost before = quads@;
                quads.push(q);
                proof {
                    assert forall|r: int, cc: int| #[trigger] cell(g0, r, cc) implies cell(input@, r, cc)
                        || covered(quads@, r, cc) by {
                        if covered(before, r, cc) {
                            let i = choose|i: int| 0 <= i < before.len() && covers(#[trigger] before[i], r, cc);
                            assert(quads@[i] == before[i]);
                        }
                        if row < r < row + w && c <= cc < c + h {
                            assert(covers(quads@[before.len() as int], r, cc));
                        }
                    }
                    assert forall|cc: int| 0 <= cc < c + h && #[trigger] cell(input@, row as int, cc) implies covered(quads@, row as int, cc) by {
                        if cc < c {
                            let i = choose|i: int| 0 <= i < before.len() && covers(#[trigger] before[i], row as int, cc);
                            assert(quads@[i] == before[i]);
                        } else {
                            assert(covers(quads@[before.len() as int], row as int, cc));
                        }
                    }
                    assert forall|r: int, cc: int| 0 <= r < row && #[trigger] cell(g0, r, cc) implies covered(quads@, r, cc) by {
                        let i = choose|i: int| 0 <= i < before.len() && covers(#[trigger] before[i], r, cc);
                        assert(quads@[i] == before[i]);
                    }
                    assert forall|i: int, j: int, r: int, cc: int|
                        0 <= i < j < quads@.len() && #[trigger] covers(quads@[i], r, cc) implies !#[trigger] covers(
                            quads@[j],
                            r,
                            cc,
                        ) by {
                        if j == before.len() {
                            assert(quads@[i] == before[i]);
                            if covers(q, r, cc) {
                                if r == row {
                                    assert(cell(input@, r, cc));
                                } else {
                                    assert(cell(g0, r, cc));
                                }
                            }
                        } else {
                            assert(quads@[i] == before[i] && quads@[j] == before[j]);
                        }
                    }
                }
                proof {
                    assert forall|i: int, j: int| 0 <= i < j < quads@.len() implies quad_before(
                        quads@[i],
                        quads@[j],
                    ) by {
                        if j == before.len() {
                            assert(quads@[i] == before[i]);
                        } else {
                            assert(quads@[i] == before[i] && quads@[j] == before[j]);
                        }
                    }
                    assert forall|i: int| 0 <= i < quads@.len() implies (#[trigger] quads@[i]).x < row
                        || (quads@[i].x == row && quads@[i].y < c + h) by {
                        if i < before.len() {
                            assert(quads@[i] == before[i]);
                        }
                    }
                    if full {
                        assert(before.len() == 0);
                        assert(q == q16);
                        assert(quads@ =~= seq![q16]);
                        assert forall|r: int, cc: int| 1 <= r implies !#[trigger] cell(input@, r, cc) by {
                            if 1 <= r < 16 && 0 <= cc < 16 {
                                assert(row < r < row + w && c <= cc < c + h);
                            }
                        }
                    }
                }
                c = c + h;
            }
        }
        row = row + 1;
    }
    proof {
        if full {
            assert forall|r: int| 1 <= r < 16 implies input@[r] == 0u16 by {
                assert forall|d: int| 0 <= d < 16 implies !#[trigger] bit(input@[r], d) by {
                    assert(!cell(input@, r, d));
                }
                lemma_row_zero(input@[r]);
            }
        }
        if (forall|r: int| 0 <= r < 16 ==> g0[r] == 0u16) && quads@.len() > 0 {
            let q = quads@[0];
            assert(covers(q, q.x as int, q.y as int));
            lemma_empty_row(q.y as int);
            assert(cell(g0, q.x as int, q.y as int));
        }
    }
    quads
}

/// The six faces of a block.
#[derive(Debug, Clone, Copy, PartialEq, Eq, Structural)]
pub enum Face {
    Top,
    Bottom,
    Left,
    Right,
    Front,
    Back,
}

pub open spec fn face_num(f: Face) -> int {
    match f {
        Face::Top => 0,
        Face::Bottom => 1,
        Face::Left => 2,
        Face::Right => 3,
        Face::Front => 4,
        Face::Back => 5,
    }
}

/// The outward direction of a face.
pub open spec fn face_dir(f: Face) -> (int, int, int) {
    match f {
        Face::Top => (0, 1, 0),
        Face::Bottom => (0, -1, 0),
        Face::Left => (-1, 0, 0),
        Face::Right => (1, 0, 0),
        Face::Front => (0, 0, 1),
        Face::Back => (0, 0, -1),
    }
}

fn face_of(n: usize) -> (f: Face)
    requires
        n < 6,
    ensures
        face_num(f) == n,
{
    if n == 0 {
        Face::Top
    } else if n == 1 {
        Face::Bottom
    } else if n == 2 {
        Face::Left
    } else if n == 3 {
        Face::Right
    } else if n == 4 {
        Face::Front
    } else {
        Face::Back
    }
}

/// The face numbered `n` in the order Top, Bottom, Left, Right, Front, Back.
pub open spec fn face_at(n: int) -> Face {
    if n == 0 {
        Face::Top
    } else if n == 1 {
        Face::Bottom
    } else if n == 2 {
        Face::Left
    } else if n == 3 {
        Face::Right
    } else if n == 4 {
        Face::Front
    } else {
        Face::Back
    }
}

/// The merged face covering the whole outer board of face `n` of section
/// `s`.
pub open spec fn outer_quad(s: int, n: int) -> FaceQuad {
    FaceQuad {
        section: s as u8,
        face: face_at(n),
        layer: outer_layer(face_at(n)) as u8,
        quad: Quad { x: 0, y: 0, width: 16, height: 16 },
    }
}

/// How many of the six outer boards of section `s` come before board
/// position `t`.
pub open spec fn outer_boards_before(s: int, t: int) -> int {
    (if board_index(s, face_at(0), outer_layer(face_at(0))) < t { 1int } else { 0int })
        + (if board_index(s, face_at(1), outer_layer(face_at(1))) < t { 1int } else { 0int })
        + (if board_index(s, face_at(2), outer_layer(face_at(2))) < t { 1int } else { 0int })
        + (if board_index(s, face_at(3), outer_layer(face_at(3))) < t { 1int } else { 0int })
        + (if board_index(s, face_at(4), outer_layer(face_at(4))) < t { 1int } else { 0int })
        + (if board_index(s, face_at(5), outer_layer(face_at(5))) < t { 1int } else { 0int })
}

/// Column position of cell `(r, b)` of layer `l` of the board of face `f` in
/// section `s`: boards of the top and bottom faces run over X (rows) and Z
/// (bits), those of the left and right faces over Z and Y, those of the
/// front and back faces over X and Y.
pub open spec fn board_pos(f: Face, s: int, l: int, r: int, b: int) -> (int, int, int) {
    match f {
        Face::Top | Face::Bottom => (r, 16 * s + l, b),
        Face::Left | Face::Right => (l, 16 * s + b, r),
        Face::Front | Face::Back => (r, 16 * s + b, l),
    }
}

/// A merged face: quad `quad` of the board of `face` at `layer` in section
/// `section`.
#[derive(Debug, Clone, Copy, PartialEq, Eq, Structural)]
pub struct FaceQuad {
    pub section: u8,
    pub face: Face,
    pub layer: u8,
    pub quad: Quad,
}

/// Whether the block at `(x, y, z)` of column `c` (X and Z in 0..16, Y in
/// 0..256) is drawn; blocks of absent sections and of truncated sections'
/// missing tail are air.
pub open spec fn column_visible(c: ChunkColumn, x: int, y: int, z: int) -> bool {
    0 <= x < 16 && 0 <= z < 16 && 0 <= y < 256 && y / 16 < c.sections@.len() && match c.sections@[y / 16] {
        Some(s) => {
            let idx = (y % 16) * 256 + z * 16 + x;
            idx < s.blocks@.len() && s.blocks@[idx].id != 0
        },
        None => false,
    }
}

/// Builds the meshes of one column given its four horizontal neighbours.
pub struct ChunkConstructor {
    pub column: ChunkColumn,
    /// The column at X - 1.
    pub west: Option<ChunkColumn>,
    /// The column at X + 1.
    pub east: Option<ChunkColumn>,
    /// The column at Z - 1.
    pub north: Option<ChunkColumn>,
    /// The column at Z + 1.
    pub south: Option<ChunkColumn>,
}

pub open spec fn opt_visible(c: Option<ChunkColumn>, x: int, y: int, z: int) -> bool {
    match c {
        Some(c) => column_visible(c, x, y, z),
        None => false,
    }
}

impl ChunkConstructor {
    pub fn new(
        column: ChunkColumn,
        west: Option<ChunkColumn>,
        east: Option<ChunkColumn>,
        north: Option<ChunkColumn>,
        south: Option<ChunkColumn>,
    ) -> (r: ChunkConstructor)
        ensures
            r.column == column && r.west == west && r.east == east && r.north == north && r.south
                == south,
    {
        ChunkConstructor { column, west, east, north, south }
    }

    /// Whether a drawn block stands at `(x, y, z)` in the column's
    /// coordinates, one step beyond its sides looked up in the neighbour
    /// there; an absent neighbour, and anything above or below the column,
    /// counts as no block.
    pub open spec fn solid_at(&self, x: int, y: int, z: int) -> bool {
        if 0 <= x < 16 && 0 <= z < 16 {
            column_visible(self.column, x, y, z)
        } else if x == -1 && 0 <= z < 16 {
            opt_visible(self.west, 15, y, z)
        } else if x == 16 && 0 <= z < 16 {
            opt_visible(self.east, 0, y, z)
        } else if z == -1 && 0 <= x < 16 {
            opt_visible(self.north, x, y, 15)
        } else if z == 16 && 0 <= x < 16 {
            opt_visible(self.south, x, y, 0)
        } else {
            false
        }
    }

    /// A block on the render edge: among its six neighbours at least one is
    /// drawn and at least one is not.
    pub open spec fn on_edge(&self, x: int, y: int, z: int) -> bool {
        (self.solid_at(x + 1, y, z) || self.solid_at(x - 1, y, z) || self.solid_at(x, y + 1, z)
            || self.solid_at(x, y - 1, z) || self.solid_at(x, y, z + 1) || self.solid_at(x, y, z - 1))
            && !(self.solid_at(x + 1, y, z) && self.solid_at(x - 1, y, z) && self.solid_at(
            x,
            y + 1,
            z,
        ) && self.solid_at(x, y - 1, z) && self.solid_at(x, y, z + 1) && self.solid_at(x, y, z - 1))
    }

    /// Face `f` of the block at `(x, y, z)` is drawn: the block is drawn and
    /// on the render edge, and nothing drawn stands before that face.
    pub open spec fn exposed(&self, f: Face, x: int, y: int, z: int) -> bool {
        let d = face_dir(f);
        self.solid_at(x, y, z) && self.on_edge(x, y, z) && !self.solid_at(x + d.0, y + d.1, z + d.2)
    }

    /// Whether cell `(r, b)` of the board of face `f`, layer `l`, section `s`
    /// is a drawn face.
    pub open spec fn board_cell(&self, f: Face, s: int, l: int, r: int, b: int) -> bool {
        let p = board_pos(f, s, l, r, b);
        0 <= r < 16 && 0 <= b < 16 && self.exposed(f, p.0, p.1, p.2)
    }

    fn column_solid(c: &ChunkColumn, x: i32, y: i32, z: i32) -> (r: bool)
        requires
            0 <= x < 16,
            0 <= z < 16,
        ensures
            r == column_visible(*c, x as int, y as int, z as int),
    {
        if y < 0 || y >= 256 {
            return false;
        }
        let si = (y / 16) as usize;
        if si >= c.sections.len() {
            return false;
        }
        match &c.sections[si] {
            Some(s) => s.block_id(x as u16, (y % 16) as u16, z as u16) != 0,
            None => false,
        }
    }

    fn opt_solid(c: &Option<ChunkColumn>, x: i32, y: i32, z: i32) -> (r: bool)
        requires
            0 <= x < 16,
            0 <= z < 16,
        ensures
            r == opt_visible(*c, x as int, y as int, z as int),
    {
        match c {
            Some(c) => Self::column_solid(c, x, y, z),
            None => false,
        }
    }

    fn solid(&self, x: i32, y: i32, z: i32) -> (r: bool)
        requires
            -1 <= x <= 16,
            -1 <= z <= 16,
        ensures
            r == self.solid_at(x as int, y as int, z as int),
    {
        if 0 <= x && x < 16 && 0 <= z && z < 16 {
            Self::column_solid(&self.column, x, y, z)
        } else if x == -1 && 0 <= z && z < 16 {
            Self::opt_solid(&self.west, 15, y, z)
        } else if x == 16 && 0 <= z && z < 16 {
            Self::opt_solid(&self.east, 0, y, z)
        } else if z == -1 && 0 <= x && x < 16 {
            Self::opt_solid(&self.north, x, y, 15)
        } else if z == 16 && 0 <= x && x < 16 {
            Self::opt_solid(&self.south, x, y, 0)
        } else {
            false
        }
    }

    fn exposed_face(&self, f: Face, x: i32, y: i32, z: i32) -> (r: bool)
        requires
            0 <= x < 16,
            0 <= z < 16,
            0 <= y < 256,
        ensures
            r == self.exposed(f, x as int, y as int, z as int),
    {
        if !self.solid(x, y, z) {
            return false;
        }
        let n0 = self.solid(x + 1, y, z);
        let n1 = self.solid(x - 1, y, z);
        let n2 = self.solid(x, y + 1, z);
        let n3 = self.solid(x, y - 1, z);
        let n4 = self.solid(x, y, z + 1);
        let n5 = self.solid(x, y, z - 1);
        let edge = (n0 || n1 || n2 || n3 || n4 || n5) && !(n0 && n1 && n2 && n3 && n4 && n5);
        if !edge {
            return false;
        }
        let front = match f {
            Face::Top => n2,
            Face::Bottom => n3,
            Face::Left => n1,
            Face::Right => n0,
            Face::Front => n4,
            Face::Back => n5,
        };
        !front
    }

    /// The board of face `f`, layer `l` of section `s`.
    fn face_board(&self, f: Face, s: u16, l: u16) -> (board: Vec<u16>)
        requires
            s < 16,
            l < 16,
        ensures
            board@.len() == 16,
            forall|r: int, b: int| cell(board@, r, b) <==> self.board_cell(f, s as int, l as int, r, b),
    {
        let mut board: Vec<u16> = Vec::new();
        let mut r: u16 = 0;
        while r < 16
            invariant
                r <= 16,
                s < 16,
                l < 16,
                board@.len() == r,
                forall|rr: int, b: int|
                    0 <= rr < r ==> (cell(board@, rr, b) <==> self.board_cell(f, s as int, l as int, rr, b)),
            decreases 16 - r,
        {
            let mut row: u16 = 0;
            let mut b: u16 = 0;
            proof {
                assert forall|d: int| !bit(row, d) by {
                    lemma_empty_row(d);
                }
            }
            while b < 16
                invariant
                    b <= 16,
                    r < 16,
                    s < 16,
                    l < 16,
                    forall|d: int| #[trigger] bit(row, d) <==> (0 <= d < b && self.board_cell(f, s as int, l as int, r as int, d)),
                decreases 16 - b,
            {
                let (x, y, z): (i32, i32, i32) = match f {
                    Face::Top | Face::Bottom => (r as i32, 16 * s as i32 + l as i32, b as i32),
                    Face::Left | Face::Right => (l as i32, 16 * s as i32 + b as i32, r as i32),
                    Face::Front | Face::Back => (r as i32, 16 * s as i32 + b as i32, l as i32),
                };
                if self.exposed_face(f, x, y, z) {
                    row = set_bit(row, b);
                }
                b = b + 1;
            }
            let ghost prev = board@;
            board.push(row);
            assert forall|rr: int, bb: int|
                0 <= rr < r + 1 implies (cell(board@, rr, bb) <==> self.board_cell(f, s as int, l as int, rr, bb)) by {
                if rr < r {
                    assert(board@[rr] == prev[rr]);
                    assert(cell(prev, rr, bb) <==> self.board_cell(f, s as int, l as int, rr, bb));
                } else {
                    assert(board@[rr] == row);
                    assert(bit(row, bb) <==> (0 <= bb < 16 && self.board_cell(f, s as int, l as int, r as int, bb)));
                }
            }
            r = r + 1;
        }
        assert forall|rr: int, bb: int| cell(board@, rr, bb) <==> self.board_cell(f, s as int, l as int, rr, bb) by {
            if !(0 <= rr < 16) {
                assert(!self.board_cell(f, s as int, l as int, rr, bb));
            }
        }
        board
    }
}

/// Position of a (section, face, layer) board in the order boards are built.
pub open spec fn board_index(s: int, f: Face, l: int) -> int {
    s * 96 + face_num(f) * 16 + l
}

/// Whether some quad of `out` lies on board `(s, f, l)` and covers cell
/// `(r, b)` of it.
pub open spec fn emitted(out: Seq<FaceQuad>, s: int, f: Face, l: int, r: int, b: int) -> bool {
    exists|i: int|
        0 <= i < out.len() && (#[trigger] out[i]).section == s && out[i].face == f && out[i].layer
            == l && covers(out[i].quad, r, b)
}

proof fn lemma_board_index_unique(s1: int, f1: int, l1: int, s2: int, f2: int, l2: int)
    requires
        0 <= f1 < 6,
        0 <= l1 < 16,
        0 <= f2 < 6,
        0 <= l2 < 16,
        s1 * 96 + f1 * 16 + l1 == s2 * 96 + f2 * 16 + l2,
    ensures
        s1 == s2 && f1 == f2 && l1 == l2,
{
    assert(s1 == s2) by (nonlinear_arith)
        requires
            0 <= f1 * 16 + l1 < 96,
            0 <= f2 * 16 + l2 < 96,
            s1 * 96 + f1 * 16 + l1 == s2 * 96 + f2 * 16 + l2,
    ;
    assert(f1 == f2) by (nonlinear_arith)
        requires
            0 <= l1 < 16,
            0 <= l2 < 16,
            f1 * 16 + l1 == f2 * 16 + l2,
    ;
}

proof fn lemma_face_num_injective(f: Face, g: Face)
    ensures
        face_num(f) == face_num(g) ==> f == g,
{
}

impl ChunkConstructor {
    /// Whether section `s` of the column is present.
    pub open spec fn has_section(&self, s: int) -> bool {
        0 <= s < self.column.sections@.len() && self.column.sections@[s] is Some
    }

    /// The boards before position `t` are built into `out`: every quad lies
    /// on such a board, quads of one board do not overlap, each board's
    /// drawn faces are exactly what its quads cover, and for a lone full
    /// section the outer boards done so far gave one whole quad each.
    pub open spec fn boards_done(&self, out: Seq<FaceQuad>, t: int) -> bool {
        let s0 = choose|s: int| self.lone_full_section(s);
        &&& forall|i: int|
            0 <= i < out.len() ==> (#[trigger] out[i]).section < 16 && out[i].layer < 16
                && board_index(out[i].section as int, out[i].face, out[i].layer as int) < t
        &&& forall|i: int, j: int, r: int, b: int|
            0 <= i < j < out.len() && out[i].section == out[j].section && out[i].face
                == out[j].face && out[i].layer == out[j].layer && #[trigger] covers(
                out[i].quad,
                r,
                b,
            ) ==> !#[trigger] covers(out[j].quad, r, b)
        &&& self.lone_full_section(s0) ==> out.len() == outer_boards_before(s0, t as int) && forall|i: int|
            0 <= i < out.len() ==> #[trigger] out[i] == outer_quad(s0, i)
        &&& forall|s: int, f: Face, l: int, r: int, b: int|
            #![trigger emitted(out, s, f, l, r, b)]
            0 <= s < 16 && 0 <= l < 16 && board_index(s, f, l) < t ==> (emitted(
                out,
                s,
                f,
                l,
                r,
                b,
            ) <==> (self.has_section(s) && self.board_cell(f, s, l, r, b)))
    }

    /// Builds board `t` and appends its merged quads to `out`.
    #[verifier::loop_isolation(false)]
    #[verifier::rlimit(100)]
    #[verifier::spinoff_prover]
    fn add_board(&self, out: &mut Vec<FaceQuad>, t: usize)
        requires
            t < 1536,
            self.boards_done(old(out)@, t as int),
        ensures
            self.boards_done(final(out)@, t + 1),
    {
        let ghost s0 = choose|s: int| self.lone_full_section(s);
        let ghost lone = self.lone_full_section(s0);
        let s: usize = t / 96;
        let fnum: usize = (t / 16) % 6;
        let l: usize = t % 16;
        let f = face_of(fnum);
        assert(t == s * 96 + fnum * 16 + l) by (nonlinear_arith)
            requires
                s == t / 96,
                fnum == (t / 16) % 6,
                l == t % 16,
        ;
        assert(s < 16);
        let ghost before = out@;
        let present = s < self.column.sections.len() && match &self.column.sections[s] {
            Some(_) => true,
            None => false,
        };
        if present {
            assert(self.has_section(s as int));
            let mut board = self.face_board(f, s as u16, l as u16);
            let ghost b0 = board@;
            let quads = greedy(&mut board);
            let mut k: usize = 0;
            while k < quads.len()
                invariant
                    k <= quads@.len(),
                    s < 16,
                    l < 16,
                    t == s * 96 + fnum * 16 + l,
                    face_num(f) == fnum,
                    out@.len() == before.len() + k,
                    forall|i: int| 0 <= i < before.len() ==> out@[i] == before[i],
                    forall|i: int|
                        0 <= i < k ==> out@[before.len() + i] == (FaceQuad {
                            section: s as u8,
                            face: f,
                            layer: l as u8,
                            quad: quads@[i],
                        }),
                decreases quads@.len() - k,
            {
                out.push(FaceQuad { section: s as u8, face: f, layer: l as u8, quad: quads[k] });
                k = k + 1;
            }
            assert forall|i: int, j: int, r: int, b: int|
                0 <= i < j < out@.len() && out@[i].section == out@[j].section && out@[i].face
                    == out@[j].face && out@[i].layer == out@[j].layer && #[trigger] covers(
                    out@[i].quad,
                    r,
                    b,
                ) implies !#[trigger] covers(out@[j].quad, r, b) by {
                if j >= before.len() {
                    let jj = j - before.len();
                    assert(out@[before.len() + jj] == (FaceQuad {
                        section: s as u8,
                        face: f,
                        layer: l as u8,
                        quad: quads@[jj],
                    }));
                    if i >= before.len() {
                        let ii = i - before.len();
                        assert(out@[before.len() + ii] == (FaceQuad {
                            section: s as u8,
                            face: f,
                            layer: l as u8,
                            quad: quads@[ii],
                        }));
                        assert(covers(quads@[ii], r, b));
                    } else {
                        assert(out@[i] == before[i]);
                        lemma_board_index_unique(
                            out@[i].section as int,
                            face_num(out@[i].face),
                            out@[i].layer as int,
                            s as int,
                            fnum as int,
                            l as int,
                        );
                    }
                } else {
                    assert(out@[i] == before[i] && out@[j] == before[j]);
                }
            }
            proof {
                if lone {
                    self.lemma_lone_step(s0, s as int, f, l as int, t as int, b0, quads@);
                    if s == s0 && l == outer_layer(f) {
                        assert(quads@.len() == 1);
                        assert(quads@[0] == Quad { x: 0, y: 0, width: 16, height: 16 });
                        assert(before.len() == outer_boards_before(s0, t as int));
                        assert(out@[before.len() + 0int] == (FaceQuad {
                            section: s as u8,
                            face: f,
                            layer: l as u8,
                            quad: quads@[0],
                        }));
                        assert(out@[before.len() as int] == outer_quad(s0, before.len() as int));
                    } else {
                        assert(quads@.len() == 0);
                    }
                    assert forall|i: int| 0 <= i < out@.len() implies #[trigger] out@[i]
                        == outer_quad(s0, i) by {
                        if i < before.len() {
                            assert(out@[i] == before[i]);
                        }
                    }
                }
            }
            assert forall|i: int| 0 <= i < out@.len() implies (#[trigger] out@[i]).section < 16
                && out@[i].layer < 16 && board_index(
                out@[i].section as int,
                out@[i].face,
                out@[i].layer as int,
            ) < t + 1 by {
                if i < before.len() {
                    assert(out@[i] == before[i]);
                } else {
                    let j = i - before.len();
                    assert(out@[before.len() + j] == (FaceQuad {
                        section: s as u8,
                        face: f,
                        layer: l as u8,
                        quad: quads@[j],
                    }));
                }
            }
            assert forall|ss: int, ff: Face, ll: int, r: int, b: int|
                #![trigger emitted(out@, ss, ff, ll, r, b)]
                0 <= ss < 16 && 0 <= ll < 16 && board_index(ss, ff, ll) < t + 1 implies (emitted(
                    out@,
                    ss,
                    ff,
                    ll,
                    r,
                    b,
                ) <==> (self.has_section(ss) && self.board_cell(ff, ss, ll, r, b))) by {
                if board_index(ss, ff, ll) == t {
                    lemma_board_index_unique(ss, face_num(ff), ll, s as int, fnum as int, l as int);
                    lemma_face_num_injective(ff, f);
                    assert(ss == s && ff == f && ll == l);
                    if emitted(out@, ss, ff, ll, r, b) {
                        let i = choose|i: int|
                            0 <= i < out@.len() && (#[trigger] out@[i]).section == ss
                                && out@[i].face == ff && out@[i].layer == ll && covers(
                                out@[i].quad,
                                r,
                                b,
                            );
                        if i < before.len() {
                            assert(out@[i] == before[i]);
                        } else {
                            let j = i - before.len();
                            assert(out@[i].quad == quads@[j]);
                            assert(covered(quads@, r, b));
                        }
                    }
                    if self.board_cell(ff, ss, ll, r, b) {
                        assert(cell(b0, r, b));
                        assert(covered(quads@, r, b));
                        let j = choose|j: int| 0 <= j < quads@.len() && covers(#[trigger] quads@[j], r, b);
                        assert(out@[before.len() + j].quad == quads@[j]);
                    }
                } else {
                    assert(board_index(ss, ff, ll) < t);
                    assert(emitted(before, ss, ff, ll, r, b) <==> (self.has_section(ss)
                        && self.board_cell(ff, ss, ll, r, b)));
                    if emitted(out@, ss, ff, ll, r, b) {
                        let i = choose|i: int|
                            0 <= i < out@.len() && (#[trigger] out@[i]).section == ss
                                && out@[i].face == ff && out@[i].layer == ll && covers(
                                out@[i].quad,
                                r,
                                b,
                            );
                        if i >= before.len() {
                            let j = i - before.len();
                            assert(out@[before.len() + j] == (FaceQuad {
                                section: s as u8,
                                face: f,
                                layer: l as u8,
                                quad: quads@[j],
                            }));
                            assert(board_index(ss, ff, ll) == t);
                        }
                        assert(out@[i] == before[i]);
                    }
                    if emitted(before, ss, ff, ll, r, b) {
                        let i = choose|i: int|
                            0 <= i < before.len() && (#[trigger] before[i]).section == ss
                                && before[i].face == ff && before[i].layer == ll && covers(
                                before[i].quad,
                                r,
                                b,
                            );
                        assert(out@[i] == before[i]);
                    }
                }
            }
        } else {
            proof {
                if lone {
                    assert(s != s0);
                    self.lemma_lone_skip(s0, s as int, fnum as int, l as int, t as int);
                }
            }
            assert forall|ss: int, ff: Face, ll: int, r: int, b: int|
                #![trigger emitted(out@, ss, ff, ll, r, b)]
                0 <= ss < 16 && 0 <= ll < 16 && board_index(ss, ff, ll) < t + 1 implies (emitted(
                    out@,
                    ss,
                    ff,
                    ll,
                    r,
                    b,
                ) <==> (self.has_section(ss) && self.board_cell(ff, ss, ll, r, b))) by {
                if board_index(ss, ff, ll) == t {
                    lemma_board_index_unique(ss, face_num(ff), ll, s as int, fnum as int, l as int);
                    assert(ss == s);
                    assert(!self.has_section(ss));
                    if emitted(out@, ss, ff, ll, r, b) {
                        let i = choose|i: int|
                            0 <= i < out@.len() && (#[trigger] out@[i]).section == ss
                                && out@[i].face == ff && out@[i].layer == ll && covers(
                                out@[i].quad,
                                r,
                                b,
                            );
                        assert(board_index(ss, ff, ll) < t);
                    }
                }
            }
        }
        assert(self.boards_done(out@, t + 1));
    }

    /// The merged faces of the column: for every present section, face and
    /// layer, quads covering exactly the drawn faces of that board.
    pub fn construct(&self) -> (out: Vec<FaceQuad>)
        ensures
            forall|s: int, f: Face, l: int, r: int, b: int|
                0 <= s < 16 && 0 <= l < 16 ==> (emitted(out@, s, f, l, r, b) <==> (self.has_section(s)
                    && self.board_cell(f, s, l, r, b))),
            forall|i: int| 0 <= i < out@.len() ==> (#[trigger] out@[i]).section < 16 && out@[i].layer < 16,
            // quads on one board never overlap
            forall|i: int, j: int, r: int, b: int|
                0 <= i < j < out@.len() && out@[i].section == out@[j].section && out@[i].face
                    == out@[j].face && out@[i].layer == out@[j].layer && #[trigger] covers(
                    out@[i].quad,
                    r,
                    b,
                ) ==> !#[trigger] covers(out@[j].quad, r, b),
            // a full section alone in its column shows as its six outer faces
            forall|s: int|
                self.lone_full_section(s) ==> out@.len() == 6 && forall|i: int|
                    0 <= i < 6 ==> #[trigger] out@[i] == outer_quad(s, i),
    {
        let ghost s0 = choose|s: int| self.lone_full_section(s);
        let mut out: Vec<FaceQuad> = Vec::new();
        let mut t: usize = 0;
        while t < 1536
            invariant
                t <= 1536,
                self.boards_done(out@, t as int),
            decreases 1536 - t,
        {
            self.add_board(&mut out, t);
            t = t + 1;
        }
        proof {
            assert forall|s: int| self.lone_full_section(s) implies out@.len() == 6 && forall|i: int|
                0 <= i < 6 ==> #[trigger] out@[i] == outer_quad(s, i) by {
                assert(self.lone_full_section(s0));
                assert(s == s0) by {
                    if s != s0 {
                        assert(self.column.sections@[s] is Some);
                    }
                }
                assert(outer_boards_before(s0, 1536) == 6);
            }
        }
        assert forall|s: int, f: Face, l: int, r: int, b: int|
            0 <= s < 16 && 0 <= l < 16 implies (emitted(out@, s, f, l, r, b) <==> (self.has_section(s)
                && self.board_cell(f, s, l, r, b))) by {
            assert(s * 96 + face_num(f) * 16 + l < 1536) by (nonlinear_arith)
                requires
                    0 <= s < 16,
                    0 <= face_num(f) < 6,
                    0 <= l < 16,
            ;
            assert(board_index(s, f, l) < t);
            assert(board_index(s, f, l) < t ==> (emitted(out@, s, f, l, r, b) <==> (self.has_section(s)
                && self.board_cell(f, s, l, r, b))));
        }
        out
    }
}

/// The layer of a section's boards on which face `f` of its outer blocks
/// lies.
pub open spec fn outer_layer(f: Face) -> int {
    match f {
        Face::Top | Face::Right | Face::Front => 15,
        Face::Bottom | Face::Left | Face::Back => 0,
    }
}

impl ChunkConstructor {
    /// Section `s` is the only one of the column, every block of it is drawn,
    /// and no neighbour column is known.
    pub open spec fn lone_full_section(&self, s: int) -> bool {
        &&& 0 <= s < 16
        &&& self.column.sections@.len() == 16
        &&& forall|j: int| 0 <= j < 16 && j != s ==> self.column.sections@[j] is None
        &&& self.column.sections@[s] matches Some(sec) && sec.blocks@.len() == 4096 && forall|i: int|
            0 <= i < 4096 ==> #[trigger] sec.blocks@[i].id != 0
        &&& self.west is None && self.east is None && self.north is None && self.south is None
    }

    proof fn lemma_lone_solid(&self, s: int, x: int, y: int, z: int)
        requires
            self.lone_full_section(s),
        ensures
            self.solid_at(x, y, z) <==> (0 <= x < 16 && 0 <= z < 16 && 16 * s <= y < 16 * s + 16),
    {
        if 0 <= x < 16 && 0 <= z < 16 && 0 <= y < 256 {
            let j = y / 16;
            assert(0 <= j < 16);
            assert(j == s <==> 16 * s <= y < 16 * s + 16);
            if j == s {
                let idx = (y % 16) * 256 + z * 16 + x;
                assert(0 <= idx < 4096);
                let sec = self.column.sections@[s]->Some_0;
                assert(sec.blocks@[idx].id != 0);
            }
        }
    }

    /// One board of the lone full section `s0`, built at board position `t`:
    /// the outer board of its face merges into one whole quad, any other
    /// board into none, and the count of outer boards done moves on exactly
    /// for the outer one.
    proof fn lemma_lone_step(
        &self,
        s0: int,
        s: int,
        f: Face,
        l: int,
        t: int,
        board: Seq<u16>,
        quads: Seq<Quad>,
    )
        requires
            self.lone_full_section(s0),
            self.has_section(s),
            0 <= l < 16,
            t == board_index(s, f, l),
            board.len() == 16,
            forall|r: int, b: int| cell(board, r, b) <==> self.board_cell(f, s, l, r, b),
            (forall|r: int| 0 <= r < 16 ==> board[r] == 0xFFFFu16) ==> quads == seq![
                Quad { x: 0, y: 0, width: 16, height: 16 },
            ],
            (forall|r: int| 0 <= r < 16 ==> board[r] == 0u16) ==> quads.len() == 0,
        ensures
            s == s0,
            l == outer_layer(f) ==> quads == seq![Quad { x: 0, y: 0, width: 16, height: 16 }]
                && outer_boards_before(s0, t + 1) == outer_boards_before(s0, t) + 1 && outer_quad(
                s0,
                outer_boards_before(s0, t),
            ) == (FaceQuad {
                section: s as u8,
                face: f,
                layer: l as u8,
                quad: Quad { x: 0, y: 0, width: 16, height: 16 },
            }),
            l != outer_layer(f) ==> quads.len() == 0 && outer_boards_before(s0, t + 1)
                == outer_boards_before(s0, t),
    {
        assert(s == s0) by {
            if s != s0 {
                assert(self.column.sections@[s] is None);
            }
        }
        if l == outer_layer(f) {
            assert forall|r: int| 0 <= r < 16 implies board[r] == 0xFFFFu16 by {
                assert forall|d: int| 0 <= d < 16 implies #[trigger] bit(board[r], d) by {
                    self.lemma_full_section_faces(s, f, l, r, d);
                    assert(cell(board, r, d));
                }
                lemma_row_full(board[r]);
            }
        } else {
            assert forall|r: int| 0 <= r < 16 implies board[r] == 0u16 by {
                assert forall|d: int| 0 <= d < 16 implies !#[trigger] bit(board[r], d) by {
                    self.lemma_full_section_faces(s, f, l, r, d);
                    assert(!cell(board, r, d));
                }
                lemma_row_zero(board[r]);
            }
        }
    }

    /// A board position of another section than the lone full one is none of
    /// its outer boards.
    proof fn lemma_lone_skip(&self, s0: int, s: int, fnum: int, l: int, t: int)
        requires
            0 <= s0 < 16,
            s != s0,
            0 <= fnum < 6,
            0 <= l < 16,
            t == s * 96 + fnum * 16 + l,
        ensures
            outer_boards_before(s0, t + 1) == outer_boards_before(s0, t),
    {
        if board_index(s0, face_at(0), outer_layer(face_at(0))) == t {
            lemma_board_index_unique(s0, 0, outer_layer(face_at(0)), s, fnum, l);
        }
        if board_index(s0, face_at(1), outer_layer(face_at(1))) == t {
            lemma_board_index_unique(s0, 1, outer_layer(face_at(1)), s, fnum, l);
        }
        if board_index(s0, face_at(2), outer_layer(face_at(2))) == t {
            lemma_board_index_unique(s0, 2, outer_layer(face_at(2)), s, fnum, l);
        }
        if board_index(s0, face_at(3), outer_layer(face_at(3))) == t {
            lemma_board_index_unique(s0, 3, outer_layer(face_at(3)), s, fnum, l);
        }
        if board_index(s0, face_at(4), outer_layer(face_at(4))) == t {
            lemma_board_index_unique(s0, 4, outer_layer(face_at(4)), s, fnum, l);
        }
        if board_index(s0, face_at(5), outer_layer(face_at(5))) == t {
            lemma_board_index_unique(s0, 5, outer_layer(face_at(5)), s, fnum, l);
        }
    }

    /// A section filled with drawn blocks, alone in its column and with no
    /// neighbour known, shows exactly its six outer faces: each face's board
    /// at the outermost layer is full, and every other board is empty.
    pub proof fn lemma_full_section_faces(&self, s: int, f: Face, l: int, r: int, b: int)
        requires
            self.lone_full_section(s),
            0 <= l < 16,
        ensures
            self.board_cell(f, s, l, r, b) <==> (0 <= r < 16 && 0 <= b < 16 && l == outer_layer(f)),
    {
        let p = board_pos(f, s, l, r, b);
        let d = face_dir(f);
        self.lemma_lone_solid(s, p.0, p.1, p.2);
        self.lemma_lone_solid(s, p.0 + d.0, p.1 + d.1, p.2 + d.2);
        self.lemma_lone_solid(s, p.0 + 1, p.1, p.2);
        self.lemma_lone_solid(s, p.0 - 1, p.1, p.2);
        self.lemma_lone_solid(s, p.0, p.1 + 1, p.2);
        self.lemma_lone_solid(s, p.0, p.1 - 1, p.2);
        self.lemma_lone_solid(s, p.0, p.1, p.2 + 1);
        self.lemma_lone_solid(s, p.0, p.1, p.2 - 1);
    }
}

/// The point at board coordinates `(r, b)` on the plane of face `f` of
/// layer `l`: the layer's lower side for Bottom, Left and Back, its upper
/// side for Top, Right and Front.
pub open spec fn plane_point(f: Face, l: int, r: int, b: int) -> (int, int, int) {
    match f {
        Face::Top => (r, l + 1, b),
        Face::Bottom => (r, l, b),
        Face::Left => (l, b, r),
        Face::Right => (l + 1, b, r),
        Face::Front => (r, b, l + 1),
        Face::Back => (r, b, l),
    }
}

pub open spec fn as_point(p: (u32, u32, u32)) -> (int, int, int) {
    (p.0 as int, p.1 as int, p.2 as int)
}

pub open spec fn edge(a: (int, int, int), b: (int, int, int)) -> (int, int, int) {
    (a.0 - b.0, a.1 - b.1, a.2 - b.2)
}

pub open spec fn cross(a: (int, int, int), b: (int, int, int)) -> (int, int, int) {
    (a.1 * b.2 - a.2 * b.1, a.2 * b.0 - a.0 * b.2, a.0 * b.1 - a.1 * b.0)
}

/// The four corners of a merged face, in section coordinates: the first and
/// third are the quad's opposite corners, all lie on the face's plane, and
/// they run counter-clockwise seen from outside, so that the cross product
/// of the first two edges points along the face's outward direction.
pub fn face_corners(q: &FaceQuad) -> (r: Vec<(u32, u32, u32)>)
    requires
        q.quad.x + q.quad.width <= 16,
        q.quad.y + q.quad.height <= 16,
        q.layer < 16,
    ensures
        r@.len() == 4,
        corners_of(q, r@),
{
    let l = q.layer as u32;
    let (r0, r1) = (q.quad.x, q.quad.x + q.quad.width);
    let (b0, b1) = (q.quad.y, q.quad.y + q.quad.height);
    let corners = match q.face {
        Face::Top => vec![(r0, l + 1, b0), (r0, l + 1, b1), (r1, l + 1, b1), (r1, l + 1, b0)],
        Face::Bottom => vec![(r0, l, b0), (r1, l, b0), (r1, l, b1), (r0, l, b1)],
        Face::Left => vec![(l, b0, r0), (l, b0, r1), (l, b1, r1), (l, b1, r0)],
        Face::Right => vec![(l + 1, b0, r0), (l + 1, b1, r0), (l + 1, b1, r1), (l + 1, b0, r1)],
        Face::Front => vec![(r0, b0, l + 1), (r1, b0, l + 1), (r1, b1, l + 1), (r0, b1, l + 1)],
        Face::Back => vec![(r0, b0, l), (r0, b1, l), (r1, b1, l), (r1, b0, l)],
    };
    proof {
        let (w, h) = (q.quad.width as int, q.quad.height as int);
        assert(h * w == w * h) by (nonlinear_arith);
        assert(0 * w == 0 && w * 0 == 0 && 0 * h == 0 && h * 0 == 0) by (nonlinear_arith);
        assert((-1) * (w * h) == -(w * h) && 1 * (w * h) == w * h && 0 * (w * h) == 0)
            by (nonlinear_arith);
        assert(as_point(corners@[0]) == plane_point(q.face, q.layer as int, q.quad.x as int, q.quad.y as int));
        assert(as_point(corners@[2]) == plane_point(
            q.face,
            q.layer as int,
            q.quad.x + q.quad.width,
            q.quad.y + q.quad.height,
        ));
    }
    corners
}

/// Corners `r` of merged face `q`: the first and third are the quad's
/// opposite corners, all four lie on the face's plane, and they run
/// counter-clockwise seen from outside, so that the cross product of the
/// first two edges points along the face's outward direction.
pub open spec fn corners_of(q: &FaceQuad, r: Seq<(u32, u32, u32)>) -> bool {
    let (f, l, x, y, w, h) = (
        q.face,
        q.layer as int,
        q.quad.x as int,
        q.quad.y as int,
        q.quad.width as int,
        q.quad.height as int,
    );
    &&& as_point(r[0]) == plane_point(f, l, x, y)
    &&& as_point(r[2]) == plane_point(f, l, x + w, y + h)
    &&& ((as_point(r[1]) == plane_point(f, l, x + w, y) && as_point(r[3]) == plane_point(
        f,
        l,
        x,
        y + h,
    )) || (as_point(r[1]) == plane_point(f, l, x, y + h) && as_point(r[3]) == plane_point(
        f,
        l,
        x + w,
        y,
    )))
    &&& cross(edge(as_point(r[1]), as_point(r[0])), edge(as_point(r[2]), as_point(r[0])))
        == (face_dir(f).0 * (w * h), face_dir(f).1 * (w * h), face_dir(f).2 * (w * h))
}

/// The outward unit normal of a face.
pub fn face_normal(f: Face) -> (r: (i32, i32, i32))
    ensures
        (r.0 as int, r.1 as int, r.2 as int) == face_dir(f),
{
    match f {
        Face::Top => (0, 1, 0),
        Face::Bottom => (0, -1, 0),
        Face::Left => (-1, 0, 0),
        Face::Right => (1, 0, 0),
        Face::Front => (0, 0, 1),
        Face::Back => (0, 0, -1),
    }
}

/// The two triangles of a quad whose corners start at vertex `base`.
pub fn quad_indices(base: u32) -> (r: Vec<u32>)
    requires
        base <= u32::MAX - 3,
    ensures
        r@ == seq![base, (base + 1) as u32, (base + 2) as u32, (base + 2) as u32, (base + 3) as u32, base],
{
    vec![base, base + 1, base + 2, base + 2, base + 3, base]
}

/// Texture coordinates of the four corners, in corner order.
pub fn quad_uvs() -> (r: Vec<(u32, u32)>)
    ensures
        r@ == seq![(0u32, 0u32), (1u32, 0u32), (1u32, 1u32), (0u32, 1u32)],
{
    vec![(0, 0), (1, 0), (1, 1), (0, 1)]
}

} // verus!
