use vstd::prelude::*;

use crate::direction::{spec_offset, Direction};
use crate::first_index::{first_index, lemma_first_index_is, lemma_first_index_none};
use crate::inventory::{amount_in, Inventory};
use crate::recipe::{amounts_fit, remove_all, spec_inputs_available};
use crate::resource::{Cost, ResourceId};
use crate::text::{owned, push_str, str_equal};

verus! {

pub open spec fn sign(x: int) -> int {
    if x > 0 {
        1
    } else if x < 0 {
        -1
    } else {
        0
    }
}

pub open spec fn abs(x: int) -> int {
    if x < 0 {
        -x
    } else {
        x
    }
}

pub open spec fn dir_of_x(dx: int) -> Direction {
    if dx > 0 {
        Direction::East
    } else {
        Direction::West
    }
}

pub open spec fn dir_of_y(dy: int) -> Direction {
    if dy > 0 {
        Direction::North
    } else {
        Direction::South
    }
}

/// The tiles of a straight run of `len` tiles from `(x, y)` with step `(sx, sy)`,
/// each pointing to `d`.
pub open spec fn run(x: int, y: int, sx: int, sy: int, len: nat, d: Direction) -> Seq<(int, int, Direction)> {
    Seq::new(len, |i: int| (x + sx * i, y + sy * i, d))
}

/// The tiles a click-drag from `start` to `end` covers, with the direction each
/// belt gets: a single tile facing east; a straight line along the drag; or an
/// L-shape that first runs along the longer axis and then turns at the end's
/// column (or row) towards the end.
pub open spec fn spec_line(sx: int, sy: int, ex: int, ey: int) -> Seq<(int, int, Direction)> {
    let dx = ex - sx;
    let dy = ey - sy;
    let adx = abs(dx);
    let ady = abs(dy);
    if adx == 0 && ady == 0 {
        seq![(sx, sy, Direction::East)]
    } else if adx > 0 && ady > 0 {
        if adx >= ady {
            run(sx, sy, sign(dx), 0, adx as nat, dir_of_x(dx)) + run(
                ex,
                sy,
                0,
                sign(dy),
                (ady + 1) as nat,
                dir_of_y(dy),
            )
        } else {
            run(sx, sy, 0, sign(dy), ady as nat, dir_of_y(dy)) + run(
                sx,
                ey,
                sign(dx),
                0,
                (adx + 1) as nat,
                dir_of_x(dx),
            )
        }
    } else if adx > 0 {
        run(sx, sy, sign(dx), 0, (adx + 1) as nat, dir_of_x(dx))
    } else {
        run(sx, sy, 0, sign(dy), (ady + 1) as nat, dir_of_y(dy))
    }
}

pub open spec fn line_view(v: Seq<(i32, i32, Direction)>) -> Seq<(int, int, Direction)> {
    v.map_values(|t: (i32, i32, Direction)| (t.0 as int, t.1 as int, t.2))
}

/// The differences a drag can cover without overflowing `i32`.
pub open spec fn line_fits(sx: int, sy: int, ex: int, ey: int) -> bool {
    &&& i32::MIN < ex - sx <= i32::MAX
    &&& i32::MIN < ey - sy <= i32::MAX
}

fn push_run(out: &mut Vec<(i32, i32, Direction)>, x: i32, y: i32, sx: i32, sy: i32, len: u64, d: Direction)
    requires
        len <= u32::MAX,
        -1 <= sx <= 1,
        -1 <= sy <= 1,
        len > 0 ==> i32::MIN <= x + sx * (len - 1) <= i32::MAX,
        len > 0 ==> i32::MIN <= y + sy * (len - 1) <= i32::MAX,
    ensures
        line_view(final(out)@) == line_view(old(out)@) + run(x as int, y as int, sx as int, sy as int, len as nat, d),
{
    let ghost start = line_view(out@);
    let mut i: u64 = 0;
    while i < len
        invariant
            0 <= i <= len,
            len <= u32::MAX,
            -1 <= sx <= 1,
            -1 <= sy <= 1,
            len > 0 ==> i32::MIN <= x + sx * (len - 1) <= i32::MAX,
            len > 0 ==> i32::MIN <= y + sy * (len - 1) <= i32::MAX,
            line_view(out@) == start + run(x as int, y as int, sx as int, sy as int, i as nat, d),
        decreases len - i,
    {
        assert(i32::MIN <= x + sx * i <= i32::MAX) by (nonlinear_arith)
            requires
                -1 <= sx <= 1,
                0 <= i < len,
                i32::MIN <= x + sx * (len - 1) <= i32::MAX,
                i32::MIN <= x <= i32::MAX,
        ;
        assert(i32::MIN <= y + sy * i <= i32::MAX) by (nonlinear_arith)
            requires
                -1 <= sy <= 1,
                0 <= i < len,
                i32::MIN <= y + sy * (len - 1) <= i32::MAX,
                i32::MIN <= y <= i32::MAX,
        ;
        assert(-(u32::MAX as int) <= sx * i <= u32::MAX) by (nonlinear_arith)
            requires -1 <= sx <= 1, 0 <= i <= u32::MAX;
        assert(-(u32::MAX as int) <= sy * i <= u32::MAX) by (nonlinear_arith)
            requires -1 <= sy <= 1, 0 <= i <= u32::MAX;
        let px = (x as i64 + sx as i64 * i as i64) as i32;
        let py = (y as i64 + sy as i64 * i as i64) as i32;
        assert(px == x + sx * i);
        assert(py == y + sy * i);
        let ghost before = out@;
        out.push((px, py, d));
        assert(line_view(out@) =~= line_view(before).push((x + sx * i, y + sy * i, d)));
        assert(run(x as int, y as int, sx as int, sy as int, (i + 1) as nat, d) =~= run(x as int, y as int, sx as int, sy as int, i as nat, d).push((x + sx * i, y + sy * i, d)));
        assert(line_view(out@) =~= start + run(x as int, y as int, sx as int, sy as int, (i + 1) as nat, d));
        i = i + 1;
    }
}

/// The belt tiles of a click-drag from `start` to `end`.
pub fn compute_line(start: (i32, i32), end: (i32, i32)) -> (r: Vec<(i32, i32, Direction)>)
    requires
        line_fits(start.0 as int, start.1 as int, end.0 as int, end.1 as int),
    ensures
        line_view(r@) == spec_line(start.0 as int, start.1 as int, end.0 as int, end.1 as int),
{
    let dx = end.0 - start.0;
    let dy = end.1 - start.1;
    let adx = if dx < 0 {
        -dx
    } else {
        dx
    };
    let ady = if dy < 0 {
        -dy
    } else {
        dy
    };
    let sdx: i32 = if dx > 0 {
        1
    } else if dx < 0 {
        -1
    } else {
        0
    };
    let sdy: i32 = if dy > 0 {
        1
    } else if dy < 0 {
        -1
    } else {
        0
    };
    let mut result: Vec<(i32, i32, Direction)> = Vec::new();
    if adx == 0 && ady == 0 {
        result.push((start.0, start.1, Direction::East));
        assert(line_view(result@) =~= spec_line(start.0 as int, start.1 as int, end.0 as int, end.1 as int));
        return result;
    }
    let dir_x = if sdx > 0 {
        Direction::East
    } else {
        Direction::West
    };
    let dir_y = if sdy > 0 {
        Direction::North
    } else {
        Direction::South
    };
    assert(line_view(result@) =~= Seq::empty());
    if adx > 0 && ady > 0 {
        if adx >= ady {
            push_run(&mut result, start.0, start.1, sdx, 0, adx as u64, dir_x);
            push_run(&mut result, end.0, start.1, 0, sdy, ady as u64 + 1, dir_y);
        } else {
            push_run(&mut result, start.0, start.1, 0, sdy, ady as u64, dir_y);
            push_run(&mut result, start.0, end.1, sdx, 0, adx as u64 + 1, dir_x);
        }
    } else if adx > 0 {
        push_run(&mut result, start.0, start.1, sdx, 0, adx as u64 + 1, dir_x);
    } else {
        push_run(&mut result, start.0, start.1, 0, sdy, ady as u64 + 1, dir_y);
    }
    assert(line_view(result@) =~= spec_line(start.0 as int, start.1 as int, end.0 as int, end.1 as int));
    result
}

/// How far along the drag a tile is: its progress towards the end on each axis.
pub open spec fn progress(sx: int, sy: int, ex: int, ey: int, t: (int, int, Direction)) -> int {
    sign(ex - sx) * (t.0 - sx) + sign(ey - sy) * (t.1 - sy)
}

proof fn lemma_line_progress(sx: int, sy: int, ex: int, ey: int)
    ensures
        forall|k: int|
            0 <= k < spec_line(sx, sy, ex, ey).len() ==> progress(sx, sy, ex, ey, #[trigger] spec_line(sx, sy, ex, ey)[k])
                == k,
{
    let l = spec_line(sx, sy, ex, ey);
    let dx = ex - sx;
    let dy = ey - sy;
    let a = sign(dx);
    let b = sign(dy);
    assert(a * a == 1 || a == 0);
    assert(b * b == 1 || b == 0);
    assert forall|k: int| 0 <= k < l.len() implies progress(sx, sy, ex, ey, #[trigger] l[k]) == k by {
        let t = l[k];
        assert(a * dx == abs(dx));
        assert(b * dy == abs(dy));
        if abs(dx) > 0 && abs(dy) > 0 {
            if abs(dx) >= abs(dy) {
                if k < abs(dx) {
                    assert(t.0 - sx == a * k && t.1 == sy);
                    assert(a * (a * k) == k) by (nonlinear_arith) requires a * a == 1;
                } else {
                    let i = k - abs(dx);
                    assert(t.0 == ex && t.1 - sy == b * i);
                    assert(b * (b * i) == i) by (nonlinear_arith) requires b * b == 1;
                }
            } else {
                if k < abs(dy) {
                    assert(t.1 - sy == b * k && t.0 == sx);
                    assert(b * (b * k) == k) by (nonlinear_arith) requires b * b == 1;
                } else {
                    let i = k - abs(dy);
                    assert(t.1 == ey && t.0 - sx == a * i);
                    assert(a * (a * i) == i) by (nonlinear_arith) requires a * a == 1;
                }
            }
        } else if abs(dx) > 0 {
            assert(t.0 - sx == a * k && t.1 == sy);
            assert(a * (a * k) == k) by (nonlinear_arith) requires a * a == 1;
        } else if abs(dy) > 0 {
            assert(t.1 - sy == b * k && t.0 == sx);
            assert(b * (b * k) == k) by (nonlinear_arith) requires b * b == 1;
        }
    }
}

/// The direction of the last tile of a drag: towards the end along the axis
/// the line finishes on (east for a single tile).
pub open spec fn last_direction(sx: int, sy: int, ex: int, ey: int) -> Direction {
    let dx = ex - sx;
    let dy = ey - sy;
    if dx == 0 && dy == 0 {
        Direction::East
    } else if dy != 0 && (dx == 0 || abs(dx) >= abs(dy)) {
        dir_of_y(dy)
    } else {
        dir_of_x(dx)
    }
}

/// A drag line starts on the start tile, ends on the end tile, has one tile per
/// step along each axis plus one, and every tile but the last points to the next;
/// no tile is covered twice, and the last tile points towards the end along the
/// axis the line finishes on.
pub proof fn law_line_is_connected_path(sx: int, sy: int, ex: int, ey: int)
    ensures
        forall|i: int, j: int|
            0 <= i < j < spec_line(sx, sy, ex, ey).len() ==> ((#[trigger] spec_line(sx, sy, ex, ey)[i]).0,
                spec_line(sx, sy, ex, ey)[i].1) != ((#[trigger] spec_line(sx, sy, ex, ey)[j]).0, spec_line(
                sx,
                sy,
                ex,
                ey,
            )[j].1),
        spec_line(sx, sy, ex, ey).last().2 == last_direction(sx, sy, ex, ey),
        spec_line(sx, sy, ex, ey).len() == abs(ex - sx) + abs(ey - sy) + 1,
        spec_line(sx, sy, ex, ey)[0].0 == sx,
        spec_line(sx, sy, ex, ey)[0].1 == sy,
        spec_line(sx, sy, ex, ey).last().0 == ex,
        spec_line(sx, sy, ex, ey).last().1 == ey,
        forall|k: int|
            0 <= k < spec_line(sx, sy, ex, ey).len() - 1 ==> {
                let a = #[trigger] spec_line(sx, sy, ex, ey)[k];
                let b = spec_line(sx, sy, ex, ey)[k + 1];
                b.0 == a.0 + spec_offset(a.2).0 && b.1 == a.1 + spec_offset(a.2).1
            },
{
    let l = spec_line(sx, sy, ex, ey);
    let dx = ex - sx;
    let dy = ey - sy;
    lemma_line_progress(sx, sy, ex, ey);
    assert forall|i: int, j: int| 0 <= i < j < l.len() implies ((#[trigger] l[i]).0, l[i].1) != ((#[trigger] l[j]).0, l[j].1) by {
        assert(progress(sx, sy, ex, ey, l[i]) == i);
        assert(progress(sx, sy, ex, ey, l[j]) == j);
    }
    assert forall|k: int| 0 <= k < l.len() - 1 implies {
        let a = #[trigger] l[k];
        let b = l[k + 1];
        b.0 == a.0 + spec_offset(a.2).0 && b.1 == a.1 + spec_offset(a.2).1
    } by {
        if abs(dx) > 0 && abs(dy) > 0 {
            if abs(dx) >= abs(dy) {
                if k == abs(dx) - 1 {
                    assert(sx + sign(dx) * k + sign(dx) == ex) by (nonlinear_arith)
                        requires
                            k == abs(dx) - 1,
                            dx == ex - sx,
                            abs(dx) == if dx < 0 { -dx } else { dx },
                            sign(dx) == if dx > 0 { 1int } else if dx < 0 { -1int } else { 0int },
                    ;
                }
            } else {
                if k == abs(dy) - 1 {
                    assert(sy + sign(dy) * k + sign(dy) == ey) by (nonlinear_arith)
                        requires
                            k == abs(dy) - 1,
                            dy == ey - sy,
                            abs(dy) == if dy < 0 { -dy } else { dy },
                            sign(dy) == if dy > 0 { 1int } else if dy < 0 { -1int } else { 0int },
                    ;
                }
            }
        }
    }
    if abs(dx) > 0 && abs(dy) > 0 {
        if abs(dx) >= abs(dy) {
            assert(sy + sign(dy) * abs(dy) == ey);
        } else {
            assert(sx + sign(dx) * abs(dx) == ex);
        }
    } else if abs(dx) > 0 {
        assert(sx + sign(dx) * abs(dx) == ex);
    } else if abs(dy) > 0 {
        assert(sy + sign(dy) * abs(dy) == ey);
    }
}


/// The tiles a `tw` x `th` building covers from its anchor `(tx, ty)`,
/// column by column.
pub open spec fn spec_footprint(tx: int, ty: int, tw: nat, th: nat) -> Seq<(int, int)> {
    Seq::new(tw * th, |k: int| (tx + k / (th as int), ty + k % (th as int)))
}

pub open spec fn tiles_view(v: Seq<(i32, i32)>) -> Seq<(int, int)> {
    v.map_values(|t: (i32, i32)| (t.0 as int, t.1 as int))
}

/// The tiles a `tw` x `th` building anchored at `(tx, ty)` occupies.
pub fn compute_footprint(tx: i32, ty: i32, tw: u32, th: u32) -> (r: Vec<(i32, i32)>)
    requires
        tw * th <= u32::MAX,
        tw <= i32::MAX,
        th <= i32::MAX,
        tx + tw <= i32::MAX + 1,
        ty + th <= i32::MAX + 1,
    ensures
        tiles_view(r@) == spec_footprint(tx as int, ty as int, tw as nat, th as nat),
{
    let mut tiles: Vec<(i32, i32)> = Vec::new();
    let mut dx: u32 = 0;
    while dx < tw
        invariant
            dx <= tw,
            tw <= i32::MAX,
            th <= i32::MAX,
            tw * th <= u32::MAX,
            tx + tw <= i32::MAX + 1,
            ty + th <= i32::MAX + 1,
            tiles_view(tiles@) == spec_footprint(tx as int, ty as int, dx as nat, th as nat),
        decreases tw - dx,
    {
        let mut dy: u32 = 0;
        while dy < th
            invariant
                dx < tw,
                dy <= th,
                tw <= i32::MAX,
                th <= i32::MAX,
                tw * th <= u32::MAX,
                tx + tw <= i32::MAX + 1,
                ty + th <= i32::MAX + 1,
                tiles_view(tiles@) == spec_footprint(tx as int, ty as int, dx as nat, th as nat)
                    + Seq::new(dy as nat, |j: int| (tx + dx, ty + j)),
            decreases th - dy,
        {
            let ghost before = tiles@;
            let px = tx + dx as i32;
            let py = ty + dy as i32;
            tiles.push((px, py));
            assert(tiles_view(tiles@) =~= tiles_view(before).push((tx + dx, ty + dy)));
            assert(Seq::new((dy + 1) as nat, |j: int| (tx + dx, ty + j)) =~= Seq::new(
                dy as nat,
                |j: int| (tx + dx, ty + j),
            ).push((tx + dx, ty + dy)));
            dy = dy + 1;
        }
        proof {
            lemma_footprint_step(tx as int, ty as int, dx as nat, th as nat);
        }
        dx = dx + 1;
    }
    tiles
}

proof fn lemma_footprint_step(tx: int, ty: int, dx: nat, th: nat)
    ensures
        spec_footprint(tx, ty, dx + 1, th) =~= spec_footprint(tx, ty, dx, th) + Seq::new(
            th,
            |j: int| (tx + dx, ty + j),
        ),
{
    let a = spec_footprint(tx, ty, dx + 1, th);
    let b = spec_footprint(tx, ty, dx, th) + Seq::new(th, |j: int| (tx + dx, ty + j));
    assert((dx + 1) * th == dx * th + th) by (nonlinear_arith);
    assert forall|k: int| 0 <= k < a.len() implies a[k] == b[k] by {
        if k < dx * th {
            assert(k / (th as int) == k / (th as int));
        } else {
            let j = k - dx * th;
            assert(0 <= j < th);
            assert(k / (th as int) == dx && k % (th as int) == j) by (nonlinear_arith)
                requires
                    k == dx * th + j,
                    0 <= j < th,
                    th > 0,
            ;
        }
    }
}

/// A building's footprint is exactly the rectangle of tiles it spans.
pub proof fn law_footprint_is_rectangle(tx: int, ty: int, tw: nat, th: nat, a: int, b: int)
    ensures
        spec_footprint(tx, ty, tw, th).len() == tw * th,
        spec_footprint(tx, ty, tw, th).contains((a, b)) <==> (tx <= a < tx + tw && ty <= b < ty
            + th),
{
    let f = spec_footprint(tx, ty, tw, th);
    if tx <= a < tx + tw && ty <= b < ty + th {
        let k = (a - tx) * th + (b - ty);
        assert(0 <= k < tw * th && k / (th as int) == a - tx && k % (th as int) == b - ty)
            by (nonlinear_arith)
            requires
                k == (a - tx) * th + (b - ty),
                0 <= a - tx < tw,
                0 <= b - ty < th,
        ;
        assert(f[k] == (a, b));
    }
    if f.contains((a, b)) {
        let k = choose|k: int| 0 <= k < f.len() && f[k] == (a, b);
        assert(0 <= k / (th as int) < tw && 0 <= k % (th as int) < th) by (nonlinear_arith)
            requires
                0 <= k < tw * th,
                th > 0,
        ;
    }
}

pub open spec fn scan_order(i: int) -> Direction {
    if i == 0 {
        Direction::East
    } else if i == 1 {
        Direction::North
    } else if i == 2 {
        Direction::West
    } else {
        Direction::South
    }
}

pub open spec fn tile_in(tiles: Seq<(i32, i32)>, x: int, y: int) -> bool {
    exists|k: int| 0 <= k < tiles.len() && tiles[k].0 == x && tiles[k].1 == y
}

/// The first direction, in the order east, north, west, south, whose
/// neighbouring tile holds a producer.
pub open spec fn spec_producer_direction(tx: int, ty: int, producers: Seq<(i32, i32)>) -> Option<Direction> {
    let hits = |i: int| tile_in(producers, tx + spec_offset(scan_order(i)).0, ty + spec_offset(scan_order(i)).1);
    if hits(0) {
        Some(Direction::East)
    } else if hits(1) {
        Some(Direction::North)
    } else if hits(2) {
        Some(Direction::West)
    } else if hits(3) {
        Some(Direction::South)
    } else {
        None
    }
}

fn tile_listed(tiles: &Vec<(i32, i32)>, x: i32, y: i32) -> (r: bool)
    ensures
        r == tile_in(tiles@, x as int, y as int),
{
    let n = tiles.len();
    let mut i: usize = 0;
    while i < n
        invariant
            n == tiles@.len(),
            i <= n,
            forall|k: int| 0 <= k < i ==> !(tiles@[k].0 == x && tiles@[k].1 == y),
        decreases n - i,
    {
        if tiles[i].0 == x && tiles[i].1 == y {
            return true;
        }
        i = i + 1;
    }
    false
}

/// Which neighbouring producer a new belt on `(tx, ty)` should carry away from.
pub fn detect_producer_direction(tx: i32, ty: i32, producers: &Vec<(i32, i32)>) -> (r: Option<Direction>)
    requires
        i32::MIN < tx < i32::MAX,
        i32::MIN < ty < i32::MAX,
    ensures
        r == spec_producer_direction(tx as int, ty as int, producers@),
{
    if tile_listed(producers, tx + 1, ty) {
        return Some(Direction::East);
    }
    if tile_listed(producers, tx, ty + 1) {
        return Some(Direction::North);
    }
    if tile_listed(producers, tx - 1, ty) {
        return Some(Direction::West);
    }
    if tile_listed(producers, tx, ty - 1) {
        return Some(Direction::South);
    }
    None
}

/// A belt at `p` pointing to `d` feeds the tile `(tx, ty)`.
pub open spec fn feeds(b: ((i32, i32), Direction), tx: int, ty: int) -> bool {
    (b.0).0 + spec_offset(b.1).0 == tx && (b.0).1 + spec_offset(b.1).1 == ty
}

pub open spec fn feeds_tile(tx: int, ty: int) -> spec_fn(((i32, i32), Direction)) -> bool {
    |b: ((i32, i32), Direction)| feeds(b, tx, ty)
}

/// The direction a belt placed on `(tx, ty)` takes: away from a neighbouring
/// producer; else the direction of the first belt that feeds into this tile;
/// else `default`.
pub open spec fn spec_auto_direction(
    tx: int,
    ty: int,
    producers: Seq<(i32, i32)>,
    belts: Seq<((i32, i32), Direction)>,
    default: Direction,
) -> Direction {
    match spec_producer_direction(tx, ty, producers) {
        Some(d) => d,
        None => {
            let i = first_index(belts, feeds_tile(tx, ty));
            if i >= 0 {
                belts[i].1
            } else {
                default
            }
        },
    }
}

/// A belt at `b.0` heading `b.1` moves its items onto the tile `(tx, ty)`:
/// the tile is the next one east, north, west or south of it, as it heads.
pub open spec fn points_onto(b: ((i32, i32), Direction), tx: int, ty: int) -> bool {
    let (x, y) = b.0;
    ||| b.1 == Direction::East && x + 1 == tx && y == ty
    ||| b.1 == Direction::North && x == tx && y + 1 == ty
    ||| b.1 == Direction::West && x - 1 == tx && y == ty
    ||| b.1 == Direction::South && x == tx && y - 1 == ty
}

/// A producer stands on the tile `(x, y)`.
pub open spec fn producer_on(producers: Seq<(i32, i32)>, x: int, y: int) -> bool {
    exists|k: int| 0 <= k < producers.len() && #[trigger] producers[k].0 == x && producers[k].1 == y
}

/// How a new belt on `(tx, ty)` is turned: away from a producer next to it,
/// preferring east, then north, then west, then south; with no producer next
/// to it, the way the first belt pointing onto its tile heads, so that it
/// continues that belt (belt `i` below); with neither, the default.
pub proof fn law_auto_direction(
    tx: int,
    ty: int,
    producers: Seq<(i32, i32)>,
    belts: Seq<((i32, i32), Direction)>,
    default: Direction,
    i: int,
)
    ensures
        ({
            let d = spec_auto_direction(tx, ty, producers, belts, default);
            let east = producer_on(producers, tx + 1, ty);
            let north = producer_on(producers, tx, ty + 1);
            let west = producer_on(producers, tx - 1, ty);
            let south = producer_on(producers, tx, ty - 1);
            let none = !east && !north && !west && !south;
            &&& east ==> d == Direction::East
            &&& !east && north ==> d == Direction::North
            &&& !east && !north && west ==> d == Direction::West
            &&& !east && !north && !west && south ==> d == Direction::South
            &&& (none && 0 <= i < belts.len() && points_onto(belts[i], tx, ty) && forall|j: int|
                0 <= j < i ==> !points_onto(#[trigger] belts[j], tx, ty)) ==> d == belts[i].1
            &&& (none && forall|j: int| 0 <= j < belts.len() ==> !points_onto(#[trigger] belts[j], tx, ty)) ==> d
                == default
        }),
{
    let f = feeds_tile(tx, ty);
    assert forall|j: int| 0 <= j < belts.len() implies (f(belts[j]) <==> points_onto(#[trigger] belts[j], tx, ty)) by {
        let b = belts[j];
        match b.1 {
            Direction::East => {},
            Direction::North => {},
            Direction::West => {},
            Direction::South => {},
        }
    }
    assert(producer_on(producers, tx + 1, ty) == tile_in(producers, tx + 1, ty));
    assert(producer_on(producers, tx, ty + 1) == tile_in(producers, tx, ty + 1));
    assert(producer_on(producers, tx - 1, ty) == tile_in(producers, tx - 1, ty));
    assert(producer_on(producers, tx, ty - 1) == tile_in(producers, tx, ty - 1));
    if 0 <= i < belts.len() && points_onto(belts[i], tx, ty) && forall|j: int|
        0 <= j < i ==> !points_onto(#[trigger] belts[j], tx, ty) {
        lemma_first_index_is(belts, f, i);
    }
    if forall|j: int| 0 <= j < belts.len() ==> !points_onto(#[trigger] belts[j], tx, ty) {
        lemma_first_index_none(belts, f);
    }
}

/// No belt sits on the edge of the `i32` grid, so stepping from it cannot overflow.
pub open spec fn belts_inside(belts: Seq<((i32, i32), Direction)>) -> bool {
    forall|k: int|
        0 <= k < belts.len() ==> i32::MIN < (#[trigger] belts[k].0).0 < i32::MAX && i32::MIN
            < belts[k].0.1 < i32::MAX
}

pub fn auto_detect_direction_from_data(
    tx: i32,
    ty: i32,
    producers: &Vec<(i32, i32)>,
    belt_data: &Vec<((i32, i32), Direction)>,
    default: Direction,
) -> (r: Direction)
    requires
        i32::MIN < tx < i32::MAX,
        i32::MIN < ty < i32::MAX,
        belts_inside(belt_data@),
    ensures
        r == spec_auto_direction(tx as int, ty as int, producers@, belt_data@, default),
{
    if let Some(dir) = detect_producer_direction(tx, ty, producers) {
        return dir;
    }
    let n = belt_data.len();
    let mut i: usize = 0;
    while i < n
        invariant
            n == belt_data@.len(),
            i <= n,
            belts_inside(belt_data@),
            spec_producer_direction(tx as int, ty as int, producers@) is None,
            forall|k: int| 0 <= k < i ==> !feeds_tile(tx as int, ty as int)(#[trigger] belt_data@[k]),
        decreases n - i,
    {
        let (pos, dir) = belt_data[i];
        let (odx, ody) = dir.offset();
        assert(i32::MIN < belt_data@[i as int].0.0 < i32::MAX);
        if pos.0 + odx == tx && pos.1 + ody == ty {
            proof {
                lemma_first_index_is(belt_data@, feeds_tile(tx as int, ty as int), i as int);
            }
            return dir;
        }
        i = i + 1;
    }
    proof {
        lemma_first_index_none(belt_data@, feeds_tile(tx as int, ty as int));
    }
    default
}

/// Whether a side of a previewed belt is marked as an input: a producer sits
/// on that side, or some belt anywhere feeds the tile.
pub open spec fn side_is_input(
    tx: int,
    ty: int,
    producers: Seq<(i32, i32)>,
    belts: Seq<((i32, i32), Direction)>,
    d: Direction,
) -> bool {
    tile_in(producers, tx + spec_offset(d).0, ty + spec_offset(d).1) || first_index(belts, feeds_tile(tx, ty)) >= 0
}

/// The marker of one side: inputs are marked, and so is the side the belt
/// leads to.
pub open spec fn side_marker(
    tx: int,
    ty: int,
    producers: Seq<(i32, i32)>,
    belts: Seq<((i32, i32), Direction)>,
    dir: Direction,
    d: Direction,
) -> Seq<(Direction, bool)> {
    let input = side_is_input(tx, ty, producers, belts, d);
    if input || d == dir {
        seq![(d, input)]
    } else {
        Seq::empty()
    }
}

/// The markers drawn around a previewed belt, east, north, west then south:
/// each side with whether it is an input (else it is the output side).
pub open spec fn spec_preview_markers(
    tx: int,
    ty: int,
    producers: Seq<(i32, i32)>,
    belts: Seq<((i32, i32), Direction)>,
    dir: Direction,
) -> Seq<(Direction, bool)> {
    side_marker(tx, ty, producers, belts, dir, Direction::East) + side_marker(
        tx,
        ty,
        producers,
        belts,
        dir,
        Direction::North,
    ) + side_marker(tx, ty, producers, belts, dir, Direction::West) + side_marker(
        tx,
        ty,
        producers,
        belts,
        dir,
        Direction::South,
    )
}

fn any_belt_feeds(tx: i32, ty: i32, belt_data: &Vec<((i32, i32), Direction)>) -> (r: bool)
    requires
        belts_inside(belt_data@),
    ensures
        r == (first_index(belt_data@, feeds_tile(tx as int, ty as int)) >= 0),
{
    let n = belt_data.len();
    let mut i: usize = 0;
    while i < n
        invariant
            n == belt_data@.len(),
            i <= n,
            belts_inside(belt_data@),
            forall|k: int| 0 <= k < i ==> !feeds_tile(tx as int, ty as int)(#[trigger] belt_data@[k]),
        decreases n - i,
    {
        let (pos, dir) = belt_data[i];
        let (odx, ody) = dir.offset();
        assert(i32::MIN < belt_data@[i as int].0.0 < i32::MAX);
        if pos.0 + odx == tx && pos.1 + ody == ty {
            proof {
                lemma_first_index_is(belt_data@, feeds_tile(tx as int, ty as int), i as int);
            }
            return true;
        }
        i = i + 1;
    }
    proof {
        lemma_first_index_none(belt_data@, feeds_tile(tx as int, ty as int));
    }
    false
}

/// The markers around a belt previewed on `(tx, ty)` that would point `dir`.
pub fn belt_preview_markers(
    tx: i32,
    ty: i32,
    producers: &Vec<(i32, i32)>,
    belt_data: &Vec<((i32, i32), Direction)>,
    dir: Direction,
) -> (r: Vec<(Direction, bool)>)
    requires
        i32::MIN < tx < i32::MAX,
        i32::MIN < ty < i32::MAX,
        belts_inside(belt_data@),
    ensures
        r@ == spec_preview_markers(tx as int, ty as int, producers@, belt_data@, dir),
{
    let fed = any_belt_feeds(tx, ty, belt_data);
    let sides = [Direction::East, Direction::North, Direction::West, Direction::South];
    let mut out: Vec<(Direction, bool)> = Vec::new();
    let ghost mut done: Seq<(Direction, bool)> = Seq::empty();
    let mut i: usize = 0;
    while i < 4
        invariant
            i <= 4,
            sides@ == seq![Direction::East, Direction::North, Direction::West, Direction::South],
            i32::MIN < tx < i32::MAX,
            i32::MIN < ty < i32::MAX,
            fed == (first_index(belt_data@, feeds_tile(tx as int, ty as int)) >= 0),
            out@ == (if i == 0 {
                Seq::empty()
            } else if i == 1 {
                side_marker(tx as int, ty as int, producers@, belt_data@, dir, Direction::East)
            } else if i == 2 {
                side_marker(tx as int, ty as int, producers@, belt_data@, dir, Direction::East) + side_marker(
                    tx as int,
                    ty as int,
                    producers@,
                    belt_data@,
                    dir,
                    Direction::North,
                )
            } else if i == 3 {
                side_marker(tx as int, ty as int, producers@, belt_data@, dir, Direction::East) + side_marker(
                    tx as int,
                    ty as int,
                    producers@,
                    belt_data@,
                    dir,
                    Direction::North,
                ) + side_marker(tx as int, ty as int, producers@, belt_data@, dir, Direction::West)
            } else {
                spec_preview_markers(tx as int, ty as int, producers@, belt_data@, dir)
            }),
        decreases 4 - i,
    {
        let d = sides[i];
        let (dx, dy) = d.offset();
        let input = tile_listed(producers, tx + dx, ty + dy) || fed;
        let ghost before = out@;
        if input || d == dir {
            out.push((d, input));
        }
        assert(out@ =~= before + side_marker(tx as int, ty as int, producers@, belt_data@, dir, d));
        i = i + 1;
    }
    out
}

/// Euclidean division of a tile coordinate into the chunk coordinate and the
/// position inside the chunk (what `div_euclid` and `rem_euclid` give).
pub fn chunk_of(tx: i32, chunk_size: i32) -> (r: (i32, i32))
    requires
        chunk_size > 0,
    ensures
        r.0 == (tx as int) / (chunk_size as int),
        r.1 == (tx as int) % (chunk_size as int),
        0 <= r.1 < chunk_size,
{
    let cs = chunk_size as u64;
    if tx >= 0 {
        let a = tx as u64;
        let q = a / cs;
        let m = a % cs;
        proof {
            vstd::arithmetic::div_mod::lemma_fundamental_div_mod(a as int, cs as int);
            vstd::arithmetic::div_mod::lemma_fundamental_div_mod_converse(
                tx as int,
                chunk_size as int,
                q as int,
                m as int,
            );
        }
        assert(q <= a) by (nonlinear_arith)
            requires
                q == a / cs,
                cs >= 1,
        ;
        (q as i32, m as i32)
    } else {
        let a = (-(tx as i64)) as u64;
        let q = a / cs;
        let m = a % cs;
        proof {
            vstd::arithmetic::div_mod::lemma_fundamental_div_mod(a as int, cs as int);
        }
        assert(q <= a) by (nonlinear_arith)
            requires
                q == a / cs,
                cs >= 1,
        ;
        assert(a == q * cs + m) by (nonlinear_arith)
            requires
                a == cs * (a / cs) + a % cs,
                q == a / cs,
                m == a % cs,
        ;
        if m == 0 {
            assert(tx == (-(q as int)) * chunk_size + 0) by (nonlinear_arith)
                requires
                    a == q * cs + m,
                    m == 0,
                    a == -tx,
                    cs == chunk_size,
            ;
            proof {
                vstd::arithmetic::div_mod::lemma_fundamental_div_mod_converse(
                    tx as int,
                    chunk_size as int,
                    -(q as int),
                    0,
                );
            }
            (-(q as i64) as i32, 0)
        } else {
            assert(q < a) by (nonlinear_arith)
                requires
                    a == q * cs + m,
                    m >= 1,
                    cs >= 1,
            ;
            assert(tx == (-(q as int) - 1) * chunk_size + (chunk_size - m)) by (nonlinear_arith)
                requires
                    a == q * cs + m,
                    a == -tx,
                    cs == chunk_size,
            ;
            proof {
                vstd::arithmetic::div_mod::lemma_fundamental_div_mod_converse(
                    tx as int,
                    chunk_size as int,
                    -(q as int) - 1,
                    chunk_size - m,
                );
            }
            ((-(q as i64) - 1) as i32, chunk_size - m as i32)
        }
    }
}


/// A cost list seen as `(resource, amount)` pairs.
pub open spec fn cost_view(c: Seq<Cost>) -> Seq<(Seq<char>, u32)> {
    c.map_values(|x: Cost| (x.resource@, x.amount))
}

/// Whether the inventory holds every cost item in the required amount.
pub fn can_afford(inv: &Inventory, cost: &Vec<Cost>) -> (r: bool)
    requires
        amounts_fit(inv@, cost_view(cost@)),
    ensures
        r == spec_inputs_available(inv@, cost_view(cost@)),
{
    let n = cost.len();
    let ghost cv = cost_view(cost@);
    let mut i: usize = 0;
    while i < n
        invariant
            n == cost@.len(),
            cv == cost_view(cost@),
            amounts_fit(inv@, cv),
            i <= n,
            forall|k: int| 0 <= k < i ==> amount_in(inv@, #[trigger] cv[k].0) >= cv[k].1,
        decreases n - i,
    {
        assert(cv[i as int].0 == cost@[i as int].resource@);
        if inv.get(&cost[i].resource) < cost[i].amount {
            return false;
        }
        i = i + 1;
    }
    true
}

/// Takes every cost item out of the inventory, in list order.
pub fn deduct_cost(inv: &mut Inventory, cost: &Vec<Cost>)
    ensures
        final(inv)@ == remove_all(old(inv)@, cost_view(cost@)),
        final(inv).spec_capacity() == old(inv).spec_capacity(),
{
    let ghost cv = cost_view(cost@);
    let ghost start = inv@;
    let n = cost.len();
    let mut i: usize = 0;
    while i < n
        invariant
            n == cost@.len(),
            cv == cost_view(cost@),
            i <= n,
            inv@ == remove_all(start, cv.take(i as int)),
            inv.spec_capacity() == old(inv).spec_capacity(),
            start == old(inv)@,
        decreases n - i,
    {
        assert(cv.take(i + 1).drop_last() =~= cv.take(i as int));
        inv.remove(&cost[i].resource, cost[i].amount);
        i = i + 1;
    }
    assert(cv.take(n as int) =~= cv);
}

/// The cost of `count` copies: every amount multiplied by `count`.
pub fn scale_cost(cost: &Vec<Cost>, count: u32) -> (r: Vec<Cost>)
    requires
        forall|k: int| 0 <= k < cost@.len() ==> (#[trigger] cost@[k]).amount * count <= u32::MAX,
    ensures
        r@.len() == cost@.len(),
        forall|k: int| 0 <= k < r@.len() ==> (#[trigger] r@[k]).resource@ == cost@[k].resource@
            && r@[k].amount == cost@[k].amount * count,
{
    let n = cost.len();
    let mut out: Vec<Cost> = Vec::new();
    let mut i: usize = 0;
    while i < n
        invariant
            n == cost@.len(),
            i <= n,
            out@.len() == i,
            forall|k: int| 0 <= k < cost@.len() ==> (#[trigger] cost@[k]).amount * count <= u32::MAX,
            forall|k: int| 0 <= k < i ==> (#[trigger] out@[k]).resource@ == cost@[k].resource@
                && out@[k].amount == cost@[k].amount * count,
        decreases n - i,
    {
        let c = &cost[i];
        assert(c.amount * count <= u32::MAX);
        out.push(Cost { resource: c.resource.duplicate(), amount: c.amount * count });
        i = i + 1;
    }
    out
}

/// The tiles of a finished drag, split into those that already hold a belt
/// (which get re-pointed) and the new ones, each with its direction. A
/// single-tile drag takes its direction from the neighbourhood; a longer one
/// keeps the direction along the line.
pub open spec fn spec_classify(
    line: Seq<(i32, i32, Direction)>,
    single: bool,
    producers: Seq<(i32, i32)>,
    belts: Seq<((i32, i32), Direction)>,
) -> (Seq<(i32, i32, Direction)>, Seq<(i32, i32, Direction)>)
    decreases line.len(),
{
    if line.len() == 0 {
        (Seq::empty(), Seq::empty())
    } else {
        let prev = spec_classify(line.drop_last(), single, producers, belts);
        let t = line.last();
        let dir = if single {
            spec_auto_direction(t.0 as int, t.1 as int, producers, belts, Direction::East)
        } else {
            t.2
        };
        if belt_at(belts, t.0 as int, t.1 as int) {
            (prev.0.push((t.0, t.1, dir)), prev.1)
        } else {
            (prev.0, prev.1.push((t.0, t.1, dir)))
        }
    }
}

pub open spec fn belt_at(belts: Seq<((i32, i32), Direction)>, x: int, y: int) -> bool {
    exists|k: int| 0 <= k < belts.len() && belts[k].0.0 == x && belts[k].0.1 == y
}

fn has_belt_at(belts: &Vec<((i32, i32), Direction)>, x: i32, y: i32) -> (r: bool)
    ensures
        r == belt_at(belts@, x as int, y as int),
{
    let n = belts.len();
    let mut i: usize = 0;
    while i < n
        invariant
            n == belts@.len(),
            i <= n,
            forall|k: int| 0 <= k < i ==> !(belts@[k].0.0 == x && belts@[k].0.1 == y),
        decreases n - i,
    {
        if belts[i].0.0 == x && belts[i].0.1 == y {
            return true;
        }
        i = i + 1;
    }
    false
}

/// Splits a finished drag line into re-pointed existing belts and new belts.
pub fn classify_drag_tiles(
    line: &Vec<(i32, i32, Direction)>,
    producers: &Vec<(i32, i32)>,
    belt_data: &Vec<((i32, i32), Direction)>,
) -> (r: (Vec<(i32, i32, Direction)>, Vec<(i32, i32, Direction)>))
    requires
        line@.len() == 1 ==> i32::MIN < line@[0].0 < i32::MAX && i32::MIN < line@[0].1 < i32::MAX,
        belts_inside(belt_data@),
    ensures
        (r.0@, r.1@) == spec_classify(line@, line@.len() == 1, producers@, belt_data@),
{
    let n = line.len();
    let single = n == 1;
    let mut existing: Vec<(i32, i32, Direction)> = Vec::new();
    let mut new_tiles: Vec<(i32, i32, Direction)> = Vec::new();
    let mut i: usize = 0;
    while i < n
        invariant
            n == line@.len(),
            single == (n == 1),
            n == 1 ==> i32::MIN < line@[0].0 < i32::MAX && i32::MIN < line@[0].1 < i32::MAX,
            belts_inside(belt_data@),
            i <= n,
            (existing@, new_tiles@) == spec_classify(line@.take(i as int), single, producers@, belt_data@),
        decreases n - i,
    {
        assert(line@.take(i + 1).drop_last() =~= line@.take(i as int));
        let (bx, by, base_dir) = line[i];
        let dir = if single {
            auto_detect_direction_from_data(bx, by, producers, belt_data, Direction::East)
        } else {
            base_dir
        };
        if has_belt_at(belt_data, bx, by) {
            existing.push((bx, by, dir));
        } else {
            new_tiles.push((bx, by, dir));
        }
        i = i + 1;
    }
    assert(line@.take(n as int) =~= line@);
    (existing, new_tiles)
}

/// Every tile of a drag ends up in exactly one of the two lists.
pub proof fn law_classify_partitions(
    line: Seq<(i32, i32, Direction)>,
    single: bool,
    producers: Seq<(i32, i32)>,
    belts: Seq<((i32, i32), Direction)>,
)
    ensures
        spec_classify(line, single, producers, belts).0.len() + spec_classify(line, single, producers, belts).1.len()
            == line.len(),
    decreases line.len(),
{
    if line.len() > 0 {
        law_classify_partitions(line.drop_last(), single, producers, belts);
    }
}

/// What a click in build mode does with a building that is placed by single click.
#[derive(Debug, Clone, PartialEq, Eq)]
pub enum BuildPlan {
    /// A miner on a deposit; it runs the `mine_<resource>` recipe.
    Miner { recipe: String },
    /// A machine that starts with its default recipe.
    Assembler { recipe: String },
    Turret,
    Storage,
    Farm,
    Archive,
    Plain,
}

/// The outcome of a build click.
#[derive(Debug, Clone, PartialEq, Eq)]
pub enum BuildClick {
    /// Belts and drag-placed buildings are handled by the drag logic.
    LeftToDrag,
    /// Nothing is built; the message is shown to the player.
    Refused(String),
    Place(BuildPlan),
}

/// Whether `r` is what a build click gives: belts and drag-placed buildings are
/// left to the drag logic; a building that needs a deposit is refused without
/// one or on occupied tiles, and becomes a miner of the deposit's resource;
/// any other building is refused on occupied tiles, starts its default recipe
/// when it has one, and otherwise is set up by its kind.
pub open spec fn is_build_click(
    r: BuildClick,
    drag_placed: bool,
    requires_deposit: bool,
    deposit_here: Option<Seq<char>>,
    footprint_free: bool,
    default_recipe: Option<Seq<char>>,
    kind: Seq<char>,
) -> bool {
    if drag_placed {
        r == BuildClick::LeftToDrag
    } else if requires_deposit {
        match deposit_here {
            None => r matches BuildClick::Refused(m) && m@ == "No resource deposit here"@,
            Some(res) => if !footprint_free {
                r matches BuildClick::Refused(m) && m@ == "Tile already occupied"@
            } else {
                r matches BuildClick::Place(BuildPlan::Miner { recipe }) && recipe@ == "mine_"@ + res
            },
        }
    } else if !footprint_free {
        r matches BuildClick::Refused(m) && m@ == "Tile occupied"@
    } else {
        match default_recipe {
            Some(d) => r matches BuildClick::Place(BuildPlan::Assembler { recipe }) && recipe@ == d,
            None => if kind == "turret"@ {
                r == BuildClick::Place(BuildPlan::Turret)
            } else if kind == "storage"@ {
                r == BuildClick::Place(BuildPlan::Storage)
            } else if kind == "farm"@ {
                r == BuildClick::Place(BuildPlan::Farm)
            } else if kind == "archive"@ {
                r == BuildClick::Place(BuildPlan::Archive)
            } else {
                r == BuildClick::Place(BuildPlan::Plain)
            },
        }
    }
}

/// Decides what a build click on a tile does.
pub fn decide_build_click(
    drag_placed: bool,
    requires_deposit: bool,
    deposit_here: Option<&str>,
    footprint_free: bool,
    default_recipe: Option<&str>,
    kind: &str,
) -> (r: BuildClick)
    ensures
        is_build_click(
            r,
            drag_placed,
            requires_deposit,
            match deposit_here {
                Some(d) => Some(d@),
                None => None,
            },
            footprint_free,
            match default_recipe {
                Some(d) => Some(d@),
                None => None,
            },
            kind@,
        ),
{
    if drag_placed {
        return BuildClick::LeftToDrag;
    }
    if requires_deposit {
        let res = match deposit_here {
            None => return BuildClick::Refused(owned("No resource deposit here")),
            Some(res) => res,
        };
        if !footprint_free {
            return BuildClick::Refused(owned("Tile already occupied"));
        }
        let mut recipe = owned("mine_");
        push_str(&mut recipe, res);
        return BuildClick::Place(BuildPlan::Miner { recipe });
    }
    if !footprint_free {
        return BuildClick::Refused(owned("Tile occupied"));
    }
    if let Some(d) = default_recipe {
        return BuildClick::Place(BuildPlan::Assembler { recipe: owned(d) });
    }
    if str_equal(kind, "turret") {
        BuildClick::Place(BuildPlan::Turret)
    } else if str_equal(kind, "storage") {
        BuildClick::Place(BuildPlan::Storage)
    } else if str_equal(kind, "farm") {
        BuildClick::Place(BuildPlan::Farm)
    } else if str_equal(kind, "archive") {
        BuildClick::Place(BuildPlan::Archive)
    } else {
        BuildClick::Place(BuildPlan::Plain)
    }
}

/// The belt a rotation turns: the first belt on the hovered tile, if any
/// (otherwise the direction of the next belt placed turns).
pub fn rotate_target(hovered: Option<(i32, i32)>, belts: &Vec<(i32, i32)>) -> (r: Option<usize>)
    ensures
        match hovered {
            None => r is None,
            Some(h) => match r {
                Some(i) => i < belts@.len() && belts@[i as int] == h && forall|k: int| 0 <= k < i ==> #[trigger] belts@[k] != h,
                None => forall|k: int| 0 <= k < belts@.len() ==> #[trigger] belts@[k] != h,
            },
        },
{
    let h = match hovered {
        None => return None,
        Some(h) => h,
    };
    let mut i: usize = 0;
    while i < belts.len()
        invariant
            i <= belts@.len(),
            hovered == Some(h),
            forall|k: int| 0 <= k < i ==> #[trigger] belts@[k] != h,
        decreases belts@.len() - i,
    {
        if belts[i].0 == h.0 && belts[i].1 == h.1 {
            return Some(i);
        }
        i = i + 1;
    }
    None
}

/// One step of an area deconstruction drag: a press starts it on the tile
/// under the cursor when none is under way; a release ends it and yields the
/// area from its start to that tile. Returns the new start and the area.
pub fn deconstruct_drag_step(
    start: Option<(i32, i32)>,
    pressed: bool,
    released: bool,
    tile: (i32, i32),
) -> (r: (Option<(i32, i32)>, Option<((i32, i32), (i32, i32))>))
    ensures
        pressed && start is None ==> r == (Some(tile), None::<((i32, i32), (i32, i32))>),
        !(pressed && start is None) && released ==> r == (None::<(i32, i32)>, match start {
            Some(s) => Some((s, tile)),
            None => None,
        }),
        !(pressed && start is None) && !released ==> r == (start, None::<((i32, i32), (i32, i32))>),
{
    if pressed && start.is_none() {
        return (Some(tile), None);
    }
    if released {
        return match start {
            Some(s) => (None, Some((s, tile))),
            None => (None, None),
        };
    }
    (start, None)
}

} // verus!
