//! Terrain: chunk coordinates, the region an instance lives in, and the
//! provisioning of that region from the outcomes of chunk loads.

use vstd::prelude::*;

verus! {

/// The X and Z position of a chunk in a world.
#[derive(Clone, Copy, Debug, PartialEq, Eq, Structural)]
pub struct ChunkPos {
    pub x: i32,
    pub z: i32,
}

/// The position of a block in a world.
#[derive(Clone, Copy, Debug, PartialEq, Eq, Structural)]
pub struct BlockPos {
    pub x: i32,
    pub y: i32,
    pub z: i32,
}

/// The block on which every player enters an instance.
pub fn start_pos() -> (pos: BlockPos)
    ensures
        pos == (BlockPos { x: 0, y: 65, z: 0 }),
{
    BlockPos { x: 0, y: 65, z: 0 }
}

/// The distance, in chunks, that an instance's terrain reaches from its origin.
pub const VIEW_DISTANCE: u8 = 3;

/// What a chunk source answers for one coordinate.
#[derive(Debug)]
pub enum ChunkLoad<T> {
    /// The chunk is there, with its terrain data.
    Present(T),
    /// The backing store holds no chunk at the coordinate.
    Absent,
    /// The chunk could not be read or decoded.
    Error,
}

/// A chunk of terrain in place.
#[derive(Debug)]
pub struct Chunk<T> {
    pub pos: ChunkPos,
    pub data: T,
}

/// The side of the square of radius `radius`.
pub open spec fn region_width(radius: u8) -> int {
    2 * radius + 1
}

/// The `k`-th coordinate of the square region of radius `radius` around
/// `origin`: rows of constant `z`, in ascending `z`, each in ascending `x`.
pub open spec fn region_cell(origin: ChunkPos, radius: u8, k: int) -> ChunkPos {
    ChunkPos {
        x: (origin.x - radius + k % region_width(radius)) as i32,
        z: (origin.z - radius + k / region_width(radius)) as i32,
    }
}

/// Every chunk coordinate within `radius` of `origin` on both axes.
pub open spec fn region(origin: ChunkPos, radius: u8) -> Seq<ChunkPos> {
    Seq::new(
        (region_width(radius) * region_width(radius)) as nat,
        |k: int| region_cell(origin, radius, k),
    )
}

/// Whether the square of radius `radius` around `origin` stays within the
/// coordinates that an `i32` can hold.
pub open spec fn region_fits(origin: ChunkPos, radius: u8) -> bool {
    &&& i32::MIN <= origin.x - radius
    &&& origin.x + radius <= i32::MAX
    &&& i32::MIN <= origin.z - radius
    &&& origin.z + radius <= i32::MAX
}

/// Lists the square region of radius `radius` around `origin`.
pub fn home_region(origin: ChunkPos, radius: u8) -> (cells: Vec<ChunkPos>)
    requires
        region_fits(origin, radius),
    ensures
        cells@ == region(origin, radius),
{
    let width: usize = 2 * (radius as usize) + 1;
    let low_x: i32 = origin.x - radius as i32;
    let low_z: i32 = origin.z - radius as i32;
    let mut cells: Vec<ChunkPos> = Vec::new();
    let mut row: usize = 0;
    while row < width
        invariant
            row <= width,
            width == region_width(radius),
            low_x == origin.x - radius,
            low_z == origin.z - radius,
            region_fits(origin, radius),
            cells@.len() == row * width,
            forall|k: int| 0 <= k < cells@.len() ==> cells@[k] == region_cell(origin, radius, k),
        decreases width - row,
    {
        let mut col: usize = 0;
        while col < width
            invariant
                col <= width,
                row < width,
                width == region_width(radius),
                low_x == origin.x - radius,
                low_z == origin.z - radius,
                region_fits(origin, radius),
                cells@.len() == row * width + col,
                forall|k: int|
                    0 <= k < cells@.len() ==> cells@[k] == region_cell(origin, radius, k),
            decreases width - col,
        {
            proof {
                vstd::arithmetic::div_mod::lemma_fundamental_div_mod_converse(
                    row * width + col,
                    width as int,
                    row as int,
                    col as int,
                );
            }
            let x: i32 = low_x + col as i32;
            let z: i32 = low_z + row as i32;
            cells.push(ChunkPos { x, z });
            col += 1;
        }
        proof {
            assert((row + 1) * width == row * width + width) by (nonlinear_arith);
        }
        row += 1;
    }
    proof {
        assert(cells@ =~= region(origin, radius));
    }
    cells
}

/// The number of coordinates that have a load: the shorter of the two lengths.
pub open spec fn paired<T>(region: Seq<ChunkPos>, loads: Seq<ChunkLoad<T>>) -> nat {
    if region.len() <= loads.len() {
        region.len()
    } else {
        loads.len()
    }
}

/// The chunks that the first `n` loads put in place: each present load becomes
/// a chunk at the coordinate it was asked for, in the order of the region; an
/// absent chunk and a failed load leave a gap.
pub open spec fn applied_chunks<T>(
    region: Seq<ChunkPos>,
    loads: Seq<ChunkLoad<T>>,
    n: nat,
) -> Seq<Chunk<T>>
    recommends
        n <= region.len(),
        n <= loads.len(),
    decreases n,
{
    if n == 0 {
        Seq::empty()
    } else {
        let before = applied_chunks(region, loads, (n - 1) as nat);
        match loads[n - 1] {
            ChunkLoad::Present(data) => before.push(Chunk { pos: region[n - 1], data }),
            _ => before,
        }
    }
}

/// The number of present loads among the first `n`.
pub open spec fn present_count<T>(loads: Seq<ChunkLoad<T>>, n: nat) -> nat
    recommends
        n <= loads.len(),
    decreases n,
{
    if n == 0 {
        0
    } else if loads[n - 1] is Present {
        present_count(loads, (n - 1) as nat) + 1
    } else {
        present_count(loads, (n - 1) as nat)
    }
}

/// Provisioning puts in place exactly as many chunks as there are present
/// loads, however many loads are absent or failed.
pub proof fn lemma_applied_count<T>(region: Seq<ChunkPos>, loads: Seq<ChunkLoad<T>>, n: nat)
    ensures
        applied_chunks(region, loads, n).len() == present_count(loads, n),
    decreases n,
{
    if n > 0 {
        lemma_applied_count(region, loads, (n - 1) as nat);
    }
}

/// The same items in the opposite order.
pub fn reversed<T>(items: Vec<T>) -> (back: Vec<T>)
    ensures
        back@ == items@.reverse(),
{
    let mut items = items;
    let ghost given = items@;
    let mut back: Vec<T> = Vec::new();
    while items.len() > 0
        invariant
            items@ == given.take(items@.len() as int),
            items@.len() <= given.len(),
            back@.len() + items@.len() == given.len(),
            forall|j: int| 0 <= j < back@.len() ==> back@[j] == given[given.len() - 1 - j],
        decreases items@.len(),
    {
        match items.pop() {
            Some(item) => {
                back.push(item);
            },
            None => {},
        }
    }
    proof {
        assert(back@ =~= given.reverse());
    }
    back
}

/// Puts the loaded chunks of a region in place. `loads` holds one outcome per
/// coordinate of `region`, in the region's order. A coordinate whose chunk is
/// absent or failed to load is skipped, and the rest of the region is still
/// provisioned; a coordinate without an outcome is left out.
pub fn populate<T>(chunks: &mut Vec<Chunk<T>>, region: &Vec<ChunkPos>, loads: Vec<ChunkLoad<T>>)
    ensures
        final(chunks)@ == old(chunks)@ + applied_chunks(
            region@,
            loads@,
            paired(region@, loads@),
        ),
        final(chunks)@.len() == old(chunks)@.len() + present_count(
            loads@,
            paired(region@, loads@),
        ),
{
    let ghost given = loads@;
    let ghost start = chunks@;
    let total: usize = loads.len();
    let count: usize = if region.len() <= total {
        region.len()
    } else {
        total
    };
    let mut pending: Vec<ChunkLoad<T>> = reversed(loads);
    let mut i: usize = 0;
    while i < count
        invariant
            i <= count,
            count == paired(region@, given),
            total == given.len(),
            pending@ == given.reverse().take(total - i),
            chunks@ == start + applied_chunks(region@, given, i as nat),
        decreases count - i,
    {
        let pos = region[i];
        match pending.pop() {
            Some(ChunkLoad::Present(data)) => {
                chunks.push(Chunk { pos, data });
            },
            _ => {},
        }
        proof {
            assert(given.reverse()[total - i - 1] == given[i as int]);
            assert(pending@ =~= given.reverse().take(total - i - 1));
            assert(chunks@ =~= start + applied_chunks(region@, given, (i + 1) as nat));
        }
        i += 1;
    }
    proof {
        lemma_applied_count(region@, given, count as nat);
    }
}

} // verus!
