//! The rules of a render: the seed of each column, and the moments at
//! which progress is reported.

use vstd::prelude::*;

verus! {

/// The seed of the first column's generator.
pub const BASE_SEED: u64 = 95;

/// The number of finished rows between two snapshots of the image.
pub const SNAPSHOT_ROWS: u32 = 10;

/// The seed of the generator that renders a column. Each column has its own,
/// so that a column comes out the same whenever and wherever it is rendered.
pub fn column_seed(column: u32) -> (seed: u64)
    ensures
        seed == BASE_SEED + column,
{
    BASE_SEED + column as u64
}

/// Different columns have different seeds.
pub proof fn lemma_column_seeds_differ(a: u32, b: u32)
    requires
        a != b,
    ensures
        BASE_SEED + a != BASE_SEED + b,
{
}

/// The number of rows' worth of pixels that have come in, where this is the
/// moment for a progress report and a snapshot.
pub open spec fn spec_checkpoint(received: u32, width: u32) -> Option<u32> {
    if received as int % (width * SNAPSHOT_ROWS) == 0 {
        Some((received as int / width as int) as u32)
    } else {
        None
    }
}

/// Decides, after the `received`-th pixel has come in, whether progress is
/// reported and a snapshot of the image saved: every time another ten rows'
/// worth of pixels is complete. The answer holds the number of rows' worth
/// received so far.
pub fn checkpoint(received: u32, width: u32) -> (rows: Option<u32>)
    requires
        0 < width,
        width * SNAPSHOT_ROWS <= u32::MAX,
    ensures
        rows == spec_checkpoint(received, width),
{
    if received % (width * SNAPSHOT_ROWS) == 0 {
        Some(received / width)
    } else {
        None
    }
}

} // verus!
