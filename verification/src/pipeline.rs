use vstd::prelude::*;

use crate::assembly::{
    blocks_view, mesh_grid, mesh_to_blocks, samples_cover, samples_view, smooth_block_grid,
    smoothed,
};
use crate::blueprint::{blueprint_document, blueprint_spec, grid_defs};
use crate::catalog::{standard_blocks, standard_blocks_spec};
use crate::grid::{grid_view, is_cube, GridView};

verus! {

/// The result of a conversion: the blueprint document and the number of
/// blocks each of the two smoothing passes added.
pub struct Conversion {
    pub document: String,
    pub filled: usize,
    pub replaced: usize,
}

/// The grid after sampling, the fill pass (which keeps occupied cells) and
/// the replacing pass (which may replace blocks not placed by smoothing),
/// with the numbers of blocks the two passes placed.
pub open spec fn converted_grid(samples: Seq<Seq<Seq<Seq<bool>>>>, n: nat, large_grid: bool) -> (
    GridView,
    nat,
    nat,
) {
    let blocks = standard_blocks_spec();
    let g0 = mesh_grid(blocks, samples, n, large_grid);
    let (g1, c1) = smoothed(g0, blocks, n, large_grid, false);
    let (g2, c2) = smoothed(g1, blocks, n, large_grid, true);
    (g2, c1, c2)
}

pub proof fn lemma_mesh_grid_cube(
    blocks: Seq<crate::blocks::CubeBlockView>,
    samples: Seq<Seq<Seq<Seq<bool>>>>,
    n: nat,
    large: bool,
)
    ensures
        is_cube(mesh_grid(blocks, samples, n, large), n),
        crate::grid::covers(mesh_grid(blocks, samples, n, large), n),
{
}

/// Converts per-cell samples of a model (`samples[x][y][z][i]` tells whether
/// reference point `i` of cell `(x, y, z)` is close to the model) into a
/// blueprint: places the first fitting catalog block in each cell, runs a
/// fill pass and then a replacing pass over the catalog, and writes the
/// document.
pub fn convert_samples_to_blueprint(
    blocksize: usize,
    large_grid: bool,
    samples: &Vec<Vec<Vec<[bool; 20]>>>,
) -> (r: Conversion)
    requires
        samples_cover(samples_view(samples), blocksize as nat),
        23 * (blocksize * (blocksize * blocksize)) <= usize::MAX,
    ensures
        ({
            let (g, c1, c2) = converted_grid(samples_view(samples), blocksize as nat, large_grid);
            &&& r.document@ == blueprint_spec(grid_defs(g), large_grid)
            &&& r.filled == c1
            &&& r.replaced == c2
        }),
{
    let all_blocks = standard_blocks();
    proof {
        crate::catalog::lemma_sorted_len(crate::catalog::catalog_spec());
        assert(all_blocks@.len() == blocks_view(all_blocks@).len());
    }
    let mut grid = mesh_to_blocks(blocksize, large_grid, samples, &all_blocks);
    proof {
        lemma_mesh_grid_cube(blocks_view(all_blocks@), samples_view(samples), blocksize as nat, large_grid);
    }
    let ghost g0 = grid_view(&grid);
    let filled = smooth_block_grid(blocksize, large_grid, &all_blocks, &mut grid, false);
    proof {
        crate::assembly::lemma_same_shape_covers(grid_view(&grid), g0, blocksize as nat);
    }
    let replaced = smooth_block_grid(blocksize, large_grid, &all_blocks, &mut grid, true);
    let document = blueprint_document(&grid, large_grid);
    Conversion { document, filled, replaced }
}

} // verus!
