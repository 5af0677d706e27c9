# stl_blueprint

Turns a 3D model into a ship blueprint made of armor blocks.

The model is sampled on a cubic grid: for every cell, each of twenty
reference points (the corners and edge midpoints of the cell) is marked when
it lies close to the model. The library then

1. places in every cell the first block of the catalog (largest first) whose
   shape, in one of its twenty-four orientations, covers exactly the marked
   points;
2. runs a fill pass, which puts blocks into empty cells where the vertices of
   neighboring blocks outline a shape, and a replacing pass, which may also
   replace blocks from step 1;
3. writes the blueprint XML document.

All geometry in the library is on an integer lattice, and every step is
verified with Verus against a specification (`src/`). The desktop front end
(`app/`) reads the STL file, samples it with parry3d, and writes the file.

Modules: `geometry` (points, directions, rotations), `blocks` (block shapes
and orientation matching), `grid` (the block grid and neighbor hits),
`subsets` (combinations of hit points), `assembly` (sampling grid and
smoothing passes), `text` and `blueprint` (document text), `catalog` (the
armor block shapes), `pipeline` (the whole conversion), `laws` (properties
proved of the above).
