# engvis

Discrete core of an engineering-visualisation toolkit for implicit surfaces
and triangle meshes, verified with Verus.

`src/` holds the logic whose behaviour is stated in contracts and proved:

* `surface`, `tpms`: surface catalogue, TPMS families, names, labels and
  formula descriptions.
* `connectivity`, `union_find`, `adjacency`, `topology`: edge occurrences,
  incidences, face connectivity, a disjoint-set forest with parities, and the
  topology report (V, E, F, Euler characteristic, boundary and non-manifold
  edges, components, watertightness).
* `winding`: consistent re-orientation of triangles, component numbering and
  the invariance of topology under flips.
* `edges`, `boundary`, `dedup`, `clip`, `patterns`: line lists, open
  boundaries, vertex de-duplication, clipping bookkeeping and index patterns.
* `mc_tables`, `marching_cubes`, `marching_squares`, `grid`: case tables and
  per-cell decisions of marching cubes (MC33) and marching squares, and
  sample-grid indexing.
* `mesh_format`, `selection`, `pipeline`, `wireframe`: format detection and
  small value types.

`app/` is the command-line front end: file I/O (OBJ, STL, PLY), geometry in
floating point, and implicit-function evaluation with fidget.
