# raytracer

A small path tracer ("Ray Tracing: The Next Week" style) split in two.

- `src/` is the verified library (Verus). It holds the parts of the
  renderer that compute on integers:
  - `sections`: the rows of the image each render thread works on, with a
    proof that the nine row ranges tile the image;
  - `perlin`: the permutation tables of the Perlin noise generator
    (Fisher-Yates shuffles of `0..256`, proved to be permutations) and the
    lattice hash that picks a gradient for each lattice point;
  - `bvh`: the layout of a bounding-volume hierarchy over integer sort keys,
    with a verified insertion sort;
  - `hittable_list`: the scene's object list;
  - `random`: random integers in a range, drawn through `rand`: a uniform
    real between `min` and `max + 1` truncated toward zero. The two exact
    end points of the real draw (probability about 2^-53 each, giving
    `max + 1` for `min = 0`) are deliberately never produced, since they
    would index past the permutation tables and the three axes;
  - `tool_func`, `mod_vec3`: a vector copy and the cross-product interface.
- `app/` is the program around it: vectors, rays, shapes, materials,
  textures, the camera and the threaded render loop, which compute in
  floating point, and the progress display and image output.
- `tests/` exercises the library on concrete values.
