# ldconvert

LUT-Diffuse Converter: builds an error-diffused lookup table (LUT) from a
colour palette and converts images into that palette. Colour calculations are
done in the Oklab colour space.

Layout:

- `src/` is the verified library, generic over the colour type:
  - `lattice`: the blue-major layout of the cubic lattice and its index lemmas;
  - `kernel`: the three-dimensional minimized-average-error kernel (its weights
    add up to the 108 parts of the error, and all of them point forward in scan
    order) and the cells each cell diffuses its error to;
  - `quantize`: the nearest-palette-entry rule (entry 0 is skipped);
  - `diffusion`: what quantization with error diffusion computes;
  - `lookup`: the lookup table (create, populate, discretize, look up, nested
    layout for saving and loading);
  - `convimage`: converting an image through a table.
- `app/` is the command-line program: argument handling, image and LUT file
  I/O, and the floating-point colour arithmetic, handed to the library as
  closures.
- `tests/` runs the library on integer colours.
