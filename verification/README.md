# picr

A viewer for FITS astronomy images that lets you browse a folder of
exposures and cull the bad ones.

- `src/` is the verified library (Verus):
  - `imgproc` — 8-bit grayscale images, the median of their pixels (which
    depends only on the multiset of values) and the application of the
    autostretch's transfer table to the pixels;
  - `file` — FITS header display, the metadata of a file, the samples and
    value range of integer data, the resize of a preview (through
    `image::imageops::resize`), and the checks and ordering used when
    loading files;
  - `sort` — a stable insertion sort by key, proved against a permutation;
  - `text` — decimal text of integers and the byte order of strings;
  - `ui` — the viewer state (selection, culled marks, options window) and
    the texts it shows;
  - `process` — the status of the background work that moves culled files.
- `app/` is the egui/eframe program: windows, file dialogs, reading FITS
  files with `fitrs`, textures, the worker thread, and the `f32` arithmetic
  (mean, standard deviation and transfer curve of the stretch, the spread of
  values over gray levels, the preview height, the fit of the image).
- `tests/` exercise the library on concrete values.
