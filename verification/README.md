# gallsh

A picture browser for the desktop: it shows the pictures of a directory (or of a reading
list, or one file) one at a time or in a grid, lets the user move through them, select,
rank and label them, and copies, moves or deletes the files chosen when it quits.

The library under `src/` holds the browser's logic, verified with Verus:

- `navigator`: pages of cells over a list, moves between cells and pages;
- `repository`: the browsing state (selection ranges, labels, the index being typed,
  search) and how the options set it up;
- `entries`: a simpler browsing state over a list, with its own orders;
- `sorting`: the keys of each order and a stable sort;
- `paths`: thumbnail, data file and directory names;
- `picture_io`: which files become pictures, reading lists, samples, palettes, the
  copies and deletions to make, the upkeep of thumbnails, and the checks of target
  directories;
- `args`, `display`, `entry`, `image`, `image_data`, `order`, `rank`, `direction`, `text`;
- `external`: the calls into `rand`, `regex`, `clap_num`, `thumbnailer` (thumbnails made
  from a picture's bytes) and `image` (pixels decoded from a picture's bytes), with the
  contracts they are trusted to meet.

`app/` is the program around it: the command line (clap), the files on disk (reading
pictures, writing thumbnails), palette extraction (palette_extract, which panics on pixel data it
cannot describe), data files (serde_json) and the GTK window.
