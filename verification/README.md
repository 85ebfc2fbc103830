# RailWeave

RailWeave converts railway routes and rolling stock between simulator formats:
it recognises a source (MSTS/Open Rails, BVE/OpenBVE, Trainz, RailWorks,
Loksim3D, GeoJSON, track CSV, RailWeave JSON), imports it into a
simulator-neutral model, composes inputs from several sources, and writes
OpenBVE routes and packages.

## Layout

- `src/` is the library, written and proved with Verus. Every public function
  states its result in its contract, and the laws that span several functions
  are public proof functions named `law_*`:
  - `detect`, `scan`, `paths`, `order`: format detection over a bounded listing
    of a source tree, and the files each importer picks, in path order;
  - `trainz`, `stf`, `msts`, `pat`, `tdb`, `consist`, `bve`, `track_csv`:
    the text formats (Trainz ACS text, MSTS STF tokens, path and track
    databases, consists, BVE commands, track CSV tables);
  - `importer`: which importer a source gets (portable files given as the
    source, discovered adapters), and the errors and notes of bridges and
    external adapters;
  - `compose`: cross-source composition with fresh entity ids, keeping the
    vehicle and consist references of the merged assets;
  - `route`, `openbve`, `report`: driveable path selection, gauge and train
    rules, package names, and the text a user reads;
  - `model`, `text`, `keymap`, `decode`: the shared model and helpers.
- `app/` is the command-line program: file and process I/O, the JSON/TOML
  model with its serde derives, and the floating-point geometry and train
  figures. It calls the library for every decision that does not rest on
  floating point.
- `tests/` runs the library on concrete inputs.
