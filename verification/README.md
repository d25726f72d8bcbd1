# repame

Building blocks for 2D and voxel games, verified with Verus: texture atlases,
sprite-strip animation, input actions and key maps, sound, fixed-step
simulation, effect timers, collision, physics bookkeeping and viewports.

## Layout

- `src/` is the library. Executable functions state in their contracts what
  they return or change, and Verus proves it, but for the few calls into
  other crates that are listed below as trusted.
  - `atlas` packs rectangles on shelves and hands out pages and pixels.
  - `anim` reads strip catalogs and plays strips.
  - `input` binds keys, buttons and axes to actions, and keeps their levels
    and edges per tick; key maps are written to and read from text.
  - `audio` chooses and mixes voices: buses, cues, music with stems, rigs,
    file signatures, and the table of voices on the audio thread.
  - `sim` turns wall time into fixed steps.
  - `fx` has flashes, shakes, transitions, gradients, particle budgets and
    lives.
  - `physics` finds the cell that stops a box; `bodies`, `rapier2d` and
    `rapier3d` keep track of bodies, joints and collision groups.
  - `shell` stages platform input between frames, and plans saves.
  - `sprite` decides what a viewport uploads, draws and reports.
  - `actors` decides how a rig surface is drawn.
  - `scalar` carries single-precision numbers by their bits and compares
    them; `text`, `names` and `lists` hold what the other modules share.
- `app/` is ordinary Rust around the library: floating-point arithmetic,
  entity systems, decoders, files, windows, audio devices and the GPU.
- `tests/` runs the library, with the outside crates linked.

## Numbers

The library carries floats and compares them, and never computes with them.
Where a step depends on a sum or a product, it takes that result as an
argument and decides what follows from it; `app/` computes it.

## What is trusted

Calls into other crates stand behind functions whose contracts are believed:
reading key position names (`input::keys`), sending commands to the audio
thread (`audio::command`), collision groups (`rapier2d`, `rapier3d`), feeding
a hasher (`input::binding`), sharing a sound, and `String::push`. Each says
above its declaration what is claimed of the code behind it.
