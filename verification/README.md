# rtlauncher

The logic of a Minecraft launcher as a Verus library, with a small program
around it.

- `src/` is the verified library. It decides which Java executable runs the
  game, builds the game's command line and classpath, computes the paths of
  the game directory, lists and merges Java installations, reads natives
  archives with the `zip` crate and plans how they are unpacked. Every public
  function states its result in its `ensures`; the laws that span functions
  are public proof functions.
- `app/main.rs` is the program: it reads the environment, walks directories,
  resolves paths on disk, runs `java -version` and the game, writes the batch
  file, reads archives from disk and writes what the unpacking plan says,
  handing the library plain values and doing what it decides.
- `tests/` runs the library on concrete values.
