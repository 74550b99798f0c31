# lunar_lander

Verified game logic of a small 3D lunar-lander game built on Bevy.

- `src/` is the library, verified with Verus: the chase camera (`camera`),
  the terrain layout (`midpoint`, `valleys`, `regions`, `landing`), touchdown
  checks (`touchdown`), pilot controls and the module's initial drift
  (`rocket`), mesh index buffers (`mesh`), and the one call into `rand`
  (`random`).
- `app/` is the game itself: the Bevy systems and plugins, and the
  floating-point arithmetic (noise, rotations, height averaging) that the
  library leaves to it. Camera coordinates cross over in thousandths of a
  unit; terrain heights cross over as order keys, integers that compare and
  repeat exactly as the heights do.
- `tests/` exercises the library on concrete values.
