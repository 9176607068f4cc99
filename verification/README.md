# backdrop_render

Renders encoded vector scenes, with true backdrop blur, into recordings of GPU
commands. A backdrop blurs what was painted before it: a scene is cut at its
backdrops and rendered in segments where its layers allow that, and rendered as
a whole with its prefixes otherwise.

- `src/` is the library. Everything in it is verified with Verus, against
  specifications of the packed scenes, the layers, the segments and the commands.
  The modules whose names end in `_laws` state what holds of all scenes.
- `tests/` holds tests on concrete values.
- `app/` holds the geometry of backdrops, which is in floating point, and logging.

What the library takes from `vello_encoding`, `peniko` and `bytemuck` without
proof stands in functions marked `#[verifier::external_body]`. Each says in its
comment which outside function it calls and what it claims of it.
