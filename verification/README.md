# driftwm

The decisions of a compositor with an infinite canvas: which elements make up a
frame, what lies behind a frosted window and when it is captured again, which
tiles of a background pyramid are loaded, which output a window belongs to, what
has the keyboard, what a state file says.

Everything in `src/` is verified with Verus. A function's `requires` and
`ensures` say what it does; the public `law_…` proof functions state what holds
between functions.

- `geometry`, `region`, `names`, `text`: points and rectangles, sets of pixels,
  maps by name, characters.
- `frame`, `stage`, `outline`, `chrome`, `elements`: composing a frame, stacking,
  window outlines, damage and opaque regions.
- `blur`: backdrops, their caches, and the steps of a window's blur.
- `tiles`: the chunk grid, its cache and its decoder queue.
- `capture`: screen capture requests and the state kept for them.
- `help`: the card that lists the key bindings.
- `snap`: snapping of dragged windows and edges.
- `state`: outputs, focus, layers, the session lock, persistence, reloading.

`tests/` runs the library on concrete values. `app/` is the code around it: the
frame, capture and reload loops, floating-point geometry, GPU passes, files,
threads and child processes. It asks the library and carries out the answer.

GPU objects are type parameters, so nothing in `src/` depends on a renderer.
Identities are `u64`, times are nanoseconds, and quantities in floating point
come in as flags, as comparable bits or as text.
