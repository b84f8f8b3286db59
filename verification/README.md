# smear_cursor

The decision logic of a Neovide style "smear" cursor animation for a terminal,
verified with Verus.

- `src/content_shift.rs`: recovers how many rows the visible content moved
  between two frames from a hash per row (rows vote for the offset they moved
  by; rows that repeat in the previous frame do not vote; at least four rows
  must agree), with the laws this detection obeys.
- `src/state.rs`: the state carried from frame to frame (pane, cursor row,
  viewport, scroll counter, row hashes, whether an animation runs) and the
  decisions taken on it each frame, with their laws.
- `src/config.rs`: the integer defaults of the configuration.
- `app/lib.rs`: the floating point geometry of the animated quad, which drives
  the verified state.
