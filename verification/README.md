# battle_sim

Equipment data, board layouts and report texts of a two-player auto-battler on a
4-by-5 board, written in Verus with their contracts proved.

- `src/` is the verified library: text and number handling (`text`, `num`, `stars`),
  reading item descriptions into actions and effect parameters (`actions`, `effects`,
  `pending`), the attribute documents (`csv`), the equipment catalog (`catalog`), board
  reading, cell groups and cutting them into item shapes (`board`, `layout`), battle event
  texts and the random generator (`battle`), and the equipment and star reports (`query`,
  `star_report`, `store`).
- `app/` is the program around it: command-line handling, the SQLite equipment database,
  files, and the battle simulation itself, which works on floating-point hit points and
  timers.
- `tests/` runs the library on concrete inputs.

Quantities read from texts are kept in thousandths; see the `num` module for what that
means for numbers written with more than three decimals.
