# belot

The rules of belot (the Bulgarian card game, with the scoring of belot.bg)
as a verified library, a terminal game around it, and a few small example
programs.

- `src/` — the library, verified with Verus:
  - `cards` — cards, suits, values, game modes and the three value orders;
  - `sorting` — arranging a hand by suit and value;
  - `announcements` — sequences and carrés;
  - `trick` — who takes a trick, which cards may be played, belots;
  - `deal` — the deck, dealing, arranging hands for the game mode;
  - `bidding` — the bidding, as a state machine;
  - `round` — playing the tricks of a round, card by card;
  - `scoring` — card points, last trick, kapo, inside, rounding;
  - `game` — totals, hanging points and the end of the game;
  - `input` — reading a numbered choice;
  - `summary`, `shoes`, `five` — the small example programs' logic.
- `app/` — the terminal program: reading input, printing, and the loops
  that drive the library's state machines. `cargo run` plays belot; the
  arguments `summaries`, `shoes`, `five`, `threads`, `mutex` and `boxes`
  run the example programs.
- `tests/` — tests of the library.
