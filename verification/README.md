# boardgames

Four board games — tic-tac-toe, gomoku, chess and xiangqi — each playable by
two people at one board or against the computer. The game logic is a Verus
library; a small terminal program drives it.

## Layout

- `src/state.rs` — players, the application state and its invariant.
- `src/ttt.rs` — tic-tac-toe: win test and a full minimax opponent.
- `src/gomoku.rs` — gomoku on 15x15: five-in-a-row test, window evaluation,
  candidate moves and a three-ply alpha-beta opponent.
- `src/chess/` — pieces and the starting position (`mod.rs`), attacks, move
  generation, move application and legality (`moves.rs`), evaluation, move
  ordering and the three-ply search (`ai.rs`), and the facts about positions
  reached in play (`position.rs`).
- `src/xiangqi/` — the same for xiangqi, with palaces, the river, cannon
  screens and the flying-general rule.
- `src/game.rs` — the reactions to events: choosing a game, clicking a cell,
  and the computer's answer arriving. Each takes the state and the event and
  gives the next state, the status line and what to do next.
- `app/main.rs` — the terminal front end: reads commands, prints the boards,
  runs the computer's searches on a worker thread.
- `tests/` — scenarios for every module.

## What is proved

Every function of the library has a contract that states its result exactly
over spec functions. Beyond that, proof functions state:

- the computer answers tic-tac-toe and gomoku on an empty cell, and answers
  exactly when a cell is free;
- the alpha-beta searches (chess, xiangqi, gomoku) return the plain minimax
  value inside their window, so the full-window search is exactly minimax;
- every computer opponent picks a move of best value, the first one on ties;
- in chess and xiangqi the computer only chooses legal moves and chooses one
  exactly when a legal move exists; chess move ordering puts every capture
  before every other move and ranks captures by victim and attacker; the
  evaluation negates when the board is seen from the other side;
- a castling move is generated exactly when the king stands on its square,
  the right is kept, the squares between are empty and none of the king's
  squares is attacked;
- a legal move from a position reached in play gives a position reached in
  play (both kings or generals stay, the mover is not left in check, castling
  rights and the en passant target stay genuine), so the search never looks
  for a missing king or general; the starting positions are such positions;
- every event keeps the application invariant; a highlighted destination
  always plays a legal move; the computer's choice is always taken up.
