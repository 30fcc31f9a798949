# kibitz

Chess analysis that explains why a move was good or bad. Every fact an
explanation may use is computed on the board or read from the engine: the
classification of the move, the refutation line, the tactical motifs, the
static features of the position and how they changed.

The library in `src/` is written in Verus and verified: each public function
states in its contract what it returns, and the laws that tie functions
together (a score seen from the other side and back is the same score, a
game never re-enters the opening book, a superseded search stays cancelled,
the canonical JSON of an object does not depend on its member order, session
ids sort by creation time, ...) are proof functions next to the code they
speak about.

- `score`, `classify`: evaluations and the rule table that turns them into a
  verdict (the floating-point win-probability thresholds are measured by the
  caller and handed over as plain facts).
- `board`, `position`, `see`, `feature`, `motif`, `outlook`: the board model,
  static exchange evaluation, positional features and their diff, tactical
  motifs along a line, and what the engine's candidates agree on.
- `uci`, `progress`, `driver`, `engine`: reading UCI output, tracking finished
  iterations, the search state machine, and turning engine lines into
  candidates.
- `tree`, `pgn`, `opening`, `eco`: the game tree, PGN export and the event
  side of import, and opening names from the embedded ECO table.
- `book`: the opening-book verdict, request URLs and the cooldown rules.
- `pipeline`, `report`: the decisions of an analysis sweep and the Markdown
  report.
- `lang`, `prompt`, `messages`, `json`, `stream`, `cli`: explanation prompts,
  request bodies, canonical JSON and its digest, decoding a streamed answer,
  and the arguments and failure messages of a command-line model client.
- `gate`, `session`, `api`: engine sharing between interactive and sweep work,
  session ids, and the answers of the HTTP interface.

`app/` is the command line around the library: it reads a PGN file, runs a
local UCI engine over its standard streams, and prints the analysis as JSON,
or, with `--explain`, as a Markdown report whose worst and best moves are
explained by a command-line model client
(`kibitz analyze game.pgn --depth 12 --explain --llm-bin PATH --model NAME`).
The engine binary is `stockfish` unless `KIBITZ_STOCKFISH` names another.
