# Rift Counterpick

An overlay for the champion select of League of Legends: it follows the draft in
the client that runs on the same machine, and recommends champions for the
player's role by matchup, synergy and win-rate statistics.

`src/` is the logic, verified with Verus:

- `text`, `number`, `json`, `clock`, `lists`: the values that everything else is
  made of. Fractions are carried as the bits of a binary64 number.
- `models`, `settings`, `catalog`: what the overlay shows, what the player sets,
  and the champions of a patch.
- `lcu`: what the client reports, from its lockfile to the draft of a lobby.
- `stats`: the cache of statistics (`rows`, `cache`, `store`), how the tables of
  the source are read (`qwik`, `ingest`), and the course of fetching them all
  (`source`, `course`).
- `engine`: which champions can be recommended, with all that their scores are
  made of, and how the cards are ranked and worded.
- `state`: how what the overlay knows changes with what happens.
- `riot`, `update`: a player's profile, and newer releases.

`app/` is what reads, sends and waits: the window, the network, the files, and the
floating-point arithmetic of the scores (`score`), which the engine is handed.

Properties that relate several functions are public proof functions whose names
begin with `law_`, beside the functions that they are about.
