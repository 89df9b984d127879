# igarchive

A console browser for an archive of Instagram direct-message threads
(`messages.json` from the account data download), with its logic verified
in Verus.

- `src/` is the library, verified:
  - `model`: threads, messages and likes;
  - `text`: character-level utilities (whitespace words, number parsing,
    substring search, suffix stripping, decimal numbers, string order);
  - `render`: a message, its likes and its media as lines of styled segments;
  - `console`: thread mode, one input line per step;
  - `browse`: message mode, one input line per step;
  - `listing`: the thread list, thread facts and group renamings;
  - `stats`: the sender leaderboard and message counts per day, month or year;
  - `timeline`: the time between messages (through `chrono` and `hhmmss`);
  - `laws`: properties that span several steps or functions.
- `app/` is the program: settings and first time setup, loading the archive,
  the prompt, colours (`colored`), the statistics table (`prettytable`), the
  share percentages (floating point) and the help text.
- `tests/` runs the library on concrete threads.
