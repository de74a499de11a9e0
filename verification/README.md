# openless edit capture

Verified core of OpenLess's edit capture: after a dictation is inserted into a
text field, the library finds the inserted text, follows the user's
corrections of it, and learns a word into the shared vocabulary once two
independent dictations were corrected the same way. It also holds the rules
for the user's personal devices (microphone settings, the Bluetooth remote).

- `src/` — the library, verified with Verus:
  `text` (character helpers), `anchor` (locating an insertion and reading it
  back), `learner` (word candidates and agreement streaks), `capture` (the
  ledger of edits), `learning` (the learning steps and their laws), `watch`
  (the state machine that follows one dictation), `field` (the rules for
  reading another application's field, applied in order to what the
  accessibility interface reports), `devices` (device rules).
- `tests/` — tests of the library.
- `app/` — threads, storage, the snapshot worker process and the commands the
  user interface calls; every decision is delegated to the library.
