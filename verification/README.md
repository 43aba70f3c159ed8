# niuma_timer

The logic of NiuMa Timer, a Windows tray tool that shows a wage worker what the
working day has earned so far and what the day was spent on, written in Verus with
its contracts proved.

- `src/` is the verified library: calendar and holiday tables, the working-day clock,
  overtime records, reminders, pause and lock handling, the activity, application and
  playback counters, the weekly bill and the weekly insights, upkeep of the store, the
  tray's decisions and the one-second beat. Calls into chrono, base64 and png stand
  behind small trusted wrappers; each contract states what the crate's source shows
  of that call, and where the result rests on the time zone it states no more than
  what holds in every zone.
- `app/` is the console front end around it: standard input and output, the SQLite
  store, the configuration file, the holiday download, and the money arithmetic,
  which works in floating point.
- `tests/` runs the library on concrete values.
