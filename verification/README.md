# pawse

A break reminder for the desktop: while a tracked app is in use, a usage
budget drains; when it runs out a break overlay appears (deferred while a
fullscreen window is in front), and a finished break refills the budget.

- `src/` is the library, verified with Verus:
  - `budget` — the budget state machine (`tick`, `snooze_for`, launch rules)
    and the laws it keeps;
  - `commands` — validation and application of settings changes, snoozing,
    the monitor list;
  - `sensing` — the foreground snapshot, the recent-apps list, and the
    decisions of the platform back ends (`sensing::win`, `sensing::mac`);
  - `tray` — tooltip text, menu actions, placement of the snooze dialog;
  - `overlay` — which monitor the break overlay covers;
  - `text` — ASCII case-insensitive comparison, trimming, decimal rendering.
- `app/` is the desktop shell around it: windows, tray, system calls, files
  and the JSON they hold.
- `tests/` exercises the library on concrete values.
