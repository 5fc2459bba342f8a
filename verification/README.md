# hku_moodle_helper

A desktop helper that lists the deadlines of HKU Moodle (assignments,
Turnitin submissions, quizzes, registrations) and keeps running in the
system tray.

- `src/` is the library, verified with Verus: calendar arithmetic and
  RFC 3339 rendering (`time`), iCalendar unfolding, property lookup,
  unescaping and event extraction (`ics`), the mapping of Moodle AJAX
  action events and the paging through them (`ajax`), the requests and the
  AJAX-then-iCalendar fallback (`moodle`), the session cookies and login
  rules and the one-at-a-time session harvest (`auth`), the tray menu (`shell`), and exact character-sequence
  primitives (`text`).
- `app/` is the Tauri shell around it: windows, tray, HTTP, keyring, JSON
  and files.
- `tests/` runs the library on concrete inputs.
