# rosace-widgets (verified core)

The logic behind a set of UI widgets, written in Verus and proved against
its contracts:

- `date` — calendar arithmetic (leap years, month lengths, weekdays),
  the month grid, range selection, day-cell marking and the press/drag
  gesture of the date picker.
- `forms` — validation rules, field errors, and form fields whose value,
  errors and touched flag are shared by every clone.
- `template` — the data form of a `view!` tree: descriptors, the diff that
  decides whether an edit can be hot-swapped, the registry of running
  templates, reload of an edited file, and the inflater's checks.
- `image` — image sources and the decode-once image cache (PNG decoding
  by `tiny-skia`).
- `tree` — hero transitions, icon names and the codepoints table, bento
  grid placement, overlay and dialog placement, autocomplete suggestions,
  data-table headers, bottom-navigation items, frame requests.
- `keyed`, `text`, `clipboard` — shared helpers and the clipboard interface.

`app/` holds what stays outside the proofs: the process- and thread-wide
registries, file reading, and floating-point geometry. `tests/` exercises
the library from outside.
