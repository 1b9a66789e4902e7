# cites_ui

The logic behind the user interface of CITES, a C-ITS / ITS-G5 exploration system:
what the live view, the analysis page, the injection page, the file transfer and the
configuration page compute from captured packets and user input. Every function in
`src/` is verified with Verus against its `requires` / `ensures` contract, except four small
trusted wrappers around outside code (listed at the end), whose contracts Verus takes on trust.

## Layout

- `src/calendar.rs` – day numbers to proleptic Gregorian dates, timestamp rendering,
  GeoNetworking timestamp unwrapping, durations.
- `src/analysis.rs` – decode statistics, MAC order, vehicle table rows, clock-drift and
  acceleration-control series, analysis filters, inter-packet gaps.
- `src/live.rs`, `src/visible.rs`, `src/playback.rs`, `src/timeline.rs`,
  `src/trajectory.rs` – live view: vehicle state and its drawing, the visible-MAC list,
  the playback clock, playback order and light state, trajectory grouping.
- `src/injection.rs` – injection filter, packet preview, schedule, status bar and the
  switches kept across a run.
- `src/settings.rs`, `src/countries.rs` – persisted settings (the `localStorage`
  statements), form fields, style URL, the country table.
- `src/transfer.rs`, `src/picker.rs`, `src/monitor.rs`, `src/charts.rs` – upload state,
  data-source dialog, connection helpers and chart helpers.
- `src/text.rs`, `src/lexical.rs`, `src/order.rs`, `src/packet.rs` – strings, parsing,
  orderings and the packet record the logic reads.
- `app/` – the parts that work on floating-point measurements (positions, speeds, chart
  geometry) and the parsing of web-view messages, built on the library.
- `tests/` – tests of the library on concrete values.

Trusted wrappers (`#[verifier::external_body]`):

- `calendar::chrono_utc_hms` – chrono renders `hh:mm:ss` of a UTC timestamp;
- `transfer::base64_decode` – base64 decodes dropped files (result named
  `base64_standard_decode`);
- `text::push_char` – std `String::push`;
- `text::to_lowercase` – std `str::to_lowercase` (result named `lowercase`).
