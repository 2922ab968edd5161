# hermes

A masscan runner. The library (`src/`, verified with Verus) builds masscan
command lines from targets, port lists and options, reads the port lists and
targets given on the command line, turns masscan's NDJSON records into table
rows and port records, prepares the rows stored in SQLite, and composes the
results email. The program (`app/`) parses the command line, runs masscan,
reads the output file, talks to SQLite and to the SMTP relay.

- `src/text.rs`: whitespace, trimming, splitting, integer parsing and
  decimal rendering, stated over character sequences.
- `src/masscan_cli.rs`: errors, port and target values, and the command line.
- `src/cli.rs`: targets, the port list and the email settings from the
  command line.
- `src/results.rs`: NDJSON lines, reading each line as JSON, the printed
  report, table rows, port records.
- `src/notifications.rs`: the email body and the message built with lettre.
- `src/db.rs`: the database rows for a scan and the steps that store them.
