# xs_file_transfer

Sends files between two machines over an encrypted connection.

`src/` is the verified library:

- `header`, `network::file_transmission`: the file packet (a sixteen-byte
  header, the file's sub path in UTF-8, the file content), how it is made and
  read, and that reading gives back what was made.
- `settings`: the key/value settings and their `key=value` text form, with
  the proof that writing and reading the text gives the same settings.
- `command_resolver`: the console commands `send` and `receive`.
- `error_log`: the messages shown to the user.
- `network::connection_control`, `network::receiver`: when a connection may be
  opened, accepted or closed, what the settings remember of a connection, and
  when receiving may start or stop; each error carries the message that is
  logged for it.
- `network::sender`: sending a file or a directory: where each file is read
  from and under which sub path it goes, what is logged, when sending stops,
  and that the chosen path is remembered only once every file went out.
- `xs_packet`: the packet of the older console receiver.
- `text`: splitting, trimming and line handling as Rust's `str` methods do.

`app/` is the program around it: sockets, threads, files, the window.
