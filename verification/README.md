# time_event

A daemon that runs shell commands on a schedule read from
`~/.config/time-event/te.conf`, reloading the file when it changes and
logging to `~/.config/time-event/te.log`.

* `src/` is the verified library: the configuration language (`config`),
  text handling (`text`, `number`), clock tests (`clock`), the once-a-second
  scheduling decision (`scheduler`) and the small decisions around the main
  loop (`events`).  Contracts state each function's result exactly; laws of
  the schedule are public proof functions beside the code they speak of.
* `app/main.rs` holds what touches the system: the home directory, the log
  redirection, reading and creating the configuration file, the directory
  watcher, reading the local clock and time zone, spawning commands and
  sleeping.
* `tests/` runs the library on concrete configurations and clock readings.
