# brightness_control

Brightness control for displays on Linux systems with Xorg. A daemon keeps a brightness and a nightlight for every
monitor. It sets the brightness with `xrandr` and shows the nightlight with `xrandr` or `redshift`. A client sends it
requests.

The library under `src/` decides what requests say and what is done for them, with contracts that Verus proves:

- `shared`: the requests and the answers.
- `client`: requests out of the arguments on the command line, with subcommands (`arguments`) and without (`flags`).
- `daemon::config`: the options of the configuration file, and what is kept of the monitors.
- `daemon::engine`: the monitors (`monitor`, `display`), the commands that show their lights (`commands`), changes of
  brightness (`brightness`, `fade`), the nightlight (`nightlight`), answers to requests (`requests`), and one light for
  all displays (`single`). What holds across these is stated and proved in `display_laws`,
  `brightness_laws`, `choice_laws` and `nightlight_laws`.
- `daemon::fs`: decisions about the files of the daemon.
- `daemon::util`: cells, locks, tables and answers.
- `level`: brightness levels. A level is a double; here it is the word of its bits.
- `text`: decimal numbers and joined texts.

The program around it is under `app/`: the command line, sockets, files, signals, child processes, timers and floating
point, which give the size of a change and the levels of a fade. Whether the client waits for an answer is up to the
program too. Work that takes time is split: a task of the library says what it waits for, the program does it, and the task
goes on with what came of it.
