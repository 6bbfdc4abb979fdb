# deskctrl

A daemon that keeps an eye on a desktop for its widgets: how fast the network is, how full the disks
and the memory are, how busy the processors are, and which notifications have come. The same program
asks the daemon and prints what it answers.

`src/` is the library. It holds what the program decides, with contracts that Verus checks:

- `type_map`, `ringbuf`, `table`: containers.
- `binary64`, `data`: measurements and the units in which they are shown.
- `text`, `path`, `wrap`: names, digests in hexadecimal, paths, and texts broken into lines.
- `watcher`, `network_watcher`, `disk`: what the watchers measure, and when they tell the daemon.
- `notification`, `images`, `notification_model`, `notification_data`, `group_order`: notifications
  from DBus to the screen, the image files that they use, and the order in which they are shown.
- `command`, `ipc`, `daemon`: what the program is started for, what the daemon is asked, and how it
  changes and answers.

`app/` is the program around it: the command line, the socket, DBus, Hyprland, files, arithmetic on
floating-point numbers, and the few texts that only textwrap can tell whether it breaks into lines. `tests/` runs the library.

Numbers with a fraction are doubles. The library holds them by their bits (`Binary64`), compares them
with powers of two and divides them by such powers, which is exact.
