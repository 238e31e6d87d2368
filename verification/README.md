# xpm

A package manager for pacman and Flatpak with a graphical window. Its logic is a library
whose behaviour is stated in contracts and proved with Verus.

- `src/` is the library: what the package databases, the tools and the files of the system
  report becomes packages, updates, search results and rows of lists; the output of a
  running operation becomes progress, questions and a log; the state of the window follows
  from messages; caches are cleaned, themes are blended, settings are built.
- `tests/` holds its tests.
- `app/` is the program around it: the window, pseudo terminals, libalpm, libflatpak, files
  and child processes. It reads, hands plain values to the library, and shows or does what
  comes back.

What the proofs rest on beyond Verus and its standard library is small. `text` and `bytes`
state a few functions of the standard library on text, and the decoder of `flate2`; `json`
states the values of `serde_json`; `runner` states the wait status of `libc`; `alpm` states
the range of dates of `chrono`. Each of these items says in its doc comment what is claimed.

Numbers that are shown to the user, such as sizes, percentages and blended colours, are
those of floating point arithmetic. `rounding` computes them with integers, digit for digit.
