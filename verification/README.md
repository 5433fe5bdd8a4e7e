# fast_win_launcher

The logic of a small, local-only utility for Windows 11: a fuzzy app launcher on the Win key,
a short top bar, and a taskbar hider. The logic is a library whose behaviour is stated in
contracts and proved by Verus; the program around it makes the Windows calls and draws.

| Where | What |
|-------|------|
| `src/` | The library: what each key, message, click and frame comes to |
| `app/` | The program: windows, hooks, registry, sound, files and drawing |
| `tests/` | Tests of the library on concrete values |

## The library

| Module | What it decides |
|--------|-----------------|
| `hook` | The keyboard hook: a lone tap of Win toggles the launcher, combinations are rebuilt |
| `launcher` | The launcher's state: query, rows, selection, focus, activation, height |
| `fuzzy` | How a query scores against a name, and the order of the matches |
| `calc` | The grammar of quick math, read into a program for a stack machine |
| `favorites` | The set of favorites and the file that keeps it |
| `apps` | The index of apps, what launches one, and the pixels of its icon |
| `tray` | Messages of the core window, the menu, switching on and off, Start surfaces |
| `taskbar` | Which windows are taskbars, and what hides or shows them |
| `topbar`, `volume` | The bar, its settings panel, its appearance, and mute |
| `appbar`, `geometry` | The reserved strip, and where windows are put |
| `autostart`, `cli` | What goes into the registry, and the command line |
| `power`, `time_fn` | Power commands, the date and the time |
| `state` | What the threads share |
| `text`, `wrap` | Text over sequences of characters, and 32-bit arithmetic that wraps |
| `laws` | What holds of the launcher as a whole |

What quick math computes, the volume's level and the drawing are floating point and stay in
`app/`.
