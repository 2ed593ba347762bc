# window_switcher

The decisions of a window switcher for Windows, written and proved in Verus:

- the most-recently-used order of apps and windows, and which window stands for an app;
- sessions between apps: opening, hopping, committing, cancelling, and putting back the
  windows that were restored only to preview them;
- cycling through the windows of one app while the hotkey's modifier is held down;
- which messages a keystroke posts, and what the window makes of each message;
- the overlay as a list, for assistive technology.

`src/` is the verified library. It touches neither windows nor files: it takes what the
desktop shows as plain values and returns what is to be done. `src/laws.rs` and the
public proof functions beside each type state what holds of all inputs.

`app/` runs the library on a desktop: window, message loop, hooks and COM objects.

`tests/` runs the compiled library on concrete values.
