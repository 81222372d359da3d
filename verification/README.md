# crop-hypr

A screenshot tool for Hyprland: capture a region chosen with `slurp`, the
active window, the focused monitor, all monitors, a source picked through
xdg-desktop-portal, or a region, window or monitor chosen on a frozen image of
the screen.

## Layout

- `src/` is the library, verified with Verus: parsing the region text,
  clamping crops, colour strings, configuration rules and paths, the Hyprland
  data, which outputs to copy and how frames are reported, turning compositor
  and portal frames into images and compositing the monitors, the freeze-mode
  decisions, and the texts and command of the notifications.
- `tests/` exercises the library on concrete values.
- `app/` is the program around it: the command line, the Hyprland socket,
  Wayland screen copy, the portal and PipeWire, notifications, the
  configuration file and the freeze-mode overlay.
