# omarchy_portal

The core of an `xdg-desktop-portal` backend for the Omarchy desktop, written
in Verus. The portal frontend routes file choosers, settings, screenshots,
notifications and the other portal dialogs to this backend over D-Bus.

- `src/` is the verified library: what each portal decides and computes
  (option handling, document paths, file filters, the file chooser's state
  machine, desktop entries and `mimeapps.list`, theme colours, settings,
  notifications, inhibitors, background prompts, screenshots and more),
  each function with a contract proved by Verus, plus the laws that relate
  them (`law_*` proof functions).
- `tests/` runs the library on concrete values.
- `app/` is the program around it: the D-Bus interfaces (zbus), the dialog
  windows (egui), and the file system, processes and environment the
  library is handed values from.
