# nagame

A display-profile and wallpaper manager for Wayland compositors. It watches for connected monitors,
applies the profile that fits them, offers display modes as previews that revert by themselves, and
keeps the chosen wallpaper across display changes.

The rules of the program are a Verus library, `src/`: its functions carry contracts, and the contracts are
proved. The program around it, in `app/`, does what touches the machine.

## Layout

- `src/config/`: configurations, the rules a valid one keeps, what it needs of the machine, its revision,
  and changing one mode in its text.
- `src/wayland/`: outputs and modes as the compositor announces them, the search for a mode, the requests
  that a profile or a preview comes to, and how modes are written down and read back.
- `src/profile/`: patterns, the profile that fits the connected outputs, and the steps of activating it.
- `src/awww/`: wallpapers, the command lines of the wallpaper daemon, and the remembered wallpaper.
- `src/ipc.rs`, `src/preview.rs`, `src/daemon.rs`: what clients ask and are told, previews, and the
  decisions of the daemon between one event and the next.
- `src/initialize.rs`: the first configuration, made from the connected outputs.
- `src/text.rs`, `src/number.rs`, `src/natural.rs`, `src/double.rs`, `src/rate.rs`, `src/scale.rs`,
  `src/paths.rs`, `src/table.rs`: texts, numbers, doubles by their bit patterns, paths and tables.
- `src/laws.rs`, `src/wayland/laws.rs`: what holds of several functions together.
- `tests/`: the library on concrete values.
- `app/`: the command line, the event loop, the socket, files and processes.

What the library takes from other crates (`sha2`, `toml_edit`, `rand`, `dirs`) stands behind small
functions whose contracts say what is relied on.
