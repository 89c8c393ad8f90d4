# palawan_installer

The logic of an Arch Linux post-install helper, verified with Verus.

- `src/` is the verified library: GPU detection from sysfs and `lspci` output,
  driver package choice, package-list parsing, the browser/terminal/editor and
  coding-agent choosers, the order of the installer steps with what each step
  reports, progress counting from pacman output, and the texts and key
  handling of the screens.
- `app/` is the terminal program around it: it reads files and the
  environment, runs `sudo`, `pacman`, `yay` and the other commands, and draws
  the screens with ratatui and crossterm.
- `tests/` exercises the library on concrete values.

The default package lists are read at run time from `packages/base.txt` and
`packages/hyprland.txt`; `--packages-file PATH`, `--packages-file=PATH` or the
`PALAWAN_PACKAGES_FILE` variable name another base list, and
`PALAWAN_DEV_GPU=amd,intel,nvidia` forces the detected GPU vendors.
