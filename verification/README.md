# xtop

A lightweight, configurable, btop-like terminal system monitor for Linux and
macOS: CPU, memory, NVIDIA GPUs (through NVML), disks (block devices and ZFS
pools on Linux, disk media on macOS) and network interfaces, laid out by a recursive split tree read from TOML
profiles in `~/.config/xtop`.

The logic is a library proved with Verus (`src/`); the terminal program
around it is ordinary Rust (`app/`).

## Layout

```
src/
  config/        configuration model, TOML merging and decoding, profiles
  collectors/    /proc parsers, Mach counters, counter tables, history
                 buffers, the monitor
  layout.rs      the split tree resolved into terminal rectangles
  panel.rs       shared panel borders: frames, marks, box-drawing symbols
  chooser.rs     pause, the profile chooser and the event-loop decisions
  event.rs       keys to actions
  widgets.rs     graph labels, windows and cell layouts
  theme.rs       palettes
  util.rs        byte formatting
  scan.rs        lines, words and numbers of statistics files
  order.rs       ordering names, stable sorting
  text.rs        trimming, comparing and printing strings
app/             terminal UI, sampler thread, file, NVML and Mach/IOKit access
tests/           tests of the library
```

## Controls

| Key             | Action                 |
| --------------- | ---------------------- |
| `q`             | quit                   |
| `Esc`           | quit, or close chooser |
| `Ctrl-C`        | quit                   |
| `space` / `p`   | pause/resume           |
| `l`             | choose layout/profile  |
| `j`/`k`, arrows | move in chooser        |
| `Enter`         | select layout/profile  |

`xtop --probe` (or `--once`) samples once and prints the figures as text.
