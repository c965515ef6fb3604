# spawnhere

Draw a rectangle on a Hyprland desktop, pick an application, and its window opens floating in that
rectangle. This repository holds the launcher as a library verified with Verus and a thin program
around it.

## Layout

`src/` is the library. Its functions state what they do in their contracts, and the laws of the library are the public
`proof fn`s beside the functions they speak of.

| Module | What it holds |
| --- | --- |
| `stroke` | boxes and strokes: bounding box, least size, clamping to a rectangle |
| `gesture`, `pen` | clicks, rectangles, squares and freehand lines from pointer motion |
| `overlay`, `sketch` | the overlay as a state machine: events in, a decision out |
| `frame`, `card` | what a frame shows, where the picker's card and its rows lie, what a press hits |
| `picker`, `fuzzy`, `rank` | the list of applications: recency, fuzzy scores, stable order, viewport |
| `history`, `pinned` | the picks so far and the pinned command, as the text of their files |
| `apps` | desktop entries, and their commands without field codes |
| `config`, `launch` | settings and per-application rules, and where a window goes |
| `hyprland`, `backend`, `json` | the free area of a monitor and the dispatcher's arguments |
| `snap`, `aim` | edges and corners of other windows that the pointer snaps to |
| `pixels`, `shimmer`, `icons` | blending of glyphs, pulses along a stroke, kinds of icon files and their cache |
| `text` | lines, words, trimming and the order of texts |

Coordinates of the pointer are whole numbers of 1/256 of a logical pixel, which is the resolution
of the Wayland protocol.

`app/` is the program: files, processes, Wayland, and the drawing with floating point. It reads the
font from `/usr/share/spawnhere/fonts/Inter-Variable.ttf`. `tests/` runs
the library on concrete values.

## Trust

What the library takes from other crates and from std without proof is stated where it is called:
functions marked `#[verifier::external_body]` and `assume_specification` items, each with a doc
comment that says what is claimed.
