# master-duel-bgms

Batch-renders circular visualizers of background music: every audio file below a
directory becomes an MP4 video with radial spectrum bars, a progress ring and
the track's title. A summary in JSON remembers what was rendered, so that later
runs leave out what is current.

- `src/` is the library: the rules, parsers and decisions of the program, written
  in Verus and proved to meet their contracts. It computes on plain values, on the
  pixmaps of `tiny_skia` and on the font database of `fontdb`.
- `app/` is the program around it: arguments, files, `ffmpeg`, threads,
  floating-point signal processing and drawing.
- `tests/` runs the library.

The library's modules:

| module | what it holds |
| --- | --- |
| `text`, `number`, `order` | characters and texts, numbers as text, orders of texts and paths |
| `paths`, `titles`, `discovery` | which files are tracks, their order, titles and file names |
| `cli`, `config`, `profile` | options, checked settings, and the identifier of what videos depend on |
| `manifest` | the summary: which tracks are current, and what is recorded |
| `wav`, `audio`, `spectrum`, `loudness` | WAV headers, samples, bands, windows, ranks and rows of bars |
| `arguments`, `encoder`, `job` | arguments of `ffmpeg`, the choice of encoder, the course of one rendering |
| `batch`, `display`, `run` | the queue and its workers, what is shown, and the course of a run |
| `renderer`, `fonts` | titles, pixels and the choice of a font |

Functions whose contracts Verus does not prove call `std`, `fontdb` and
`tiny_skia`; their doc comments say what is claimed of the call. Public proof
functions named `law_...` state what holds across functions.
