# particle_core

The verified core of a music visualiser: what happens to captured audio between
the device and the picture, and to a preset's shader between the file and the
graphics card.

- `src/` is the library, written in Verus. Every function has a contract that
  says what it gives for every input it accepts, as far as no other thread
  decides: its `requires`, where it has one, names a machine limit, a bound on an
  index or the order of a structure.
  The proof functions named `law_...` state what holds across functions.
- `tests/` runs the library on concrete values.
- `app/` is ordinary Rust round the library: the capture device, the worker
  thread, the converter process, and all arithmetic on floating-point numbers.

## Modules

| Modules | What they hold |
| --- | --- |
| `protocol`, `helper`, `convert` | the frames between a host and its converter helper, the run of a helper, the replies of the native converter |
| `glsl`, `glsl_laws`, `text`, `utf8` | the rewriting of converted shaders, and the text functions it stands on |
| `capture`, `capture_ring`, `triple_buffer` | the choice of a source, the ring from the callback to the analysis, the buffer from the analysis to the picture |
| `resample`, `staging`, `history`, `spectrogram`, `waveform` | rates, hops and windows, and what is kept of the past |
| `level`, `order`, `select` | levels as bit patterns with their order, order statistics, the best of many |
| `smoothing`, `onset`, `hpss`, `bands`, `butterchurn`, `structure`, `tempo`, `tonal`, `features` | the decisions of the analysis, and its result |

Floating-point numbers do not occur in the library. A level is held as its bit
pattern (`level::Level`), which is enough wherever levels are only compared,
ranked, repaired or limited.
