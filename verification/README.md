# libsurfer

The logic of the Surfer waveform viewer, written in Verus and proved against its
contracts.

## Layout

- `src/` — the verified library.
  - `text` — decimal and binary digits, grouping of digits, small parsers.
  - `time` — time units and scales, number formats (plain, SI, locale), the
    automatic choice of a unit, and the formatting of time stamps.
  - `frame_buffer`, `frame_buffer_arrays` — bits of variables decoded as pixels;
    arrays of scopes and variables resolved, sorted and joined for one image.
  - `batch_commands`, `system_state`, `channels` — command files: lines,
    comments, `;`-separated commands, the plan of steps that loads a file (nested
    files in place), the queue of batch messages and when a batch is complete;
    sending messages and reporting refused ones.
  - `marker`, `data_container`, `drawing_canvas` — markers of a view and how
    they follow the cursor, the kinds of loaded data, the cached draw data of
    each viewport and the Dinotrace style of a value.
  - `remote` — URLs that ask a server for signals, and how the signals are split
    into requests that stay under a URL length limit.
  - `config_dialog`, `config_dialog_ui` — field descriptions and their labels, the
    widget that suits a field, validation of form values (floating-point bounds
    are compared by the caller) and fields sorted for the dialog.
  - `config`, `displayed_item`, `hierarchy`, `tiles`,
    `transactions`, `svg_export`, `help` and the small enum modules — settings,
    colors written in hexadecimal, names and labels, the scope-expansion
    request, rows of transaction streams and escaping for SVG.
- `tests/` — tests of the library on concrete values.
- `app/` — what stays outside the verified library: the system locale, files on
  disk, the loop that applies batch messages, conversions to `ecolor`, and the
  floating-point checks of the configuration form.

Proof functions named `law_*` state properties that hold across calls or for all
inputs: messages are applied in the order they were queued, every signal is
requested exactly once, escaped XML holds no markup characters, and so on.
