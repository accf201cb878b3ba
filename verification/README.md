# jupytext

A verified library of the text-side logic of notebooks stored as text: scripts (light,
percent, hydrogen, Sphinx Gallery, spin) and Markdown. It knows the registry of formats
and their long and short forms, checks and compares format descriptions, computes the
paths of paired notebooks, finds the header of a text notebook, decides where cells start
and end in a text and how a cell is written back, and guesses the format of a text. Every
function in `src/` carries a contract that Verus proves; the properties that relate
several functions are stated as public proof functions next to them.

Notebooks are held as plain values: each metadata value is its compact JSON text, which
`serde_json` and `serde_yaml` parse and print behind trusted wrappers. `reads` turns a text
into a notebook (its header into the notebook metadata, its cells through the cell reader)
and `writes` turns a notebook into text (header, then the text of each cell); both convert
the cells of Sphinx Gallery scripts, and refuse the cells of the other formats, whose
whole-cell readers and writers are not in this library. `compare_cells` and
`combine_inputs_with_outputs` compare notebooks and restore outputs from a paired
notebook.

Layout:

- `src/` — the library, checked by Verus:
  - `text`, `pattern`, `string_parser`: characters and lines, regular expressions (through
    the `regex` crate), quoted strings in code;
  - `formats`, `format_map`, `format_check`, `format_version`, `paired_paths`, `config`:
    the format registry, long and short forms of formats, their validation, version
    checks, the paths of paired notebooks and the configuration defaults;
  - `header`, `languages`, `magics`, `pep8`, `metadata_filter`, `cell_metadata`: headers,
    languages, magic commands, blank lines between cells, metadata filters;
  - `cell_reader`, `cell_to_text`, `cell_export`, `guess`, `myst`: where cells start and
    end in text, how cells are written back, and how a format is guessed;
  - `notebook`, `json`, `notebook_io`, `notebook_writer`: notebooks as plain values, their
    metadata as JSON texts, reading and writing whole notebooks;
  - `compare`, `combine`, `cli`, `jupytext`: comparison of texts and notebooks, matching
    of paired cells, and small helpers of the command line.
- `tests/`: tests of the library on concrete values.
- `app/`: the command line program, with the file, YAML, TOML and JSON handling; it
  reports formats and paired paths, compares texts, and converts notebooks (`--to`,
  `--output`, `--test`) between `.ipynb` files and the text formats that the library
  reads and writes.
