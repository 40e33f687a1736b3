# TurboFind

A fast file indexer with an interactive search: fuzzy and regular-expression search of names, and
search of the contents of text files and documents. The library under `src/` is written in Rust
with [Verus](https://github.com/verus-lang/verus) contracts and proofs; the program under `app/` is
ordinary Rust around it.

## Query language

| Filter | What it does |
|---|---|
| `dir:`, `folder:` | Only directories |
| `ext:<extension>` | Only entries with that extension |
| `in:<path>` | Only paths that contain the value, or begin with it where it is absolute |
| `regex:<pattern>`, `re:<pattern>` | Match names with a regular expression |
| `grep:<text>`, `content:<text>` | Search the contents of files |
| `regex:` with `grep:` | Search contents with a regular expression |

Double quotes keep a value with spaces together: `in:"c:\my docs" budget`.

## Layout

| Module | What it holds |
|---|---|
| `text`, `utf8` | Strings as sequences of characters; searching their bytes |
| `query`, `query_laws` | Tokens, filters, and completing the `in:` filter |
| `filters` | Path filters and the extensions of binary files and documents |
| `index`, `ext_map`, `cache` | The index, its table of extensions, and its form on disk |
| `order` | Stable sorting |
| `pattern`, `names` | Matching, scoring and ranking names |
| `contents`, `documents`, `archive` | Searching lines; text from XML archives and RTF |
| `search`, `search_laws` | Running a query; what holds of its results |
| `editor`, `session`, `prompt` | The search line, the keys, and the prompt for a path |
| `display`, `screen`, `size` and their laws | Fitting, sanitizing and styling text; the frame |
| `startup` | The command line, and whether a cached index can be used |

Contracts speak of `s@`, the characters of a string, and of plain models of the other types. What
holds of several functions together is stated in the functions whose names begin with `law_`.

The library calls the crates `regex`, `nucleo`, `zip` and `postcard` through a few small functions
in `pattern`, `archive` and `cache`, whose contracts say what is relied on. Walking directories,
reading files, extracting text from PDF files and driving the terminal are done in `app/`.
