# local_source

Reads a local file tree for backup. The library decides what becomes of each entry that a walk
over the tree finds: in which order entries come, which are left out, which node each is stored
as, and which metadata travel with it. Its functions are verified with Verus, but for the few that
call other crates.

| Module | What it holds |
|---|---|
| `source` | the source: how it is walked, which entries are left out, its size, the order of a walk |
| `walker` | turns results of a walk into outputs, one at a time or in chunks for several threads |
| `walk_laws` | what holds of a whole walk: its order, that threads do not matter, that reparse points are not entered |
| `mapper` | maps an entry to the node that is stored |
| `node`, `attribute_map`, `generic_attributes` | nodes and their metadata |
| `open_file`, `path`, `error` | paths, how content is opened, and what can go wrong |
| `win_ads` | alternate data streams of NTFS files |
| `win_reparse` | reparse points: taking their buffers apart and building them |
| `win_sd` | security descriptors, written in part where privileges are missing |
| `win_sparse` | sparse files: allocated ranges, and the holes between them |
| `repofile`, `time` | points in time and their texts |
| `order`, `sort`, `encoding` | comparison, stable sorting, and base64 |

Proof functions whose names start with `law_` state what holds of several functions together.

What only a system call can do stands in `app/`: walking directories, reading metadata, opening
files, the calls into Windows, and the forms in which options and attributes are serialised. It
hands the library plain values and does what the library answers.

Functions marked `external_body` call `base64`, `jiff` or the standard library. Their contracts are
taken on trust; the comment above each says what is claimed.
