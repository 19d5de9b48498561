# lixun

The core of a desktop search launcher: an index of files, mail and programs,
the writer that keeps it current, the protocols between its processes, and
the previews of what it finds.

- `src/` is the library, verified with [Verus](https://github.com/verus-lang/verus).
  It holds no I/O: it takes what was read as plain values and answers with
  what is to be done.
- `app/` is the plumbing around it: sockets, files, threads, the search
  engine on disk and the GTK window of the preview.
- `tests/` runs the library on concrete values.

## The library

| modules | what they hold |
| --- | --- |
| `normalize`, `tokenizer`, `scoring`, `query`, `query_alias` | how titles and queries are broken down and matched |
| `fields`, `index`, `plugin_schema`, `fingerprint`, `layout`, `documents`, `round_trip`, `warmer` | the schema of the index, and documents on their way in and out |
| `index_service`, `mutation`, `writer_sink`, `search_cache` | the writer and the searches beside it |
| `files`, `indexer`, `watcher`, `resolver`, `plugin_fs_watcher`, `registry` | sources of documents and what becomes of changes |
| `ocr_tick`, `psi_gate`, `cache_sweep` | work for idle times |
| `frames`, `ipc`, `gui`, `preview_ipc` | the protocols |
| `preview_host`, `archive`, `av`, `canvas`, `code`, `email`, `mime`, `folder`, `html`, `image`, `info`, `office`, `hits` | the preview process and its previews |
| `model`, `text`, `paths`, `name_map`, `order`, `sizes`, `calendar` | what the others share |

Each module states laws, if it has any, as public proof functions whose names
begin with `law_`.
