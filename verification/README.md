# labworks

A verified library of small utilities and the command-line programs built on it.

- `src/` — the library, verified with Verus, except the calls into outside crates
  and `std`, whose contracts are trusted and documented where they are declared:
  - `sync` — `MyArc` (a reference-counted shared pointer) and `MyMutex` (a spin lock).
    The value shared and the value handed to a guard are verified; the count of
    `MyArc` handles is kept by atomic operations whose values are not stated, and
    its decrement on drop is trusted. A `MyMutex` guard gives the lock back with
    `unlock`; a guard dropped without it leaves the lock taken;
  - `storage` — the file index's records, tag search and storage setting;
  - `imaging` — the image resizer's command line, sizes, source list, output names,
    uploader choice and image work;
  - `downloader` — the page downloader's address list and file names;
  - `matrix`, `crypt` — test matrices and their parallel sum; AES-256-GCM file
    encryption and encrypted file names;
  - `futures` — the decisions of a timing future and a delay future;
  - `order` — orders whose state is part of their type;
  - `text`, `decimal`, `paths` — shared helpers for text, decimal numerals and paths.
- `tests/` — tests of the library.
- `app/` — the programs: files, network, threads, environment and printing.
