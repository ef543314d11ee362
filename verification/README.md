# silo

The verified core of the SILO game launcher, written in Verus.

- `src/` is the library. Every function in it is verified against its
  `requires` / `ensures`: Steam's KeyValues reader (`vdf`), the import rules
  for Steam, Epic and GOG (`library`), save-folder detection (`saveguard`,
  `session`, `places`), backup naming, listing and pruning (`backups`),
  the transactional restore as a state machine with its safety law
  (`restore`), archive entry planning (`archive`), metadata ranking
  (`steam`, `metadata`), and the text and path helpers they share (`text`,
  `sort`, `percent`, `envvars`). Calls into `chrono`, `urlencoding`,
  `sysinfo` and `std::path` go through small trusted wrappers whose
  contracts say what those functions return.
- `app/` is the unverified shell: files on disk, processes, the file
  watcher, HTTP requests and the Windows registry. It performs the actions
  the library decides.
- `tests/` runs the library on concrete inputs.
