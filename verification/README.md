# mediamount-agent

An agent that keeps the shares of a file server mounted, or synced on demand, on Windows, macOS and
Linux, and tells its clients and the tray how they are doing.

`src/` is the core of the agent as a library. It decides, and is verified with Verus: every function
has a contract, and the promises that span several functions stand as public proof functions whose
names begin with `law_`. It reads no files, opens no sockets and asks no clock: what the machine says
comes in as plain values, and what is to be done goes out as plain values.

- Configuration and paths: `config`, `paths`, `platform`, `agent`
- Mounts: `state`, `orchestrator`, `mount_service`, `rclone`, `nas_health`, `connectivity`
- Caches: `cache_core`, `file_table`, `folder_table`, `macos_cache`, `cache_index`
- Shares served as file systems: `nfs`, `winfsp`, `fileops`
- Sync roots of placeholders: `sync_root`, `filter`, `placeholders`, `reconcile`, `notifications`,
  `write_through`
- Clients and users: `messages`, `ipc`, `tray`, `credentials`, `conflict`, `macos_watcher`
- Helpers: `text`, `path_map`

A few functions of the standard library and of `serde_json` are called behind items whose contracts
are believed; their doc comments say what is claimed.

`app/` is the agent around the library: processes, files, sockets, the clock and the interfaces of
the systems. `tests/` runs the library on concrete values.
