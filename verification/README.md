# ddboline_scripts

Scripts that look after a host, with their decisions verified by Verus.

- `authenticate` refreshes the host: logs are put away, packages upgraded, databases backed up or
  restored, repositories brought up to date.
- `check_repo` looks through the package directories: new packages are moved in, all but the newest
  package of a name are dropped, the package repository is built and uploaded.
- `update_repos` brings git repositories up to date.
- `system_stats` reports about the host.
- `list_running_services` and `clear_secrets_restart_systemd` list and restart services.
- `ShowPasswordOpts` draws passwords, and shows, sends and edits the encrypted password file.

## Layout

`src/` is the library. A script asks for one action after another and is told what came of each; it
does no input or output itself. `script.rs` says how a script goes on, and the modules beside it
hold the steps of each script. `laws.rs`, `runs.rs` and `cleanup.rs` state what holds of whole runs.
`outside.rs` holds what is taken on trust from other crates and from the standard library; the one
item beside it, `String::push`, is in `text.rs`.

`app/` performs the actions: it reads the settings and the arguments, runs programs, reads and
writes files, and hands the answers back.

`tests/` runs the scripts against hosts that exist in memory only.
