# pxi_core

The core library of `pxi`, a domain-based installer CLI for Proxmox/LXC/Debian hosts,
written in Verus: every function in `src/` carries a contract that Verus proves.

## Layout

- `src/text.rs` — string primitives with specifications (`trim`, `lines`,
  `split_whitespace`, search, affixes, `u64` parsing and rendering, string order).
- `src/keyed.rs` — keyed entries in a `Vec`: lookup, and inserts that keep each key once
  (in place, or in ascending key order).
- `src/brand.rs`, `src/brand/paths.rs` — names and system paths, the configuration
  directory rule.
- `src/config.rs` — runtime configuration, its defaults and its load rule.
- `src/registry.rs` — the domain registry (`available` / `planned`, format version,
  loading tiers).
- `src/services.rs`, `src/convention.rs` — service aliases, VMIDs and canonical addresses.
- `src/common.rs` — external command invocations and how their outcomes are judged.
- `src/vm.rs` — parsers of `qm list` / `qm status`.
- `src/disk.rs`, `src/fstab.rs`, `src/nas.rs`, `src/workspace.rs` — swap planning, LV
  names, `/etc/fstab` entries, NAS mounts, shell and tmux set-up.
- `src/envfile.rs`, `src/vaultwarden.rs` — `.env` reading, `bw` output parsing, the files
  and guest scripts of the Vaultwarden domain.
- `app/` — the command-line front end: argument parsing, processes, files, serde.
- `tests/` — tests of the library.

Public `law_*` proof functions state properties that span several functions (for example,
that `available` and `planned` partition the registry).
