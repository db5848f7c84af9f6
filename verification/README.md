# network_statistics

Traffic totals per billing cycle that survive restarts and reboots.

- `src/` is the verified library. Every function states in its contract what it returns.
  `storage`, `schedule` and `continuity` hold the laws that relate several functions; those on the
  counters and the report stand in `traffic` and `realtime`.
- `tests/` runs the library, with the `time` and `sysinfo` crates that it calls.
- `app/` is ordinary Rust around it: the clock, the state file, the kernel's counters, the log.

What is believed without proof of the `time` crate stands in `src/calendar.rs`, of `sysinfo` in
`src/traffic.rs`, and of the standard library in `src/text.rs` and `src/reset.rs`.
