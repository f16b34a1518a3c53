# astraea

A capability policy engine for Node.js applications, written in Verus. Given a
manifest of per-package capabilities, it decides which file reads, network
connections and bindings, environment changes, process executions and native
addon loads each package may make, attributes each access to a package from the
JavaScript stack, logs every decision, builds the seccomp-BPF allow-list filter,
and learns a manifest back from an audit log.

Layout:

- `src/` — the verified library. Each module states its behaviour over
  mathematical models (`Seq`, `Map`, `Set`) and proves its functions against
  them; the laws of the library (normalization is idempotent and removes
  traversal, a registered DNS resolution admits its address until it expires
  and never for another package, added rules never revoke access and malformed
  ones are ignored, frames read back their length, the filter program allows
  exactly the listed calls, learning is order-independent and admits what it
  learned from) are public proof functions.
- `tests/` — tests of the library on concrete values.
- `app/` — the process around the library: the C entry points called by the
  interceptor, configuration loading, V8 stack walking, DNS resolution, the
  audit writer thread, seccomp installation, the daemon and the manifest
  generator.
