# bailey

A layered, deny-by-default sandbox for running untrusted programs on Linux,
with its deciding logic verified by Verus.

## Layout

- `src/` is the library, its functions proved against their contracts
  (the trusted wrappers below aside): the policy model (`policy`, `path`, `pathmap`, `strmap`), the
  configuration cascade (`tomldoc`, `schema`, `merge`, `resolve`, `discover`,
  `config`, `profiles`), trust records (`trust`), the world a run sees
  (`world`, `isolation`, `network`, `cgroup`, `enforce`, `seccomp`, `audit`), the audit
  trace (`record`, `event`, `reconcile`, `review`, `profile`), and what the
  command line decides and prints (`session`, `show`, `hook`, `hooks`,
  `probe`).
- `tests/` runs the library on concrete values.
- `app/` is the `bailey` program: argument parsing, reading the host, and the
  system calls that build the sandbox. It hands the library plain values and
  acts on what comes back.

## Trusted calls

The library calls a few outside functions through wrappers whose contracts
are believed rather than proved: SHA-256 (`sha2`), TOML parsing (`toml`), the
Landlock access masks (`landlock`, `enumflags2`), compiling the seccomp
filter (`seccompiler`), and from std: `Debug` texts of strings and paths,
lossy UTF-8 decoding, and `String::push`.
Each wrapper's doc comment says what its contract claims.

## Laws

Properties that span functions are stated as public proof functions named
`law_*`, each with a doc comment that says the law in words: how layers
merge, what a trust record guarantees, what reconciliation finds, what the
isolation plan never binds, the order in which config files are found,
how coalescing and profile generation treat findings, how the environment
is built, what the host report explains, and that the JSON summary's
strings read back as written.
