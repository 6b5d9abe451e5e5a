# lroot

`lroot` runs commands inside an alternate root filesystem without root privileges. A library that is
preloaded into the command hooks the C library's functions and translates the paths that are handed to
them; programs that a preloaded library does not reach run under a tracer that translates the paths of
their system calls.

The rules by which all this is done are a verified library: executable Rust with contracts that Verus
proves. What touches the system stands around it.

## Layout

- `src/` is the library.
  - `config`, `translate`: the settings of the hooks, and where a path lies on the host.
  - `call`, `hooks`, `identity`: what each hooked function asks the kernel for, or answers on its own.
  - `procfs`: the files below `/proc` that the program sees instead of the host's.
  - `elf`, `exec`: what a program file is, and in which order ways of running it are tried.
  - `tracer`, `wait`: the tracer's decisions, as transitions from an answer to the next question.
  - `cli`, `variant`, `launch`: the command line of `lroot`, the choice of the preloaded library, and
    what is started with which environment.
  - `handover`: that the hooks read out of the environment what the command line put into it.
  - `intercept`, `pty`, `error` and `App`: the runner for programs that embed it.
  - `distro`, `archive`, `manage`: the distributions that `lroot-distro` installs and runs.
  - `bytes`, `text`, `path`: byte strings, texts and paths.
- `tests/` runs the library on concrete values.
- `app/` is the programs: system calls, processes, terminals and downloads.

Functions whose names start with `law_` state what holds of the library as a whole.

## What is trusted

Contracts of functions outside the library are believed: `std::path::Path::parent` and `file_name`,
`String::from_utf8_lossy`, `std::str::from_utf8`, the `W...` functions of `libc` that take a wait status
apart, and the gzip decoder of `flate2`. Each is stated where it is called from.
