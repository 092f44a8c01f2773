# dotfiles_installer

Sets up an Arch Linux system: clones and stows a dotfiles repository, installs
GPU drivers and the package groups of a configuration file, and configures a
laptop. The decisions are made in a library whose behaviour is specified and
proved with Verus; a thin program around it does the terminal, file, network
and process work.

## Layout

- `src/` — the verified library
  - `config/` — the configuration language: lexer, parser (with includes),
    the settings and the configuration record built from the assignments
  - `packages/` — the dependency graph of package groups, which packages come
    from the official repositories and which from the AUR, installation order
  - `hardware/` — GPU vendor detection and the `MODULES=(...)` rewriting of
    `mkinitcpio.conf`
  - `cli/` — arguments, their validation, the prompt policy, subcommands
  - `dotfiles.rs`, `system.rs`, `net.rs`, `installation.rs` — clone and stow
    targets, system files, retry decisions, the steps of an installation run
  - `assoc.rs`, `text.rs` — key/value tables and text functions with their
    mathematical models
- `tests/` — tests of the library on concrete values
- `app/` — the program: command line, prompts, logging, and the steps that
  touch the system

`src/` states the laws of the library as public proof functions (their names
start with `law_`), next to the functions they speak of.
