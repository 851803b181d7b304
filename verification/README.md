# aws_profile_select

A Verus library behind an interactive AWS profile selector: it reads the
profiles of an AWS CLI configuration file and makes the selector's decisions,
with contracts proved by Verus.

- `src/parse.rs` — profiles from the INI text (loaded with the `config` crate),
  `[sso-session ...]` blocks left out, the `profile ` prefix removed, sorted by name.
- `src/profile.rs` — the `Profile` type, SSO detection and display labels.
- `src/sso.rs` — which profile `aws sso login` must refresh, and the login flow
  as a step function.
- `src/menu.rs` — grouping by environment and the interactive menu as a step function.
- `src/cli.rs`, `src/paths.rs` — shell wrappers, `--profile` checking, config file location.
- `src/text.rs` — verified text helpers (search, replace, order).
- `app/` — the program: argument parsing (clap), terminal prompts (dialoguer),
  environment, files and the `aws` command.
