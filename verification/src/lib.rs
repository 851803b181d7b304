//! Reading AWS CLI profiles out of an INI configuration file and the decisions
//! of an interactive profile selector, stated and proved with Verus.

pub mod cli;
pub mod config_source;
pub mod menu;
pub mod parse;
pub mod paths;
pub mod profile;
pub mod sso;
pub mod text;

pub use cli::{check_requested_profile, export_line, init_output, shell_init, Cli, Shell};
pub use config_source::{ConfigEntry, ConfigField};
pub use menu::{group_by_environment, EnvironmentGroup, MenuLevel, MenuStep, ProfileMenu};
pub use parse::{parse_profiles, profile_from_entry, profiles_from_entries, ProfilesError};
pub use paths::{config_path_with_separator, resolve_config_path, ConfigPathError};
pub use profile::Profile;
pub use sso::{sso_login_profile, sso_login_step, SsoLoginError, SsoLoginEvent, SsoLoginStep};
