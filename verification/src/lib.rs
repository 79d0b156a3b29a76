//! Resolution of AWS-style credential profiles.
//!
//! Profiles are declared across two INI files, a config file and a
//! credentials file. This crate turns their text into typed records, follows
//! the `source_profile` links between profiles, and classifies each profile
//! by the way it obtains working credentials: directly, by assuming a role in
//! one hop or in several, and whether an MFA session can be cached for it.
//!
//! The crate reads no file. Its entry points take the content of the files,
//! and every call builds its result afresh.

pub mod aggregate;
pub mod chain;
pub mod classify;
pub mod document;
pub mod error;
pub mod events;
pub mod header;
pub mod profile;
pub mod records;
pub mod table;
pub mod text;

pub use aggregate::{assemble_config, default_long_term_key_prefix, get_aws_config};
pub use chain::get_profile_list;
pub use classify::{
    get_cachable_profiles, get_usable_profiles, is_multi_stage_role_assuming_profile,
    is_single_role_assuming_profile,
};
pub use error::{ConfigError, SourceFile};
pub use events::{close_item_id, menu_action, reports_change, MenuAction};
pub use profile::{Config, Credential, Profile};
pub use header::profile_name;
pub use records::{credentials_from_sections, load_config, load_credentials, profiles_from_sections};
pub use table::Table;
pub use text::{has_prefix, same_text};
