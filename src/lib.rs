//! A terminal session launcher: named sessions read from a configuration
//! file that may import other files, listed by name or launched by name.
pub mod paths;
pub mod registry;
pub mod loader;
pub mod cli;

pub use cli::{plan, working_dir, Plan};
pub use loader::{load_all_sessions, ConfigDocument, Loader, Phase, Step};
pub use paths::{config_path_in, expand_tilde, expand_tilde_in, join_path, parent_of, resolve_import, sesh_config_path};
pub use registry::{contains_text, find_session, find_session_index, list_sessions, same_text, Session};
