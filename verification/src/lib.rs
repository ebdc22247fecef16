//! The rules by which uv installs, finds and upgrades command-line tools.
//!
//! Paths are texts with `/` between their components, as on Unix. Nothing here reads or writes
//! files, asks for the environment or prints: callers do that, and hand the results in.
//!
//! The modules that end in `_laws` state what holds of calls of these functions, whatever they are
//! handed: a law that speaks of a call takes its arguments and its result as they are.

pub mod directories;
pub mod directory_laws;
pub mod disk_laws;
pub mod entry_laws;
pub mod error;
pub mod error_laws;
pub mod installed;
pub mod installed_laws;
pub mod name;
pub mod order;
pub mod package_laws;
pub mod path;
pub mod path_laws;
pub mod relative;
pub mod resource_laws;
pub mod resources;
pub mod site_packages;
pub mod step_laws;
pub mod text_laws;
pub mod upgrade;
pub mod upgrade_laws;
pub mod wheel;
pub mod wheel_laws;

pub use crate::directories::{find_executable_directory, find_manpage_directory};
pub use crate::error::Error;
pub use crate::installed::{InstalledTool, InstalledTools};
pub use crate::name::PackageName;
pub use crate::resources::{entrypoint_paths, find_resources, resource_paths, Resource};
pub use crate::upgrade::upgrade;
pub use crate::wheel::BuiltWheelMetadata;
