//! Compiles a compact permission string into a sandbox policy for a child process.
//!
//! The permission string is split into key/value pairs, each field is unescaped,
//! the pairs become typed permissions, and the permissions are compiled into a
//! textual policy document.

pub mod codec;
pub mod error;
pub mod launcher;
pub mod permissions;
pub mod policy;
pub mod tokenizer;

pub use codec::{decode, encode};
pub use error::{ParseError, SandboxExecError};
pub use launcher::{exit_code, fallback_decision, launch_outcome};
pub use permissions::{parse_permissions, unescape_str, Permission, PermissionView};
pub use policy::{build_profile, escape_path, grant_for, resolve_grants, CanonicalPath, Grant, GrantView};
pub use tokenizer::parse_key_value;
