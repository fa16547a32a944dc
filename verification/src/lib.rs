//! A passthrough virtual filesystem core: the identity and handle tables,
//! attribute translation, and the per-operation dispatch logic that a mount
//! layer drives against a mirrored directory tree.

pub mod attrs;
pub mod dispatch;
pub mod errors;
pub mod flags;
pub mod handles;
pub mod identity;
pub mod path;
pub mod readdir;

pub use attrs::Attributes;
pub use attrs::FileKind;
pub use attrs::HostMetadata;
pub use attrs::TimeSpec;
pub use errors::FsError;
pub use errors::FsOp;
pub use flags::OpenIntent;
pub use handles::HandleTable;
pub use identity::IdentityTable;
pub use identity::ROOT_ID;
