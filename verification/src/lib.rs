//! Account registration, password checking and login sessions.
//!
//! The crate keeps user accounts and their sessions in memory and states, for
//! every operation, what it returns and how it changes the stores. Each data
//! type has a mathematical view; the contracts and the laws proved about the
//! operations are written over those views.
//!
//! - `identity`: the canonical form of a display name.
//! - `password`: salted hashes, their verification, comparison in constant
//!   time.
//! - `token`: the text of a session token and why no token comes twice.
//! - `account`, `session`: the two stores with their invariants.
//! - `credentials`: what a client presents, and which of two tokens counts.
//! - `service`: registration, login, lookup, logout and deletion.
//! - `laws`: what holds of runs of operations.
//! - `entropy`, `text`, `sequences`: random bytes, strings, and facts about
//!   sequences.
//!
//! Three things are taken on trust and marked where they stand: what PBKDF2
//! computes (`password`), that the system's random source fills the buffer it
//! is given (`entropy`), and that `String::push` appends (`text`).
//!
//! Every operation on a store or on the service takes the value's invariant
//! `wf()` and hands it on. The constructors establish it and the fields are
//! private, so a value made through this crate always has it.

pub mod error;
pub mod account;
pub mod credentials;
pub mod entropy;
pub mod identity;
pub mod laws;
pub mod password;
pub mod sequences;
pub mod service;
pub mod session;
pub mod text;
pub mod token;

pub use account::{Account, AccountStore};
pub use credentials::{select_token, UserCredentials};
pub use error::{AuthError, ConflictKind, Missing};
pub use identity::canonicalize;
pub use password::{PasswordHash, PasswordHasher};
pub use service::AuthenticationService;
pub use session::{Session, SessionStore};
