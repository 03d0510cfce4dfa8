//! Settings and actions that an extension declares for its users.
//!
//! A declaration is read from the settings schema of a bridge extension. A
//! surface shows it for one session, with the values in force, and a
//! submission edits those values or runs an action.

pub mod declaration;
pub mod schema;
pub mod settings;
pub mod submission;
pub mod submission_laws;
pub mod surface;
pub mod value;
