//! Artifacts: their kinds, identities and contents.
pub mod bundle;
pub mod charx;
pub mod exif;
pub mod keeping;
pub mod kind;
pub mod octets;
pub mod png;
pub mod preset_patch;
pub mod revision;
pub mod validate;
pub mod webp;
pub mod xmp;
