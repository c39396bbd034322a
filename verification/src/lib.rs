//! An idempotent text patcher for JavaScript build-configuration files.
//!
//! A [`patcher::PatchRule`] names an import line to ensure at the top of a file
//! and an expression to insert as the first element of a named array literal
//! (`plugins: [...]`) somewhere in that file. Content that already holds the
//! rule's marker — the imported module path — counts as patched and is left
//! alone. [`patcher::patch`] applies a rule to file contents, or to an absent
//! file, and is safe to re-apply: patching the output of a successful patch
//! returns it unchanged.

pub mod laws;
pub mod patcher;
pub mod scan;
