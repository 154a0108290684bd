//! Compiles JSX component trees into template markup and runtime patch
//! calls.
//!
//! A host element, with everything static inside it, becomes one string of
//! markup in which a placeholder marks each dynamic point. An embedded
//! expression and a nested component become bindings: a value with the path
//! of sibling indices that leads to its placeholder in the instantiated
//! template. The element itself is replaced by a call of `$render` with the
//! markup and, for each binding, a call of `$insert`; a component is
//! replaced by a call of the component with its props.
//!
//! - [`ast`] is the syntax that is read and written.
//! - [`text`] is the whitespace rule for JSX text.
//! - [`markup`], [`path`] and [`frame`] are what a template is made of.
//! - [`transform`] says what the transform computes and what holds of it.
//! - [`lowering`] is the walk that computes it.
//! - [`assembly`] builds the calls.
//! - [`bundle`] joins the statements of many units into one program.
//! - [`registry`] finds the source of a component by its name.
//! - [`preview`] decides which port a preview is served on.

pub mod assembly;
pub mod ast;
pub mod bundle;
pub mod frame;
pub mod lowering;
pub mod markup;
pub mod path;
pub mod preview;
pub mod registry;
pub mod text;
pub mod transform;

pub use bundle::Bundle;
pub use registry::{get_component, Component};
