//! The verified core of a small 2D scene editor: pawns placed in a world,
//! selection and drag-to-move editing, an undo/redo history of moves, an
//! action history for user-defined actions, and an asset store that queues
//! texture loads and keeps a manifest of what was loaded.
//!
//! Everything that draws, reads input, does floating-point geometry or
//! touches the file system lives outside this crate; the types here are
//! generic over the transform, sprite, camera and texture types that such
//! code supplies.

pub mod action;
pub mod asset;
pub mod command;
pub mod editor;
pub mod save;
pub mod sprite;
pub mod uid;
pub mod world;
