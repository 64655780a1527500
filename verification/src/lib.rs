//! Operating-mode lifecycle for a git-backed workspace tool that lets a
//! user temporarily detach one historical commit for isolated editing and
//! then fold the edit back into its branch history.
//!
//! The core is a state machine over a model of the repository state the
//! mode machinery reads and writes: commit objects with their first parent,
//! tree and provenance payload; named references; HEAD's symbolic target;
//! the working tree content; and the raw bytes of the persisted edit
//! metadata. Tree content itself is uninterpreted: a tree identifier stands
//! for one content snapshot, and two trees are the same content exactly
//! when their identifiers are equal. Reading and writing a real object
//! store, the working directory and the metadata file are the embedding
//! program's concern; the model keeps their state and the logic between
//! them.
//!
//! On top of the model stand the mode resolver ([`modes`]), which derives
//! one of three mutually exclusive modes from HEAD and the metadata alone,
//! the persisted-metadata codec ([`metadata`]), and the two multi-step
//! transitions that enter and leave edit mode ([`transitions`]), each
//! specified step by step against the abstract state, failures included.

pub mod access;
pub mod error;
pub mod hex;
pub mod ids;
pub mod metadata;
pub mod modes;
pub mod refname;
pub mod repo;
pub mod transitions;
pub mod watcher;
