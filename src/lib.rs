//! Host-side runtime for scripts that read and mutate a shared entity store:
//! the entity model, the mutation transaction engine and its commit driver,
//! the session variable store, and the decisions behind the host functions
//! that scripts call.
pub mod api;
pub mod assoc;
pub mod callback;
pub mod entity;
pub mod scripts_workplace;
pub mod session_cache;
pub mod text;
