//! Execution core of a shell whose pipelines carry typed rows.
//!
//! `lang` holds the values and their types, rows and schemas, the bounded
//! row stream between two stages, and the arena of scopes with its lookup
//! through imports and parents. `commands` holds the life cycle of a
//! command, the scope a closure is entered in, and the row-limiting,
//! filtering, tokenizing and variable commands.

pub mod lang;
pub mod commands;
