//! Printing, then parsing: the proof that a script reads back from its
//! printed form.
//!
//! `shape` says which scripts the grammar yields; `yielded` and
//! `yielded_scene` show that it yields no others. `text`, `tokens`, `steps`
//! and `scene_steps` hold the facts on layout and on single rules;
//! `expression`, `scene` and `script` put them together; `law` states the
//! result for a script that was parsed.

pub mod expression;
pub mod floats;
pub mod law;
pub mod scene;
pub mod scene_steps;
pub mod script;
pub mod shape;
pub mod steps;
pub mod text;
pub mod tokens;
pub mod yielded;
pub mod yielded_scene;
