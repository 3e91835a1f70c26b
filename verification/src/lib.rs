pub mod ast;
pub mod program;
pub mod semantics;
pub mod interpreter;
pub mod tuple_ops;
pub mod guards;
pub mod step;
pub mod perms;
pub mod sync;
pub mod run;
pub mod collections;
pub mod order;
pub mod free_vars;
pub mod codegen;
pub mod layout;
pub mod compile;
pub mod inspect;
pub mod validate;
pub mod text;
pub mod ltl;
pub mod shape;
pub mod halts;
pub mod laws;
pub mod validated;
pub mod guard_laws;
pub mod sync_laws;
pub mod code_laws;
pub mod behaviour_laws;
pub mod broadcast_laws;
pub mod state_text;
pub mod show;
pub mod show_program;
