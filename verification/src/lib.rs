//! Decision logic of srcbot, a companion to nixpkgs-review.

pub mod attr_map;
pub mod cache;
pub mod check_all;
pub mod cli;
pub mod commands;
pub mod fix_hash;
pub mod full_eval;
pub mod full_eval_types;
pub mod full_run;
pub mod git;
pub mod github;
pub mod nix;
pub mod numbers;
pub mod order;
pub mod outside;
pub mod remote_gc;
pub mod search;
pub mod simple;
pub mod store_delete;
pub mod summary;
pub mod system_build;
pub mod text;
pub mod trim;
pub mod types;
