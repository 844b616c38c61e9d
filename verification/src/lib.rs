//! Workspace, board and annotation logic of a terminal kanban board.

#![verifier::loop_isolation(false)]

pub mod credentials;
pub mod domain;
pub mod models;
pub mod storage;
pub mod scan;
pub mod text;
pub mod tui;
pub mod workspace;
