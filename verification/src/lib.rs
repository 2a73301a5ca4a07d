//! Core interaction logic of a terminal task manager: cyclic tab and list
//! selection, the guided multi-field input flow that builds a task record,
//! and the textual persistence format for the task list.

pub mod codec;
pub mod controller;
pub mod list;
pub mod tabs;
pub mod task;
