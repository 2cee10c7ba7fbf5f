//! A single-user to-do list: tasks with a description, a completion flag and
//! a priority, the commands that edit the list, and the flat text format the
//! list is kept in between runs.
pub mod commands;
pub mod index;
pub mod priority;
pub mod storage;
pub mod task;
pub mod text;
