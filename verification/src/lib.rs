//! Verified core of a sandbox syscall layer: the interposition handler
//! table, per-cage library tables, the stack-arena registry, logger
//! configuration parsing, in-memory pipes and sockets, and the
//! process-shared semaphore table.

pub mod consts;
pub mod handler_table;
pub mod maputil;
pub mod concurrent;
pub mod threei;
pub mod cage_copy;
pub mod lib_tables;
pub mod stack_arena;
pub mod strings;
pub mod logging;
pub mod ring;
pub mod bytequeue;
pub mod inmem_ipc;
pub mod sem;
pub mod waitpid;
pub mod memcalls;
pub mod netcalls;
pub mod sigcalls;
pub mod laws;
