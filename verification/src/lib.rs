//! Verified ARMv7 pieces of a small kernel:
//! - `page_table_entry`: short-descriptor translation table entries and
//!   their attribute and permission flags;
//! - `page_table`: the paging metadata of AArch32 translation tables;
//! - `mlfq`: a multi-level feedback queue scheduler;
//! - `cpu`: the register arithmetic behind interrupt masking, the page
//!   table root and TLB invalidation;
//! - `volume`: the decisions of a piecewise-read ext2 volume;
//! - `workload`: the CPU-bound workload of the starvation test.
pub mod cpu;
pub mod mlfq;
pub mod page_table;
pub mod page_table_entry;
pub mod volume;
pub mod workload;
