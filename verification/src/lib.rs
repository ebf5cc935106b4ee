//! Verified core logic of a zero-knowledge ledger and its virtual machine: solution limits
//! per epoch, block and subdag checks, consensus-version lookups, the call stack, registers
//! and finalize types of program execution, the third round of the prover, the encoding of
//! batch certificates, and the execution helpers.

pub mod call_stack;
pub mod certificate_bytes;
pub mod consensus;
pub mod finalize_types;
pub mod index_map;
pub mod io_error;
pub mod ledger;
pub mod lineval;
pub mod parallel;
pub mod program;
pub mod records;
pub mod registers;
pub mod solutions;
pub mod sorting;
pub mod subdag;
pub mod table;
pub mod types;
