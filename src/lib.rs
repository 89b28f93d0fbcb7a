//! Reading and interpreting the memory of an emulated game process: a bounded
//! accessor over a two-region 32-bit address space, and a schema-driven decoder
//! that turns a catalog of class layouts into flat lists of field readers.

pub mod addr;
pub mod text;
pub mod mem_addr;
pub mod big_endian;
pub mod encoding;
pub mod dolphin;
pub mod backend;
pub mod vt;
pub mod sms;
pub mod field_reader;
pub mod obj_params;
pub mod api;
