//! FITS files: bit streams, the RICE_1 tile codec, header units, compressed copies.

pub mod bits;
pub mod cards;
pub mod copy_laws;
pub mod copy_reads_back;
pub mod extension;
pub mod file_bytes;
pub mod header;
pub mod header_laws;
pub mod mef_writer;
pub mod rice;
pub mod rice_encode;
pub mod rice_laws;
pub mod writing_laws;
