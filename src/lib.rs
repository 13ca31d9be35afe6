//! Cartridge images for a 64-bit game console: byte-order detection and
//! normalisation, the header checksum, the header layout, and assembling an
//! image from its parts.
pub mod cart;
pub mod header;
pub mod rom;
