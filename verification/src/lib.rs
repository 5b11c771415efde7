//! Decoder for JVM class files and for the type descriptors they carry.
//!
//! [`class::decode`] turns the bytes of a class file into a [`class::Class`]: header, constant
//! pool, interfaces, fields and methods with their attributes. [`descriptor::read_type`] turns
//! a descriptor such as `(IZI)I` into a [`descriptor::Type`]. Every decoder is verified against
//! a definition of the format over byte sequences, and returns an error for input that does
//! not follow it.

pub mod attributes;
pub mod class;
pub mod constant_pool;
pub mod descriptor;
pub mod descriptor_text;
pub mod error;
pub mod mutf8;
pub mod reader;
pub mod truncation;
