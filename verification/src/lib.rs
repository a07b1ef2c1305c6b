//! An intermediate representation (IR) builder for ONNX-style computation
//! graphs: a model's operator list, constant initializers and declared value
//! shapes are turned into a directed acyclic node graph, deduplicated by
//! output name, ready for a compilation backend.

pub mod ir;
pub mod name_map;
pub mod onnx;
pub mod onnx_model;
pub mod tensor;
