//! Conversion of documents between JSON, YAML, TOML and CSV.
//!
//! Every conversion goes through one form, [`value::Value`]. Cells of a
//! table get their types by [`infer::infer`]; nested mappings become flat
//! records by [`path::flatten`] and come back by [`path::nest`]; records
//! with different keys become one table by [`table::project`]; and
//! [`root`] fits the outermost shape of a document to what a format can
//! hold. The texts themselves are read and written by `serde_json`,
//! `serde_yaml`, `toml` and `csv`, in [`formats`].

pub mod bridge;
pub mod decimal;
pub mod error;
pub mod formats;
pub mod infer;
pub mod inverse;
pub mod number;
pub mod path;
pub mod record;
pub mod root;
pub mod route;
pub mod table;
pub mod text;
pub mod value;
