pub mod csv_format;
pub mod json_format;
pub mod toml_format;
pub mod yaml_format;
