use crate::error::{outcome, Failure, FormatError};
use crate::formats::csv_format::{
    convert_csv_to_csv, convert_csv_to_json, convert_csv_to_toml, convert_csv_to_yaml, csv_to_csv,
    csv_to_json, csv_to_toml, csv_to_yaml,
};
use crate::formats::json_format::{
    convert_json_to_csv, convert_json_to_json, convert_json_to_toml, convert_json_to_yaml,
    json_to_csv, json_to_json, json_to_toml, json_to_yaml,
};
use crate::formats::toml_format::{
    convert_toml_to_csv, convert_toml_to_json, convert_toml_to_toml, convert_toml_to_yaml,
    toml_to_csv, toml_to_json, toml_to_toml, toml_to_yaml,
};
use crate::formats::yaml_format::{
    convert_yaml_to_csv, convert_yaml_to_json, convert_yaml_to_toml, convert_yaml_to_yaml,
    yaml_to_csv, yaml_to_json, yaml_to_toml, yaml_to_yaml,
};
use crate::text::{chars_of, reads_as, reads_as_word};
use vstd::prelude::*;

verus! {

/// The formats between which documents are converted.
#[derive(Clone, Copy, Debug, PartialEq, Eq, Structural)]
pub enum Format {
    Json,
    Toml,
    Yaml,
    Csv,
}

/// The format that a file extension names, in any case of letters: `json`,
/// `toml`, `yaml` or `yml`, `csv`.
pub open spec fn format_of(extension: Seq<char>) -> Option<Format> {
    if reads_as(extension, seq!['j', 's', 'o', 'n']) {
        Some(Format::Json)
    } else if reads_as(extension, seq!['t', 'o', 'm', 'l']) {
        Some(Format::Toml)
    } else if reads_as(extension, seq!['y', 'a', 'm', 'l']) || reads_as(
        extension,
        seq!['y', 'm', 'l'],
    ) {
        Some(Format::Yaml)
    } else if reads_as(extension, seq!['c', 's', 'v']) {
        Some(Format::Csv)
    } else {
        None
    }
}

/// The format that a file extension names.
pub fn format_for(extension: &str) -> (r: Option<Format>)
    ensures
        r == format_of(extension@),
{
    let letters = chars_of(extension);
    proof {
        reveal_strlit("json");
        reveal_strlit("toml");
        reveal_strlit("yaml");
        reveal_strlit("yml");
        reveal_strlit("csv");
        assert("json"@ =~= seq!['j', 's', 'o', 'n']);
        assert("toml"@ =~= seq!['t', 'o', 'm', 'l']);
        assert("yaml"@ =~= seq!['y', 'a', 'm', 'l']);
        assert("yml"@ =~= seq!['y', 'm', 'l']);
        assert("csv"@ =~= seq!['c', 's', 'v']);
    }
    if reads_as_word(&letters, "json") {
        Some(Format::Json)
    } else if reads_as_word(&letters, "toml") {
        Some(Format::Toml)
    } else if reads_as_word(&letters, "yaml") || reads_as_word(&letters, "yml") {
        Some(Format::Yaml)
    } else if reads_as_word(&letters, "csv") {
        Some(Format::Csv)
    } else {
        None
    }
}

/// A text of one format converted to another.
pub open spec fn converted(source: Format, target: Format, content: Seq<char>) -> Result<
    Seq<char>,
    Failure,
> {
    match source {
        Format::Json => match target {
            Format::Json => json_to_json(content),
            Format::Toml => json_to_toml(content),
            Format::Yaml => json_to_yaml(content),
            Format::Csv => json_to_csv(content),
        },
        Format::Toml => match target {
            Format::Json => toml_to_json(content),
            Format::Toml => toml_to_toml(content),
            Format::Yaml => toml_to_yaml(content),
            Format::Csv => toml_to_csv(content),
        },
        Format::Yaml => match target {
            Format::Json => yaml_to_json(content),
            Format::Toml => yaml_to_toml(content),
            Format::Yaml => yaml_to_yaml(content),
            Format::Csv => yaml_to_csv(content),
        },
        Format::Csv => match target {
            Format::Json => csv_to_json(content),
            Format::Toml => csv_to_toml(content),
            Format::Yaml => csv_to_yaml(content),
            Format::Csv => csv_to_csv(content),
        },
    }
}

/// Converts a text of one format to another.
pub fn convert(source: Format, target: Format, content: &str) -> (r: Result<String, FormatError>)
    ensures
        outcome(r) == converted(source, target, content@),
{
    match source {
        Format::Json => match target {
            Format::Json => convert_json_to_json(content),
            Format::Toml => convert_json_to_toml(content),
            Format::Yaml => convert_json_to_yaml(content),
            Format::Csv => convert_json_to_csv(content),
        },
        Format::Toml => match target {
            Format::Json => convert_toml_to_json(content),
            Format::Toml => convert_toml_to_toml(content),
            Format::Yaml => convert_toml_to_yaml(content),
            Format::Csv => convert_toml_to_csv(content),
        },
        Format::Yaml => match target {
            Format::Json => convert_yaml_to_json(content),
            Format::Toml => convert_yaml_to_toml(content),
            Format::Yaml => convert_yaml_to_yaml(content),
            Format::Csv => convert_yaml_to_csv(content),
        },
        Format::Csv => match target {
            Format::Json => convert_csv_to_json(content),
            Format::Toml => convert_csv_to_toml(content),
            Format::Yaml => convert_csv_to_yaml(content),
            Format::Csv => convert_csv_to_csv(content),
        },
    }
}

/// The format of a file by its extension: JSON for a file without one and
/// for one whose extension names no format.
pub open spec fn format_of_file(extension: Option<Seq<char>>) -> Format {
    match extension {
        Some(extension) => match format_of(extension) {
            Some(format) => format,
            None => Format::Json,
        },
        None => Format::Json,
    }
}

/// The conversion that two file extensions ask for: from the format of the
/// input file to that of the output file.
pub open spec fn routed(
    input_extension: Option<Seq<char>>,
    output_extension: Option<Seq<char>>,
    content: Seq<char>,
) -> Result<Seq<char>, Failure> {
    converted(format_of_file(input_extension), format_of_file(output_extension), content)
}

/// The format of a file by its extension.
pub fn format_for_file(extension: Option<&str>) -> (r: Format)
    ensures
        r == format_of_file(
            match extension {
                Some(extension) => Some(extension@),
                None => None,
            },
        ),
{
    match extension {
        Some(extension) => match format_for(extension) {
            Some(format) => format,
            None => Format::Json,
        },
        None => Format::Json,
    }
}

/// Converts the content of the input file to the format of the output
/// file, each format taken from the file's extension. A file is taken for
/// JSON where its extension is missing or names no format.
pub fn convert_based_on_extension(
    input_extension: Option<&str>,
    output_extension: Option<&str>,
    content: &str,
) -> (r: Result<String, FormatError>)
    ensures
        outcome(r) == routed(
            match input_extension {
                Some(extension) => Some(extension@),
                None => None,
            },
            match output_extension {
                Some(extension) => Some(extension@),
                None => None,
            },
            content@,
        ),
{
    let source = format_for_file(input_extension);
    let target = format_for_file(output_extension);
    convert(source, target, content)
}

} // verus!
