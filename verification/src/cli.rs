//! The command surface of the `hf-export` subcommand, as plain data.
//!
//! The argument parser itself is an outside concern; callers render this
//! description with whatever command-line library they use and hand the
//! parsed values back to the pipeline.

use vstd::prelude::*;

verus! {

/// One argument of the command: positional, or named when `long` is set.
pub struct ArgSpec {
    pub name: String,
    pub long: bool,
    pub is_flag: bool,
    pub required: bool,
    pub value_name: Option<String>,
    pub help: String,
    pub default_value: Option<String>,
}

/// The whole subcommand: its name, its summary, its arguments in order.
pub struct CommandSpec {
    pub name: String,
    pub about: String,
    pub args: Vec<ArgSpec>,
}

/// Describes the `hf-export` command surface: the project path, the
/// output directory, the dependency switch and the phase selector.
pub fn cli() -> (c: CommandSpec)
    ensures
        c.name@ == "hf-export"@,
        c.about@ == "Extracts Cargo project data for Hugging Face datasets"@,
        c.args@.len() == 4,
        c.args@[0].name@ == "path"@ && !c.args@[0].long && c.args@[0].required && !c.args@[0]
            .is_flag,
        c.args@[1].name@ == "output"@ && !c.args@[1].long && !c.args@[1].required && (c.args@[1]
            .default_value matches Some(d) && d@ == "hf-dataset-output"@),
        c.args@[2].name@ == "include-deps"@ && c.args@[2].long && c.args@[2].is_flag && !c.args@[
            2].required && c.args@[2].default_value is None,
        c.args@[3].name@ == "phases"@ && c.args@[3].long && !c.args@[3].required && (c.args@[3]
            .default_value matches Some(d) && d@
            == "metadata,dependencies,source_code,build,ecosystem,version_history"@),
{
    let mut args: Vec<ArgSpec> = Vec::new();
    args.push(
        ArgSpec {
            name: "path".to_owned(),
            long: false,
            is_flag: false,
            required: true,
            value_name: Some("PATH".to_owned()),
            help: "Path to the Cargo project root (containing Cargo.toml)".to_owned(),
            default_value: None,
        },
    );
    args.push(
        ArgSpec {
            name: "output".to_owned(),
            long: false,
            is_flag: false,
            required: false,
            value_name: Some("OUTPUT_DIR".to_owned()),
            help: "Directory where phase table files will be written".to_owned(),
            default_value: Some("hf-dataset-output".to_owned()),
        },
    );
    args.push(
        ArgSpec {
            name: "include-deps".to_owned(),
            long: true,
            is_flag: true,
            required: false,
            value_name: None,
            help: "Recursively analyze dependencies".to_owned(),
            default_value: None,
        },
    );
    args.push(
        ArgSpec {
            name: "phases".to_owned(),
            long: true,
            is_flag: false,
            required: false,
            value_name: Some("PHASES".to_owned()),
            help: "Comma-separated list of phases to extract (e.g., metadata,dependencies)"
                .to_owned(),
            default_value: Some(
                "metadata,dependencies,source_code,build,ecosystem,version_history".to_owned(),
            ),
        },
    );
    CommandSpec {
        name: "hf-export".to_owned(),
        about: "Extracts Cargo project data for Hugging Face datasets".to_owned(),
        args,
    }
}

} // verus!
