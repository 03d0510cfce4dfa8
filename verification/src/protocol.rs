//! The envelope in which a command's outcome is told.
use vstd::prelude::*;

use crate::json::Json;

verus! {

pub const CLI_SCHEMA_V1: &'static str = "stcli.cli/v1";

/// The outcome of a command.
#[derive(Clone, Debug, Eq, PartialEq)]
pub struct CliEnvelope<T> {
    pub schema: String,
    pub ok: bool,
    pub command: String,
    pub data: Option<T>,
    pub error: Option<CliError>,
    pub warnings: Vec<CliWarning>,
}

/// Why a command failed.
#[derive(Clone, Debug, Eq, PartialEq)]
pub struct CliError {
    pub code: String,
    pub message: String,
    pub details: Option<Json>,
}

/// Something to know of a command that went through.
#[derive(Clone, Debug, Eq, PartialEq)]
pub struct CliWarning {
    pub code: String,
    pub message: String,
}

impl<T> CliEnvelope<T> {
    /// The envelope of a command that went through.
    pub fn success(command: String, data: T) -> (envelope: Self)
        ensures
            envelope.schema@ == CLI_SCHEMA_V1@,
            envelope.ok,
            envelope.command == command,
            envelope.data == Some(data),
            envelope.error is None,
            envelope.warnings@.len() == 0,
    {
        CliEnvelope {
            schema: CLI_SCHEMA_V1.to_owned(),
            ok: true,
            command,
            data: Some(data),
            error: None,
            warnings: Vec::new(),
        }
    }

    /// The envelope of a command that failed.
    pub fn failure(command: String, error: CliError) -> (envelope: Self)
        ensures
            envelope.schema@ == CLI_SCHEMA_V1@,
            !envelope.ok,
            envelope.command == command,
            envelope.data is None,
            envelope.error == Some(error),
            envelope.warnings@.len() == 0,
    {
        CliEnvelope {
            schema: CLI_SCHEMA_V1.to_owned(),
            ok: false,
            command,
            data: None,
            error: Some(error),
            warnings: Vec::new(),
        }
    }
}

} // verus!
