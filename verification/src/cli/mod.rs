//! What the command-line tool decides and prints, without its I/O.

pub mod host;
pub mod judge;
pub mod output;

use crate::config::{Config, ConfigModel, Tiers, TiersModel};
use crate::error::Error;
use crate::extract::LOCAL_MODEL;
use vstd::prelude::*;
use vstd::string::*;

verus! {

/// The standard model group of the default configuration.
pub const DEFAULT_STANDARD_MODEL: &'static str = "mistral-ocr";

/// The tier table used when no configuration is given.
pub fn default_config() -> (r: Config)
    ensures
        r@ == ConfigModel::defaults(
            TiersModel {
                local: LOCAL_MODEL@,
                standard: DEFAULT_STANDARD_MODEL@,
                premium: None,
            },
        ),
{
    Config::new(Tiers::new(LOCAL_MODEL, DEFAULT_STANDARD_MODEL))
}

/// Why a configuration file could not be used.
#[derive(Debug)]
pub enum ConfigLoadError {
    /// The file could not be read.
    Read {
        /// The path as given on the command line.
        path: String,
        /// What the system reported.
        detail: String,
    },
    /// The file is not a valid configuration.
    Parse {
        /// The path as given on the command line.
        path: String,
        /// The underlying validation failure.
        error: Error,
    },
}

impl ConfigLoadError {
    /// How the error reads.
    pub open spec fn text(self) -> Seq<char> {
        match self {
            ConfigLoadError::Read { path, detail } => "could not read config "@ + path@ + ": "@
                + detail@,
            ConfigLoadError::Parse { path, error } => "invalid config "@ + path@ + ": "@
                + error@.text(),
        }
    }

    /// How the error reads.
    pub fn message(&self) -> (r: String)
        ensures
            r@ == self.text(),
    {
        match self {
            ConfigLoadError::Read { path, detail } => {
                let mut text: String = "could not read config ".to_owned();
                text.append(path.as_str());
                text.append(": ");
                text.append(detail.as_str());
                text
            },
            ConfigLoadError::Parse { path, error } => {
                let mut text: String = "invalid config ".to_owned();
                text.append(path.as_str());
                text.append(": ");
                text.append(error.message().as_str());
                text
            },
        }
    }
}

/// What is used when no configuration is given: the local extractor, one standard model and no
/// premium one, with every other setting at its default.
pub proof fn what_is_used_without_a_configuration(made: Config)
    requires
        call_ensures(default_config, (), made),
    ensures
        made@.tiers.local == "local_pdf/extract"@,
        made@.tiers.premium is None,
        made@ == ConfigModel::defaults(made@.tiers),
{
}

} // verus!
