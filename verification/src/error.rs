//! The error taxonomy of the library. Every failure of a top-level
//! operation is one of these variants, carrying the offending path or key
//! and, where an outside diagnostic exists, its text.

use vstd::prelude::*;

verus! {

#[derive(Clone, Debug)]
pub enum Error {
    /// A path that was expected to be a template directory is not one.
    NotADirectory { path: String },
    /// A metadata or settings file failed to parse; `detail` is the
    /// underlying diagnostic.
    ConfigParse { path: String, detail: String },
    /// A string variable received an empty value.
    RequiredValueMissing { key: String },
    /// A choice variable received a value outside its listed choices.
    InvalidChoice { key: String, value: String },
    /// A template failed to render; `path` names the source file.
    RenderError { path: String, detail: String },
    /// A filesystem operation failed.
    IoError { detail: String },
    /// The home directory could not be determined.
    NoHomeDirectory,
    /// No template with the requested identifier exists in the catalog.
    TemplateNotFound { id: String },
}

impl Error {
    /// The human-readable message for this error.
    pub fn message(&self) -> (r: String)
        ensures
            (match self {
                Error::NotADirectory { path } => r@ == "Path is not a directory: "@ + path@,
                Error::ConfigParse { path, detail } => r@ == "Failed to parse config file "@
                    + path@ + ":\n"@ + detail@,
                Error::RequiredValueMissing { key } => r@ == "Value is required for "@ + key@,
                Error::InvalidChoice { key, value } => r@ == "Value for "@ + key@
                    + " is not one of its choices: "@ + value@,
                Error::RenderError { path, detail } => r@ == "Failed to render template file "@
                    + path@ + ":\n"@ + detail@,
                Error::IoError { detail } => r@ == "Input/output failure: "@ + detail@,
                Error::NoHomeDirectory => r@ == "Could not determine home directory"@,
                Error::TemplateNotFound { id } => r@ == "Template not found: "@ + id@,
            }),
    {
        match self {
            Error::NotADirectory { path } => {
                let mut m = String::new();
                m.append("Path is not a directory: ");
                m.append(path.as_str());
                m
            },
            Error::ConfigParse { path, detail } => {
                let mut m = String::new();
                m.append("Failed to parse config file ");
                m.append(path.as_str());
                m.append(":\n");
                m.append(detail.as_str());
                m
            },
            Error::RequiredValueMissing { key } => {
                let mut m = String::new();
                m.append("Value is required for ");
                m.append(key.as_str());
                m
            },
            Error::InvalidChoice { key, value } => {
                let mut m = String::new();
                m.append("Value for ");
                m.append(key.as_str());
                m.append(" is not one of its choices: ");
                m.append(value.as_str());
                m
            },
            Error::RenderError { path, detail } => {
                let mut m = String::new();
                m.append("Failed to render template file ");
                m.append(path.as_str());
                m.append(":\n");
                m.append(detail.as_str());
                m
            },
            Error::IoError { detail } => {
                let mut m = String::new();
                m.append("Input/output failure: ");
                m.append(detail.as_str());
                m
            },
            Error::NoHomeDirectory => {
                let mut m = String::new();
                m.append("Could not determine home directory");
                m
            },
            Error::TemplateNotFound { id } => {
                let mut m = String::new();
                m.append("Template not found: ");
                m.append(id.as_str());
                m
            },
        }
    }
}

} // verus!
