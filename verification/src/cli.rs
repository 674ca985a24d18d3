//! The command surface as plain data: what the tool can be asked to do,
//! free of any argument-parsing machinery.

use vstd::prelude::*;

verus! {

/// Where a template is taken from.
#[derive(Clone, Copy, Debug, PartialEq, Eq, Structural)]
pub enum Source {
    Local,
    TemplateDir,
}

impl Default for Source {
    /// Templates come from the local catalog unless asked otherwise.
    fn default() -> (r: Self)
        ensures
            r == Source::Local,
    {
        Source::Local
    }
}

/// The options of a create-project invocation.
#[derive(Clone, Debug)]
pub struct CreateOptions {
    /// The path where the new project should be created.
    pub project_path: Option<String>,
    /// The template to use, by identifier; the inner option covers a bare
    /// flag with the choice left to a prompt.
    pub template: Option<Option<String>>,
    /// A directory holding a template, bypassing the catalog.
    pub template_dir: Option<Option<String>>,
    /// Overwrite existing files in the destination directory.
    pub force: bool,
}

/// One invocation of the tool.
#[derive(Clone, Debug)]
pub enum Commands {
    Create(CreateOptions),
    List,
    Edit,
    Init,
}

/// The parsed command line.
#[derive(Clone, Debug)]
pub struct Cli {
    pub command: Commands,
}

} // verus!
