//! The error taxonomy. Every fallible operation reports one kind from
//! `Zerr` together with human-readable notes.
use vstd::prelude::*;

verus! {

/// All error kinds propagated through the system; everything other than
/// `InternalError` points at a user problem.
#[derive(Clone, Copy, Debug, PartialEq, Eq, Structural)]
pub enum Zerr {
    /// Something wrong with reading or parsing the config file.
    ConfigInvalid,
    /// Config already exists at the target location and init was attempted.
    ConfigExistsError,
    /// Something wrong with the supplied render root directory.
    RootError,
    /// A user-configured command returned a non-zero exit code.
    UserCommandError,
    /// A user variable cannot be coerced to the requested kind.
    CoercionError,
    /// User context cannot be loaded correctly.
    ContextLoadError,
    /// Errors with a user-supplied extension function.
    CustomPyFunctionError,
    /// A failure while rendering templates; a problem with the templates.
    RenderTemplateError,
    /// A variable requested with the var command does not exist.
    ReadVarMissing,
    /// The file subcommand was called incorrectly.
    FileCmdUsageError,
    /// A user-specified file cannot be found.
    FileNotFound,
    /// A user-specified file does not match the expected syntax.
    FileSyntaxError,
    /// A user-specified path does not match the file's structure.
    FilePathError,
    /// A put value cannot be used in the current context.
    InvalidPutValue,
    /// A user task called back into a task-bearing command.
    TaskRecursionError,
    /// An unexpected internal error; a defect, not a user mistake.
    InternalError,
}

/// An error kind together with attached human-readable notes.
#[derive(Debug)]
pub struct Report {
    pub kind: Zerr,
    pub notes: Vec<String>,
}

impl Report {
    pub fn new(kind: Zerr) -> (r: Report)
        ensures
            r.kind == kind,
            r.notes@.len() == 0,
    {
        Report { kind, notes: Vec::new() }
    }

    /// Attach one more note, keeping the kind.
    pub fn note(self, text: String) -> (r: Report)
        ensures
            r.kind == self.kind,
            r.notes@ == self.notes@.push(text),
    {
        let mut notes = self.notes;
        notes.push(text);
        Report { kind: self.kind, notes }
    }
}

/// A generic error for callers that do not want an error type of their own.
#[derive(Clone, Copy, Debug, Default, PartialEq, Eq, Hash, Structural)]
pub struct AnyErr;

} // verus!
