//! The errors that end a run, what is printed for each, and the exit status.
use vstd::prelude::*;
use vstd::string::*;

verus! {

/// Why a run ended early.
#[derive(Debug, PartialEq, Eq)]
pub enum SiteBuilderError {
    /// A required configuration file is missing or malformed; holds what is
    /// wrong.
    CfgError(String),
    /// A call to the remote site failed; holds the cause.
    NeocitiesError(String),
    /// Reading or writing a local file failed; holds the cause.
    IoError(String),
    /// Walking the site directory failed; holds the cause.
    WalkError(String),
    /// A path is not valid Unicode, or does not lie under the site directory;
    /// holds the path.
    PathError(String),
    /// A file's extension is missing or not allowed; holds the path.
    ExtensionError(String),
    /// The command line was not understood.
    ArgumentError,
    /// Nothing was left to do, as after printing the usage.
    EarlyExit,
}

/// The mathematical value of a `SiteBuilderError`.
pub enum ErrorView {
    CfgError(Seq<char>),
    NeocitiesError(Seq<char>),
    IoError(Seq<char>),
    WalkError(Seq<char>),
    PathError(Seq<char>),
    ExtensionError(Seq<char>),
    ArgumentError,
    EarlyExit,
}

impl View for SiteBuilderError {
    type V = ErrorView;

    open spec fn view(&self) -> ErrorView {
        match self {
            SiteBuilderError::CfgError(s) => ErrorView::CfgError(s@),
            SiteBuilderError::NeocitiesError(s) => ErrorView::NeocitiesError(s@),
            SiteBuilderError::IoError(s) => ErrorView::IoError(s@),
            SiteBuilderError::WalkError(s) => ErrorView::WalkError(s@),
            SiteBuilderError::PathError(s) => ErrorView::PathError(s@),
            SiteBuilderError::ExtensionError(s) => ErrorView::ExtensionError(s@),
            SiteBuilderError::ArgumentError => ErrorView::ArgumentError,
            SiteBuilderError::EarlyExit => ErrorView::EarlyExit,
        }
    }
}

impl ErrorView {
    /// The one-line description of the error.
    pub open spec fn message(self) -> Seq<char> {
        match self {
            ErrorView::CfgError(_) => "missing config error"@,
            ErrorView::NeocitiesError(_) => "neocities API error"@,
            ErrorView::IoError(_) => "fs error"@,
            ErrorView::WalkError(_) => "wakdir error"@,
            ErrorView::PathError(_) => "path contained invalid unicode"@,
            ErrorView::ExtensionError(_) => "invalid or missing file extension"@,
            ErrorView::ArgumentError => "argument error"@,
            ErrorView::EarlyExit => "not an error"@,
        }
    }

    /// What the error holds besides its kind.
    pub open spec fn detail(self) -> Option<Seq<char>> {
        match self {
            ErrorView::CfgError(s) => Some(s),
            ErrorView::NeocitiesError(s) => Some(s),
            ErrorView::IoError(s) => Some(s),
            ErrorView::WalkError(s) => Some(s),
            ErrorView::PathError(s) => Some(s),
            ErrorView::ExtensionError(s) => Some(s),
            ErrorView::ArgumentError => None,
            ErrorView::EarlyExit => None,
        }
    }

    /// The status with which the process ends: 0 where nothing failed, 2 for
    /// a misuse of the command line, 1 for every other error.
    pub open spec fn exit_code(self) -> int {
        match self {
            ErrorView::EarlyExit => 0,
            ErrorView::ArgumentError => 2,
            _ => 1,
        }
    }

    /// The lines printed for the error: its description, then its detail.
    pub open spec fn report(self) -> Seq<Seq<char>> {
        match self.detail() {
            Some(d) => seq![self.message(), d],
            None => seq![self.message()],
        }
    }
}

impl SiteBuilderError {
    /// The one-line description of the error.
    pub fn message(&self) -> (r: String)
        ensures
            r@ == self@.message(),
    {
        match self {
            SiteBuilderError::CfgError(_) => "missing config error".to_owned(),
            SiteBuilderError::NeocitiesError(_) => "neocities API error".to_owned(),
            SiteBuilderError::IoError(_) => "fs error".to_owned(),
            SiteBuilderError::WalkError(_) => "wakdir error".to_owned(),
            SiteBuilderError::PathError(_) => "path contained invalid unicode".to_owned(),
            SiteBuilderError::ExtensionError(_) => "invalid or missing file extension".to_owned(),
            SiteBuilderError::ArgumentError => "argument error".to_owned(),
            SiteBuilderError::EarlyExit => "not an error".to_owned(),
        }
    }

    /// What the error holds besides its kind.
    pub fn detail(&self) -> (r: Option<String>)
        ensures
            r is Some == self@.detail() is Some,
            r is Some ==> r->0@ == self@.detail()->0,
    {
        match self {
            SiteBuilderError::CfgError(s) => Some(s.clone()),
            SiteBuilderError::NeocitiesError(s) => Some(s.clone()),
            SiteBuilderError::IoError(s) => Some(s.clone()),
            SiteBuilderError::WalkError(s) => Some(s.clone()),
            SiteBuilderError::PathError(s) => Some(s.clone()),
            SiteBuilderError::ExtensionError(s) => Some(s.clone()),
            SiteBuilderError::ArgumentError => None,
            SiteBuilderError::EarlyExit => None,
        }
    }

    /// The status with which the process ends after this error.
    pub fn exit_code(&self) -> (r: i32)
        ensures
            r == self@.exit_code(),
    {
        match self {
            SiteBuilderError::EarlyExit => 0,
            SiteBuilderError::ArgumentError => 2,
            _ => 1,
        }
    }

    /// The lines to print for the error.
    pub fn report(&self) -> (r: Vec<String>)
        ensures
            crate::text::views(r@) == self@.report(),
    {
        let mut lines: Vec<String> = Vec::new();
        lines.push(self.message());
        match self.detail() {
            Some(d) => {
                lines.push(d);
            },
            None => {},
        }
        lines
    }
}

/// The error for a missing or malformed piece of configuration.
pub fn cfg_error(err: &str) -> (e: SiteBuilderError)
    ensures
        e@ == ErrorView::CfgError(err@),
{
    SiteBuilderError::CfgError(err.to_owned())
}

} // verus!
