//! The application's error type and the messages it displays.
use vstd::prelude::*;
use crate::text::{chars_of, concat2, contains_chars, owned, seq_contains};

verus! {

/// Every failure the application reports, grouped by where it arises.
#[derive(Debug, Clone, PartialEq, Eq)]
pub enum AppError {
    DatabaseConnection(String),
    DatabaseQuery(String),
    DatabaseRebuild(String),
    FileNotFound(String),
    FilePermission(String),
    FileWrite(String),
    FileRead(String),
    InvalidNoteName(String),
    PathTraversal,
    InvalidPath(String),
    ConfigLoad(String),
    ConfigSave(String),
    SearchIndex(String),
    SearchQuery(String),
    WindowOperation(String),
}

/// The mathematical value of an [`AppError`]: its variant and the characters it carries.
pub enum AppErrorView {
    DatabaseConnection(Seq<char>),
    DatabaseQuery(Seq<char>),
    DatabaseRebuild(Seq<char>),
    FileNotFound(Seq<char>),
    FilePermission(Seq<char>),
    FileWrite(Seq<char>),
    FileRead(Seq<char>),
    InvalidNoteName(Seq<char>),
    PathTraversal,
    InvalidPath(Seq<char>),
    ConfigLoad(Seq<char>),
    ConfigSave(Seq<char>),
    SearchIndex(Seq<char>),
    SearchQuery(Seq<char>),
    WindowOperation(Seq<char>),
}

impl View for AppError {
    type V = AppErrorView;

    open spec fn view(&self) -> AppErrorView {
        match self {
            AppError::DatabaseConnection(m) => AppErrorView::DatabaseConnection(m@),
            AppError::DatabaseQuery(m) => AppErrorView::DatabaseQuery(m@),
            AppError::DatabaseRebuild(m) => AppErrorView::DatabaseRebuild(m@),
            AppError::FileNotFound(m) => AppErrorView::FileNotFound(m@),
            AppError::FilePermission(m) => AppErrorView::FilePermission(m@),
            AppError::FileWrite(m) => AppErrorView::FileWrite(m@),
            AppError::FileRead(m) => AppErrorView::FileRead(m@),
            AppError::InvalidNoteName(m) => AppErrorView::InvalidNoteName(m@),
            AppError::PathTraversal => AppErrorView::PathTraversal,
            AppError::InvalidPath(m) => AppErrorView::InvalidPath(m@),
            AppError::ConfigLoad(m) => AppErrorView::ConfigLoad(m@),
            AppError::ConfigSave(m) => AppErrorView::ConfigSave(m@),
            AppError::SearchIndex(m) => AppErrorView::SearchIndex(m@),
            AppError::SearchQuery(m) => AppErrorView::SearchQuery(m@),
            AppError::WindowOperation(m) => AppErrorView::WindowOperation(m@),
        }
    }
}

/// A result whose error is taken by its view.
pub open spec fn result_view<T>(r: Result<T, AppError>) -> Result<T, AppErrorView> {
    match r {
        Ok(t) => Ok(t),
        Err(e) => Err(e@),
    }
}

/// The text shown for an error: a prefix naming its kind, then its details.
pub open spec fn error_text(e: AppErrorView) -> Seq<char> {
    match e {
        AppErrorView::DatabaseConnection(m) => "Database connection error: "@ + m,
        AppErrorView::DatabaseQuery(m) => "Database query error: "@ + m,
        AppErrorView::DatabaseRebuild(m) => "Database rebuild error: "@ + m,
        AppErrorView::FileNotFound(m) => "File not found: "@ + m,
        AppErrorView::FilePermission(m) => "File permission error: "@ + m,
        AppErrorView::FileWrite(m) => "File write error: "@ + m,
        AppErrorView::FileRead(m) => "File read error: "@ + m,
        AppErrorView::InvalidNoteName(m) => "Invalid note name: "@ + m,
        AppErrorView::PathTraversal => "Path traversal not allowed"@,
        AppErrorView::InvalidPath(m) => "Invalid path: "@ + m,
        AppErrorView::ConfigLoad(m) => "Configuration load error: "@ + m,
        AppErrorView::ConfigSave(m) => "Configuration save error: "@ + m,
        AppErrorView::SearchIndex(m) => "Search index error: "@ + m,
        AppErrorView::SearchQuery(m) => "Search query error: "@ + m,
        AppErrorView::WindowOperation(m) => "Window operation error: "@ + m,
    }
}

impl AppError {
    /// The message this error displays.
    pub fn message(&self) -> (r: String)
        ensures
            r@ == error_text(self@),
    {
        match self {
            AppError::DatabaseConnection(m) => concat2("Database connection error: ", m.as_str()),
            AppError::DatabaseQuery(m) => concat2("Database query error: ", m.as_str()),
            AppError::DatabaseRebuild(m) => concat2("Database rebuild error: ", m.as_str()),
            AppError::FileNotFound(m) => concat2("File not found: ", m.as_str()),
            AppError::FilePermission(m) => concat2("File permission error: ", m.as_str()),
            AppError::FileWrite(m) => concat2("File write error: ", m.as_str()),
            AppError::FileRead(m) => concat2("File read error: ", m.as_str()),
            AppError::InvalidNoteName(m) => concat2("Invalid note name: ", m.as_str()),
            AppError::PathTraversal => owned("Path traversal not allowed"),
            AppError::InvalidPath(m) => concat2("Invalid path: ", m.as_str()),
            AppError::ConfigLoad(m) => concat2("Configuration load error: ", m.as_str()),
            AppError::ConfigSave(m) => concat2("Configuration save error: ", m.as_str()),
            AppError::SearchIndex(m) => concat2("Search index error: ", m.as_str()),
            AppError::SearchQuery(m) => concat2("Search query error: ", m.as_str()),
            AppError::WindowOperation(m) => concat2("Window operation error: ", m.as_str()),
        }
    }

    /// An invalid-name error naming the field and what is wrong with it.
    pub fn validation_error(field: &str, message: &str) -> (r: AppError)
        ensures
            r@ == AppErrorView::InvalidNoteName(field@ + ": "@ + message@),
    {
        let mut m = String::from_str(field);
        m.append(": ");
        m.append(message);
        AppError::InvalidNoteName(m)
    }

    /// The error for an operation whose database rebuild, attempted after a failure,
    /// failed too.
    pub fn database_recovery_failed(
        operation: &str,
        original_error: &str,
        rebuild_error: &str,
    ) -> (r: AppError)
        ensures
            r@ == AppErrorView::DatabaseRebuild(
                "Operation '"@ + operation@ + "' failed ("@ + original_error@
                    + "), and database rebuild also failed: "@ + rebuild_error@,
            ),
    {
        let mut m = String::from_str("Operation '");
        m.append(operation);
        m.append("' failed (");
        m.append(original_error);
        m.append("), and database rebuild also failed: ");
        m.append(rebuild_error);
        AppError::DatabaseRebuild(m)
    }
}

/// The error for a failure's message, sorted by the words it contains: a refused
/// permission, a missing file, or else a failed write.
pub open spec fn app_error_of(m: String) -> AppError {
    if seq_contains(m@, "permission"@) || seq_contains(m@, "Permission"@) {
        AppError::FilePermission(m)
    } else if seq_contains(m@, "not found"@) || seq_contains(m@, "No such file"@) {
        AppError::FileNotFound(m)
    } else {
        AppError::FileWrite(m)
    }
}

impl From<String> for AppError {
    fn from(err: String) -> (r: AppError) {
        let m = chars_of(err.as_str());
        let permission_lower = chars_of("permission");
        let permission_upper = chars_of("Permission");
        let not_found = chars_of("not found");
        let no_such_file = chars_of("No such file");
        proof {
            reveal_strlit("permission");
            reveal_strlit("Permission");
            reveal_strlit("not found");
            reveal_strlit("No such file");
        }
        if contains_chars(&m, &permission_lower) || contains_chars(&m, &permission_upper) {
            AppError::FilePermission(err)
        } else if contains_chars(&m, &not_found) || contains_chars(&m, &no_such_file) {
            AppError::FileNotFound(err)
        } else {
            AppError::FileWrite(err)
        }
    }
}

impl vstd::std_specs::convert::FromSpecImpl<String> for AppError {
    open spec fn obeys_from_spec() -> bool {
        true
    }

    open spec fn from_spec(err: String) -> AppError {
        app_error_of(err)
    }
}

/// The kind of a failed file operation, as far as the errors tell kinds apart.
#[derive(Debug, Clone, Copy, PartialEq, Eq)]
pub enum IoFailure {
    NotFound,
    PermissionDenied,
    Other,
}

impl AppError {
    /// The error for a failed file operation of the given kind, carrying its message.
    pub fn from_io_failure(kind: IoFailure, message: String) -> (r: AppError)
        ensures
            r@ == match kind {
                IoFailure::NotFound => AppErrorView::FileNotFound(message@),
                IoFailure::PermissionDenied => AppErrorView::FilePermission(message@),
                IoFailure::Other => AppErrorView::FileWrite(message@),
            },
    {
        match kind {
            IoFailure::NotFound => AppError::FileNotFound(message),
            IoFailure::PermissionDenied => AppError::FilePermission(message),
            IoFailure::Other => AppError::FileWrite(message),
        }
    }
}

/// The outcome of an operation that may succeed in part.
#[derive(Debug, Clone)]
#[allow(inconsistent_fields)]
pub enum OperationResult<T> {
    Success { data: T },
    SuccessWithWarning { data: T, warning: String },
    PartialSuccess { completed: Vec<String>, failed: Vec<String>, data: Option<T> },
    Failed { error: AppError },
}

} // verus!
