//! The library's error type.
use vstd::prelude::*;

use crate::text::{has_prefix, owned};

verus! {

broadcast use vstd::string::group_string_axioms;

/// The message of a CSV error (calls `to_string` on `csv::Error`, through
/// its `Display`). Nothing is stated of the text.
#[verifier::external_body]
fn csv_error_text(e: &csv::Error) -> String {
    e.to_string()
}

/// The message of a URL parse error (calls `to_string` on
/// `url::ParseError`, through its `Display`). Nothing is stated of the text.
#[verifier::external_body]
fn url_error_text(e: &url::ParseError) -> String {
    e.to_string()
}

/// The message of an I/O error (calls `to_string` on `std::io::Error`,
/// through its `Display`). Nothing is stated of the text.
#[verifier::external_body]
fn io_error_text(e: &std::io::Error) -> String {
    e.to_string()
}

/// The message of a git error (calls `to_string` on `git2::Error`, through
/// its `Display`). Nothing is stated of the text.
#[verifier::external_body]
fn git2_error_text(e: &git2::Error) -> String {
    e.to_string()
}

/// What went wrong.
#[derive(Debug)]
pub enum ErrorKind {
    PathNotExist(String),
    CSVErr(csv::Error),
    IOErr(std::io::Error),
    ObjConstructErr(String),
    CallToExtCommandErr(String),
    ExtCommandFailure(String),
    Git2Err(git2::Error),
    UrlParseErr(url::ParseError),
    Others(String),
}

impl ErrorKind {
    /// The message, as the error is printed.
    pub fn message(&self) -> (r: String)
        ensures
            match self {
                ErrorKind::PathNotExist(p) => r@ == "Path "@ + p@ + " does not exist"@,
                ErrorKind::CSVErr(_) => has_prefix(r@, "Error from handling CSV: "@),
                ErrorKind::IOErr(_) => has_prefix(r@, "Error during IO: "@),
                ErrorKind::ObjConstructErr(m) => r@ == "Error when constructing object: "@ + m@,
                ErrorKind::CallToExtCommandErr(c) => r@ == "Call to external command "@ + c@ + " failed"@,
                ErrorKind::ExtCommandFailure(c) => r@ == "External command "@ + c@ + " exited with failure"@,
                ErrorKind::Git2Err(_) => has_prefix(r@, "Error by git2: "@),
                ErrorKind::UrlParseErr(_) => has_prefix(r@, "Error by url: "@),
                ErrorKind::Others(m) => r@ == "Error: "@ + m@,
            },
    {
        match self {
            ErrorKind::PathNotExist(p) => {
                let mut r = owned("Path ");
                r.append(p.as_str());
                r.append(" does not exist");
                r
            },
            ErrorKind::CSVErr(e) => {
                let mut r = owned("Error from handling CSV: ");
                let t = csv_error_text(e);
                let ghost before = r@;
                r.append(t.as_str());
                assert(r@.subrange(0, before.len() as int) =~= before);
                r
            },
            ErrorKind::IOErr(e) => {
                let mut r = owned("Error during IO: ");
                let t = io_error_text(e);
                let ghost before = r@;
                r.append(t.as_str());
                assert(r@.subrange(0, before.len() as int) =~= before);
                r
            },
            ErrorKind::ObjConstructErr(m) => {
                let mut r = owned("Error when constructing object: ");
                r.append(m.as_str());
                r
            },
            ErrorKind::CallToExtCommandErr(c) => {
                let mut r = owned("Call to external command ");
                r.append(c.as_str());
                r.append(" failed");
                r
            },
            ErrorKind::ExtCommandFailure(c) => {
                let mut r = owned("External command ");
                r.append(c.as_str());
                r.append(" exited with failure");
                r
            },
            ErrorKind::Git2Err(e) => {
                let mut r = owned("Error by git2: ");
                let t = git2_error_text(e);
                let ghost before = r@;
                r.append(t.as_str());
                assert(r@.subrange(0, before.len() as int) =~= before);
                r
            },
            ErrorKind::UrlParseErr(e) => {
                let mut r = owned("Error by url: ");
                let t = url_error_text(e);
                let ghost before = r@;
                r.append(t.as_str());
                assert(r@.subrange(0, before.len() as int) =~= before);
                r
            },
            ErrorKind::Others(m) => {
                let mut r = owned("Error: ");
                r.append(m.as_str());
                r
            },
        }
    }
}

/// An error of this library.
#[derive(Debug)]
pub struct DepError {
    kind: ErrorKind,
}

impl DepError {
    pub closed spec fn kind_view(&self) -> ErrorKind {
        self.kind
    }

    pub fn new(kind: ErrorKind) -> (r: DepError)
        ensures
            r.kind_view() == kind,
    {
        DepError { kind }
    }

    pub fn kind(&self) -> (r: &ErrorKind)
        ensures
            *r == self.kind_view(),
    {
        &self.kind
    }

    /// The message, as the error is printed (that of its kind).
    pub fn message(&self) -> (r: String)
        ensures
            match self.kind_view() {
                ErrorKind::PathNotExist(p) => r@ == "Path "@ + p@ + " does not exist"@,
                ErrorKind::CSVErr(_) => has_prefix(r@, "Error from handling CSV: "@),
                ErrorKind::IOErr(_) => has_prefix(r@, "Error during IO: "@),
                ErrorKind::ObjConstructErr(m) => r@ == "Error when constructing object: "@ + m@,
                ErrorKind::CallToExtCommandErr(c) => r@ == "Call to external command "@ + c@ + " failed"@,
                ErrorKind::ExtCommandFailure(c) => r@ == "External command "@ + c@ + " exited with failure"@,
                ErrorKind::Git2Err(_) => has_prefix(r@, "Error by git2: "@),
                ErrorKind::UrlParseErr(_) => has_prefix(r@, "Error by url: "@),
                ErrorKind::Others(m) => r@ == "Error: "@ + m@,
            },
    {
        self.kind.message()
    }
}

impl From<csv::Error> for DepError {
    fn from(e: csv::Error) -> (r: DepError) {
        DepError::new(ErrorKind::CSVErr(e))
    }
}

impl vstd::std_specs::convert::FromSpecImpl<csv::Error> for DepError {
    open spec fn obeys_from_spec() -> bool {
        true
    }

    closed spec fn from_spec(e: csv::Error) -> DepError {
        DepError { kind: ErrorKind::CSVErr(e) }
    }
}

impl From<std::io::Error> for DepError {
    fn from(e: std::io::Error) -> (r: DepError) {
        DepError::new(ErrorKind::IOErr(e))
    }
}

impl vstd::std_specs::convert::FromSpecImpl<std::io::Error> for DepError {
    open spec fn obeys_from_spec() -> bool {
        true
    }

    closed spec fn from_spec(e: std::io::Error) -> DepError {
        DepError { kind: ErrorKind::IOErr(e) }
    }
}

impl From<git2::Error> for DepError {
    fn from(e: git2::Error) -> (r: DepError) {
        DepError::new(ErrorKind::Git2Err(e))
    }
}

impl vstd::std_specs::convert::FromSpecImpl<git2::Error> for DepError {
    open spec fn obeys_from_spec() -> bool {
        true
    }

    closed spec fn from_spec(e: git2::Error) -> DepError {
        DepError { kind: ErrorKind::Git2Err(e) }
    }
}

impl From<url::ParseError> for DepError {
    fn from(e: url::ParseError) -> (r: DepError) {
        DepError::new(ErrorKind::UrlParseErr(e))
    }
}

impl vstd::std_specs::convert::FromSpecImpl<url::ParseError> for DepError {
    open spec fn obeys_from_spec() -> bool {
        true
    }

    closed spec fn from_spec(e: url::ParseError) -> DepError {
        DepError { kind: ErrorKind::UrlParseErr(e) }
    }
}

} // verus!
