//! Error types for parsing and playback.
//!
//! Parse-time errors are fatal to the construction of the script
//! they occur in: there is no partially parsed script.  Playback
//! errors are fatal only to the single `next` call that raised them;
//! the cursor is left unmoved so that the call can be retried once
//! the missing resource has been supplied.

use vstd::prelude::*;
use vstd::string::*;

verus! {

/// A parse-time syntax fault, with its location.
#[derive(Debug)]
pub struct SyntaxError {
    pub file: String,
    pub line: usize,
    pub character: usize,
    pub why: String,
}

/// A fault in a directive's argument list.
#[derive(Debug)]
pub struct DirectiveError {
    pub why: &'static str,
}

/// The ways parsing a script or a configuration file can fail.
#[derive(Debug)]
pub enum ParseError {
    /// A directive line names no known directive.
    UnknownDirective(String),
    /// A directive cannot decode its argument string: the directive's
    /// name, and what was wrong.
    DirectiveError(&'static str, String),
    /// The named file could not be found.
    NoFileExists(String),
    /// A malformed line: file, line number, column, and what was wrong.
    SyntaxError(String, usize, usize, String),
}

/// The view of a `ParseError`, over character sequences.
pub enum ParseErrorView {
    UnknownDirective(Seq<char>),
    DirectiveError(Seq<char>, Seq<char>),
    NoFileExists(Seq<char>),
    SyntaxError(Seq<char>, int, int, Seq<char>),
}

impl View for ParseError {
    type V = ParseErrorView;

    open spec fn view(&self) -> ParseErrorView {
        match self {
            ParseError::UnknownDirective(name) => ParseErrorView::UnknownDirective(name@),
            ParseError::DirectiveError(d, why) => ParseErrorView::DirectiveError(d@, why@),
            ParseError::NoFileExists(path) => ParseErrorView::NoFileExists(path@),
            ParseError::SyntaxError(file, line, character, why) => ParseErrorView::SyntaxError(
                file@,
                *line as int,
                *character as int,
                why@,
            ),
        }
    }
}

/// The text a `ParseError` renders to when it is wrapped into a
/// `SyntaxError` by the parser: the location-bearing variant renders
/// as its detail alone, the others name themselves.
pub open spec fn spec_error_text(e: ParseErrorView) -> Seq<char> {
    match e {
        ParseErrorView::UnknownDirective(n) => "Unknown directive "@ + n,
        ParseErrorView::DirectiveError(d, why) => "Directive "@ + d + " cannot handle argument "@
            + why,
        ParseErrorView::NoFileExists(p) => "Cannot open file "@ + p,
        ParseErrorView::SyntaxError(f, l, c, why) => why,
    }
}

impl ParseError {
    /// Renders the error as the text that `spec_error_text` states.
    pub fn error_text(&self) -> (r: String)
        ensures
            r@ == spec_error_text(self@),
    {
        match self {
            ParseError::UnknownDirective(n) => ("Unknown directive ").to_owned().concat(
                n.as_str(),
            ),
            ParseError::DirectiveError(d, why) => ("Directive ").to_owned().concat(d).concat(
                " cannot handle argument ",
            ).concat(why.as_str()),
            ParseError::NoFileExists(p) => ("Cannot open file ").to_owned().concat(p.as_str()),
            ParseError::SyntaxError(f, l, c, why) => why.clone(),
        }
    }
}

/// The ways a `next` call can fail: a resource that the step needs
/// has not been supplied to the engine yet.  The cursor is never
/// moved by a failing step.
#[derive(Debug)]
pub enum EngineError {
    /// The step must follow a jump whose target script has not been
    /// resolved; the payload is the target's path.  Parse the target
    /// and hand it to `supply_script`, then retry.
    ScriptNotLoaded(String),
    /// The step must load a background asset that has not been
    /// decoded; the payload is the asset's path.  Decode it and
    /// confirm with `supply_asset`, then retry.
    AssetNotLoaded(String),
}

/// The view of an `EngineError`, over character sequences.
pub enum EngineErrorView {
    ScriptNotLoaded(Seq<char>),
    AssetNotLoaded(Seq<char>),
}

impl View for EngineError {
    type V = EngineErrorView;

    open spec fn view(&self) -> EngineErrorView {
        match self {
            EngineError::ScriptNotLoaded(path) => EngineErrorView::ScriptNotLoaded(path@),
            EngineError::AssetNotLoaded(path) => EngineErrorView::AssetNotLoaded(path@),
        }
    }
}

} // verus!
