//! What can be wrong with a manifest, and what can stop a build.

use crate::text::{decimal, decimal_text, owned};
use vstd::prelude::*;

verus! {

/// The ways in which a manifest can fail to parse.
#[derive(Clone, Copy, Debug, PartialEq, Eq, Structural)]
pub enum ErrorKind {
    /// An identifier was expected; a reserved word does not count as one.
    ExpectedIdentifier,
    /// The keyword named by the subject was expected.
    ExpectedKeyword,
    /// The punctuation named by the subject was expected.
    ExpectedPunct,
    /// A bracketed group was expected after the subject.
    ExpectedGroup,
    /// Tokens follow where the grammar has ended.
    UnexpectedToken,
    /// A content element is neither `special` nor `compile_from_path`.
    UnknownElement,
    /// The field named by the subject must be a string literal.
    ExpectedFieldString,
    /// `nproc` must be an integer literal of at least 1.
    InvalidNproc,
    /// An argument list holds an empty argument.
    EmptyArgument,
    /// A bare option name (the subject) is not one of the known flags.
    UnknownUnit,
    /// An option with arguments (the subject) is not decoded here.
    Unsupported,
    /// The argument at the index must be a string literal.
    ExpectedString,
    /// The argument at the index must be an integer literal.
    ExpectedInteger,
    /// The integer at the index does not fit the option's number type.
    IntegerRange,
    /// `TrackChanges` was given no argument.
    TrackChangesMissing,
    /// The argument of `TrackChanges` is none of `Accept`, `Reject`, `All`.
    TrackChangesInvalid,
}

/// A manifest parse error: what went wrong, on which name, at which argument.
#[derive(Debug, PartialEq, Eq)]
pub struct ParseError {
    /// What went wrong.
    pub kind: ErrorKind,
    /// The option, field or keyword concerned; empty where there is none.
    pub subject: String,
    /// The position of the offending argument; 0 where there is none.
    pub index: usize,
}

/// The mathematical value of a [`ParseError`].
pub ghost struct ParseErrorView {
    pub kind: ErrorKind,
    pub subject: Seq<char>,
    pub index: nat,
}

/// The error of the given kind about `subject` at `index`.
pub open spec fn error_at(kind: ErrorKind, subject: Seq<char>, index: nat) -> ParseErrorView {
    ParseErrorView { kind, subject, index }
}

/// The error of the given kind that concerns no name and no argument.
pub open spec fn plain_error(kind: ErrorKind) -> ParseErrorView {
    ParseErrorView { kind, subject: Seq::empty(), index: 0 }
}

/// The fixed text that opens the message of each kind of error.
pub open spec fn message_head(kind: ErrorKind) -> Seq<char> {
    match kind {
        ErrorKind::ExpectedIdentifier => "expected identifier"@,
        ErrorKind::ExpectedKeyword => "expected `"@,
        ErrorKind::ExpectedPunct => "expected `"@,
        ErrorKind::ExpectedGroup => "expected a bracketed list after `"@,
        ErrorKind::UnexpectedToken => "unexpected token"@,
        ErrorKind::UnknownElement => "expected one of: `special`, `compile_from_path`"@,
        ErrorKind::ExpectedFieldString => "Expected a string literal for `"@,
        ErrorKind::InvalidNproc => "nproc argument should be a number"@,
        ErrorKind::EmptyArgument => "expected an expression in the arguments of `"@,
        ErrorKind::UnknownUnit => "Unsupported or unknown unit variant `"@,
        ErrorKind::Unsupported => "Variant `"@,
        ErrorKind::ExpectedString => "Expected string literal at index "@,
        ErrorKind::ExpectedInteger => "Expected integer literal at index "@,
        ErrorKind::IntegerRange => "Failed to parse integer literal into target type at index "@,
        ErrorKind::TrackChangesMissing => "TrackChanges requires one of Accept|Reject|All"@,
        ErrorKind::TrackChangesInvalid
            => "Invalid TrackChanges variant (expected Accept|Reject|All)"@,
    }
}

/// How the message of each kind of error is put together.
pub open spec fn message_shape(kind: ErrorKind) -> MessageShape {
    match kind {
        ErrorKind::ExpectedIdentifier
        | ErrorKind::UnexpectedToken
        | ErrorKind::UnknownElement
        | ErrorKind::InvalidNproc
        | ErrorKind::TrackChangesMissing
        | ErrorKind::TrackChangesInvalid => MessageShape::Fixed,
        ErrorKind::ExpectedKeyword
        | ErrorKind::ExpectedPunct
        | ErrorKind::ExpectedGroup
        | ErrorKind::ExpectedFieldString
        | ErrorKind::EmptyArgument
        | ErrorKind::UnknownUnit => MessageShape::Quoted,
        ErrorKind::Unsupported => MessageShape::QuotedUnsupported,
        ErrorKind::ExpectedString
        | ErrorKind::ExpectedInteger
        | ErrorKind::IntegerRange => MessageShape::Indexed,
    }
}

/// The shapes that an error message takes.
#[derive(Clone, Copy, Debug, PartialEq, Eq, Structural)]
pub enum MessageShape {
    /// The head alone.
    Fixed,
    /// The head, the subject, a closing back quote.
    Quoted,
    /// As `Quoted`, then the words that say the option is not decoded.
    QuotedUnsupported,
    /// The head, the index, then the option that the argument belongs to.
    Indexed,
}

impl ParseError {
    pub open spec fn view(&self) -> ParseErrorView {
        ParseErrorView { kind: self.kind, subject: self.subject@, index: self.index as nat }
    }

    /// The message of an error, as [`ParseError::message`] writes it.
    pub open spec fn spec_message(e: ParseErrorView) -> Seq<char> {
        match message_shape(e.kind) {
            MessageShape::Fixed => message_head(e.kind),
            MessageShape::Quoted => message_head(e.kind) + e.subject + "`"@,
            MessageShape::QuotedUnsupported => message_head(e.kind) + e.subject
                + "` with complex/custom type not yet supported"@,
            MessageShape::Indexed => message_head(e.kind) + decimal_text(e.index) + " of `"@
                + e.subject + "`"@,
        }
    }

    /// An error of the given kind about `subject` at `index`.
    pub fn new(kind: ErrorKind, subject: &str, index: usize) -> (r: Self)
        ensures
            r@ == error_at(kind, subject@, index as nat),
    {
        ParseError { kind, subject: owned(subject), index }
    }

    /// An error of the given kind that concerns no name and no argument.
    pub fn plain(kind: ErrorKind) -> (r: Self)
        ensures
            r@ == plain_error(kind),
    {
        ParseError { kind, subject: String::new(), index: 0 }
    }

    /// A copy of this error.
    pub fn duplicate(&self) -> (r: Self)
        ensures
            r@ == self@,
    {
        ParseError { kind: self.kind, subject: self.subject.clone(), index: self.index }
    }

    fn head(kind: ErrorKind) -> (r: &'static str)
        ensures
            r@ == message_head(kind),
    {
        match kind {
            ErrorKind::ExpectedIdentifier => "expected identifier",
            ErrorKind::ExpectedKeyword => "expected `",
            ErrorKind::ExpectedPunct => "expected `",
            ErrorKind::ExpectedGroup => "expected a bracketed list after `",
            ErrorKind::UnexpectedToken => "unexpected token",
            ErrorKind::UnknownElement => "expected one of: `special`, `compile_from_path`",
            ErrorKind::ExpectedFieldString => "Expected a string literal for `",
            ErrorKind::InvalidNproc => "nproc argument should be a number",
            ErrorKind::EmptyArgument => "expected an expression in the arguments of `",
            ErrorKind::UnknownUnit => "Unsupported or unknown unit variant `",
            ErrorKind::Unsupported => "Variant `",
            ErrorKind::ExpectedString => "Expected string literal at index ",
            ErrorKind::ExpectedInteger => "Expected integer literal at index ",
            ErrorKind::IntegerRange => "Failed to parse integer literal into target type at index ",
            ErrorKind::TrackChangesMissing => "TrackChanges requires one of Accept|Reject|All",
            ErrorKind::TrackChangesInvalid
                => "Invalid TrackChanges variant (expected Accept|Reject|All)",
        }
    }

    fn shape(kind: ErrorKind) -> (r: MessageShape)
        ensures
            r == message_shape(kind),
    {
        match kind {
            ErrorKind::ExpectedIdentifier
            | ErrorKind::UnexpectedToken
            | ErrorKind::UnknownElement
            | ErrorKind::InvalidNproc
            | ErrorKind::TrackChangesMissing
            | ErrorKind::TrackChangesInvalid => MessageShape::Fixed,
            ErrorKind::ExpectedKeyword
            | ErrorKind::ExpectedPunct
            | ErrorKind::ExpectedGroup
            | ErrorKind::ExpectedFieldString
            | ErrorKind::EmptyArgument
            | ErrorKind::UnknownUnit => MessageShape::Quoted,
            ErrorKind::Unsupported => MessageShape::QuotedUnsupported,
            ErrorKind::ExpectedString
            | ErrorKind::ExpectedInteger
            | ErrorKind::IntegerRange => MessageShape::Indexed,
        }
    }

    /// The error in words.
    pub fn message(&self) -> (r: String)
        ensures
            r@ == Self::spec_message(self@),
    {
        let mut out = owned(Self::head(self.kind));
        match Self::shape(self.kind) {
            MessageShape::Fixed => {},
            MessageShape::Quoted => {
                out.append(self.subject.as_str());
                out.append("`");
            },
            MessageShape::QuotedUnsupported => {
                out.append(self.subject.as_str());
                out.append("` with complex/custom type not yet supported");
            },
            MessageShape::Indexed => {
                let index = decimal(self.index);
                out.append(index.as_str());
                out.append(" of `");
                out.append(self.subject.as_str());
                out.append("`");
            },
        }
        out
    }
}

/// The ways in which a build can fail once its manifest is read.
#[derive(Clone, Copy, Debug, PartialEq, Eq, Structural)]
pub enum BuildErrorKind {
    /// A directory or file could not be read while the tree was explored.
    Filesystem,
    /// The converter failed on a document.
    Conversion,
    /// The results do not cover the documents that were discovered: a defect
    /// in dispatch or collection, never a fault of the input.
    InternalConsistency,
}

/// A fatal build error: its kind, the path concerned, and what was reported.
#[derive(Debug, PartialEq, Eq)]
pub struct BuildError {
    /// What failed.
    pub kind: BuildErrorKind,
    /// The path of the directory or document concerned.
    pub path: String,
    /// The underlying message; empty where there is none.
    pub message: String,
}

/// The mathematical value of a [`BuildError`].
pub ghost struct BuildErrorView {
    pub kind: BuildErrorKind,
    pub path: Seq<char>,
    pub message: Seq<char>,
}

/// The build error of the given kind about `path`, with `message`.
pub open spec fn build_error(kind: BuildErrorKind, path: Seq<char>, message: Seq<char>)
    -> BuildErrorView {
    BuildErrorView { kind, path, message }
}

/// The error that says no result was collected for the document at `path`.
pub open spec fn missing_result(path: Seq<char>) -> BuildErrorView {
    BuildErrorView { kind: BuildErrorKind::InternalConsistency, path, message: Seq::empty() }
}

/// The fixed text that opens the message of each kind of build error.
pub open spec fn build_message_head(kind: BuildErrorKind) -> Seq<char> {
    match kind {
        BuildErrorKind::Filesystem => "Failed to explore dir "@,
        BuildErrorKind::Conversion => "Pandoc failed to convert the file "@,
        BuildErrorKind::InternalConsistency => "No conversion result was collected for "@,
    }
}

impl BuildError {
    pub open spec fn view(&self) -> BuildErrorView {
        BuildErrorView { kind: self.kind, path: self.path@, message: self.message@ }
    }

    /// The message of a build error, as [`BuildError::message`] writes it:
    /// the head, the path, and the underlying message after a colon.
    pub open spec fn spec_message(e: BuildErrorView) -> Seq<char> {
        build_message_head(e.kind) + e.path + ": "@ + e.message
    }

    /// The build error of the given kind about `path`, with `message`.
    pub fn new(kind: BuildErrorKind, path: &String, message: &String) -> (r: Self)
        ensures
            r@ == build_error(kind, path@, message@),
    {
        BuildError { kind, path: path.clone(), message: message.clone() }
    }

    /// The error that says no result was collected for the document at `path`.
    pub fn missing(path: &String) -> (r: Self)
        ensures
            r@ == missing_result(path@),
    {
        BuildError {
            kind: BuildErrorKind::InternalConsistency,
            path: path.clone(),
            message: String::new(),
        }
    }

    /// A copy of this error.
    pub fn duplicate(&self) -> (r: Self)
        ensures
            r@ == self@,
    {
        BuildError { kind: self.kind, path: self.path.clone(), message: self.message.clone() }
    }

    /// The error in words.
    pub fn message(&self) -> (r: String)
        ensures
            r@ == Self::spec_message(self@),
    {
        let head = match self.kind {
            BuildErrorKind::Filesystem => "Failed to explore dir ",
            BuildErrorKind::Conversion => "Pandoc failed to convert the file ",
            BuildErrorKind::InternalConsistency => "No conversion result was collected for ",
        };
        let mut out = owned(head);
        out.append(self.path.as_str());
        out.append(": ");
        out.append(self.message.as_str());
        out
    }
}

} // verus!
