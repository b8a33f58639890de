//! The build manifest: its content elements and its grammar.
//!
//! ```text
//! mod_name = <ident>, tree_name = <ident>, content = [<element>, ...]
//!     [, options = [<option> ...]] [, nproc = <int>]
//! <element> = special(ty: "<string>")
//!           | compile_from_path(path: "<string>" [, route: "<string>"])
//! ```
//! The functions here read decoded tokens (see
//! [`crate::token::resolve_literals`]); [`Options::parse`] decodes first.

use crate::arg::{is_comma, lemma_views_index, parse_decoded_options, spec_parse_options};
use crate::error::{error_at, plain_error, ErrorKind, ParseError, ParseErrorView};
use crate::keyword::{is_reserved, spec_is_reserved};
use crate::options::{option_views, ConverterOption, ConverterOptionView};
use crate::text::{optional_text, parse_integer, spec_parse_integer, text_is};
use crate::token::{
    lemma_decoded_tokens_stay, resolve_literals, spec_all_decoded, spec_decodes_all, views, Delim,
    Token, TokenView,
};
use vstd::prelude::*;

verus! {

/// One top-level unit of a manifest.
#[derive(Debug, PartialEq, Eq)]
pub enum Element {
    /// A subtree of the file system to convert, with an optional route.
    CompileFromPath { path: String, route: Option<String> },
    /// A marker that no file stands behind.
    Special { kind: String },
}

/// The mathematical value of an [`Element`].
pub ghost enum ElementView {
    CompileFromPath { path: Seq<char>, route: Option<Seq<char>> },
    Special { kind: Seq<char> },
}

/// The build configuration that a manifest writes.
#[derive(Debug, PartialEq, Eq)]
pub struct Options {
    /// The name of the module that the tree is placed in.
    pub mod_name: String,
    /// The name of the tree.
    pub tree_name: String,
    /// The content elements, in order; at least one.
    pub content: Vec<Element>,
    /// The converter's options, in order.
    pub pandoc_options: Vec<ConverterOption>,
    /// How many conversions may run at once; at least 1.
    pub nproc: usize,
}

/// The mathematical value of an [`Options`].
pub ghost struct OptionsView {
    pub mod_name: Seq<char>,
    pub tree_name: Seq<char>,
    pub content: Seq<ElementView>,
    pub pandoc_options: Seq<ConverterOptionView>,
    pub nproc: nat,
}

impl Element {
    pub open spec fn view(&self) -> ElementView {
        match self {
            Element::CompileFromPath { path, route } => ElementView::CompileFromPath {
                path: path@,
                route: optional_text(*route),
            },
            Element::Special { kind } => ElementView::Special { kind: kind@ },
        }
    }
}

/// The values of a run of elements, one for one.
pub open spec fn element_views(elements: Seq<Element>) -> Seq<ElementView> {
    elements.map_values(|e: Element| e@)
}

impl OptionsView {
    /// What every configuration that a manifest writes satisfies.
    pub open spec fn wf(self) -> bool {
        self.content.len() > 0 && self.nproc >= 1
    }
}

impl Options {
    pub open spec fn view(&self) -> OptionsView {
        OptionsView {
            mod_name: self.mod_name@,
            tree_name: self.tree_name@,
            content: element_views(self.content@),
            pandoc_options: option_views(self.pandoc_options@),
            nproc: self.nproc as nat,
        }
    }
}

/// Whether the token at `pos` is the identifier `text`.
pub open spec fn ident_at(ts: Seq<TokenView>, pos: int, text: Seq<char>) -> bool {
    0 <= pos < ts.len() && ts[pos] == TokenView::Ident(text)
}

/// Whether the token at `pos` is the punctuation `c`.
pub open spec fn punct_at(ts: Seq<TokenView>, pos: int, c: char) -> bool {
    0 <= pos < ts.len() && ts[pos] == TokenView::Punct(c)
}

/// The tokens of the group at `pos`, where a group with the brackets `d`
/// stands there.
pub open spec fn group_at(ts: Seq<TokenView>, pos: int, d: Delim) -> Option<Seq<TokenView>> {
    if 0 <= pos < ts.len() {
        match ts[pos] {
            TokenView::Group(found, inner) => if found == d {
                Some(inner)
            } else {
                None
            },
            _ => None,
        }
    } else {
        None
    }
}

/// The string that the tokens from `pos` give the field `key`: the key, a
/// colon, a string literal.
pub open spec fn spec_field(ts: Seq<TokenView>, pos: int, key: Seq<char>) -> Result<
    Seq<char>,
    ParseErrorView,
> {
    if !ident_at(ts, pos, key) {
        Err(error_at(ErrorKind::ExpectedKeyword, key, 0))
    } else if !punct_at(ts, pos + 1, ':') {
        Err(error_at(ErrorKind::ExpectedPunct, ":"@, 0))
    } else if pos + 2 < ts.len() && ts[pos + 2] is Str {
        Ok(ts[pos + 2]->Str_0)
    } else {
        Err(error_at(ErrorKind::ExpectedFieldString, key, 0))
    }
}

/// The marker that the tokens inside `special( ... )` write.
pub open spec fn spec_special(inner: Seq<TokenView>) -> Result<ElementView, ParseErrorView> {
    match spec_field(inner, 0, "ty"@) {
        Err(e) => Err(e),
        Ok(kind) => if inner.len() > 3 {
            Err(plain_error(ErrorKind::UnexpectedToken))
        } else {
            Ok(ElementView::Special { kind })
        },
    }
}

/// The subtree that the tokens inside `compile_from_path( ... )` write.
pub open spec fn spec_compile(inner: Seq<TokenView>) -> Result<ElementView, ParseErrorView> {
    match spec_field(inner, 0, "path"@) {
        Err(e) => Err(e),
        Ok(path) => if inner.len() == 3 {
            Ok(ElementView::CompileFromPath { path, route: None })
        } else if !is_comma(inner[3]) {
            Err(plain_error(ErrorKind::UnexpectedToken))
        } else {
            match spec_field(inner, 4, "route"@) {
                Err(e) => Err(e),
                Ok(route) => if inner.len() > 7 {
                    Err(plain_error(ErrorKind::UnexpectedToken))
                } else {
                    Ok(ElementView::CompileFromPath { path, route: Some(route) })
                },
            }
        },
    }
}

/// The content element that the two tokens at `pos` write: a keyword and a
/// group in round brackets.
pub open spec fn spec_element(ts: Seq<TokenView>, pos: int) -> Result<ElementView, ParseErrorView> {
    if ident_at(ts, pos, "special"@) {
        match group_at(ts, pos + 1, Delim::Paren) {
            Some(inner) => spec_special(inner),
            None => Err(error_at(ErrorKind::ExpectedGroup, "special"@, 0)),
        }
    } else if ident_at(ts, pos, "compile_from_path"@) {
        match group_at(ts, pos + 1, Delim::Paren) {
            Some(inner) => spec_compile(inner),
            None => Err(error_at(ErrorKind::ExpectedGroup, "compile_from_path"@, 0)),
        }
    } else {
        Err(plain_error(ErrorKind::UnknownElement))
    }
}

/// The content elements that the tokens from `pos` write: one or more,
/// separated by commas, with no comma after the last.
pub open spec fn spec_elements(ts: Seq<TokenView>, pos: int) -> Result<
    Seq<ElementView>,
    ParseErrorView,
>
    decreases ts.len() - pos,
{
    match spec_element(ts, pos) {
        Err(e) => Err(e),
        Ok(x) => if pos + 2 >= ts.len() {
            Ok(seq![x])
        } else if !is_comma(ts[pos + 2]) {
            Err(plain_error(ErrorKind::UnexpectedToken))
        } else {
            match spec_elements(ts, pos + 3) {
                Ok(rest) => Ok(seq![x] + rest),
                Err(e) => Err(e),
            }
        },
    }
}

/// The name that the tokens from `pos` give to `key`: the key, an equals
/// sign, an identifier that is no reserved word.
pub open spec fn spec_named(ts: Seq<TokenView>, pos: int, key: Seq<char>) -> Result<
    Seq<char>,
    ParseErrorView,
> {
    if !ident_at(ts, pos, key) {
        Err(error_at(ErrorKind::ExpectedKeyword, key, 0))
    } else if !punct_at(ts, pos + 1, '=') {
        Err(error_at(ErrorKind::ExpectedPunct, "="@, 0))
    } else if pos + 2 < ts.len() && ts[pos + 2] is Ident && !spec_is_reserved(
        ts[pos + 2]->Ident_0,
    ) {
        Ok(ts[pos + 2]->Ident_0)
    } else {
        Err(plain_error(ErrorKind::ExpectedIdentifier))
    }
}

/// The tokens of the list that the tokens from `pos` give to `key`: the key,
/// an equals sign, a group in square brackets.
pub open spec fn spec_list(ts: Seq<TokenView>, pos: int, key: Seq<char>) -> Result<
    Seq<TokenView>,
    ParseErrorView,
> {
    if !ident_at(ts, pos, key) {
        Err(error_at(ErrorKind::ExpectedKeyword, key, 0))
    } else if !punct_at(ts, pos + 1, '=') {
        Err(error_at(ErrorKind::ExpectedPunct, "="@, 0))
    } else {
        match group_at(ts, pos + 2, Delim::Bracket) {
            Some(inner) => Ok(inner),
            None => Err(error_at(ErrorKind::ExpectedGroup, key, 0)),
        }
    }
}

/// The concurrency degree that the tokens from `pos` write, which must end
/// the manifest: `nproc`, an equals sign, an integer literal of at least 1
/// that a machine word holds.
pub open spec fn spec_nproc(ts: Seq<TokenView>, pos: int) -> Result<nat, ParseErrorView> {
    if !ident_at(ts, pos, "nproc"@) {
        Err(error_at(ErrorKind::ExpectedKeyword, "nproc"@, 0))
    } else if !punct_at(ts, pos + 1, '=') {
        Err(error_at(ErrorKind::ExpectedPunct, "="@, 0))
    } else if pos + 2 < ts.len() && ts[pos + 2] is Int {
        match spec_parse_integer(ts[pos + 2]->Int_0, 0, usize::MAX as int) {
            Some(v) => if v < 1 {
                Err(plain_error(ErrorKind::InvalidNproc))
            } else if pos + 3 < ts.len() {
                Err(plain_error(ErrorKind::UnexpectedToken))
            } else {
                Ok(v as nat)
            },
            None => Err(plain_error(ErrorKind::InvalidNproc)),
        }
    } else {
        Err(plain_error(ErrorKind::InvalidNproc))
    }
}

/// The concurrency degree that what follows the options writes: 1 where the
/// manifest ends at `pos`, else a comma and the degree.
pub open spec fn spec_nproc_tail(ts: Seq<TokenView>, pos: int) -> Result<nat, ParseErrorView> {
    if pos >= ts.len() {
        Ok(1)
    } else if !is_comma(ts[pos]) {
        Err(plain_error(ErrorKind::UnexpectedToken))
    } else {
        spec_nproc(ts, pos + 1)
    }
}

/// The options and the concurrency degree that what follows the content
/// writes. Each of the two may be left out: no options, and a degree of 1.
pub open spec fn spec_tail(ts: Seq<TokenView>, pos: int) -> Result<
    (Seq<ConverterOptionView>, nat),
    ParseErrorView,
> {
    if pos >= ts.len() {
        Ok((Seq::empty(), 1))
    } else if !is_comma(ts[pos]) {
        Err(plain_error(ErrorKind::UnexpectedToken))
    } else if ident_at(ts, pos + 1, "options"@) {
        match spec_list(ts, pos + 1, "options"@) {
            Err(e) => Err(e),
            Ok(inner) => match spec_parse_options(inner) {
                Err(e) => Err(e),
                Ok(options) => match spec_nproc_tail(ts, pos + 4) {
                    Err(e) => Err(e),
                    Ok(n) => Ok((options, n)),
                },
            },
        }
    } else {
        match spec_nproc(ts, pos + 1) {
            Err(e) => Err(e),
            Ok(n) => Ok((Seq::empty(), n)),
        }
    }
}

/// The configuration that a manifest of decoded tokens writes; the first
/// error in reading order, if it writes none.
pub open spec fn spec_manifest(ts: Seq<TokenView>) -> Result<OptionsView, ParseErrorView> {
    match spec_named(ts, 0, "mod_name"@) {
        Err(e) => Err(e),
        Ok(mod_name) => if !punct_at(ts, 3, ',') {
            Err(error_at(ErrorKind::ExpectedPunct, ","@, 0))
        } else {
            match spec_named(ts, 4, "tree_name"@) {
                Err(e) => Err(e),
                Ok(tree_name) => if !punct_at(ts, 7, ',') {
                    Err(error_at(ErrorKind::ExpectedPunct, ","@, 0))
                } else {
                    match spec_list(ts, 8, "content"@) {
                        Err(e) => Err(e),
                        Ok(inner) => match spec_elements(inner, 0) {
                            Err(e) => Err(e),
                            Ok(content) => match spec_tail(ts, 11) {
                                Err(e) => Err(e),
                                Ok(tail) => Ok(
                                    OptionsView {
                                        mod_name,
                                        tree_name,
                                        content,
                                        pandoc_options: tail.0,
                                        nproc: tail.1,
                                    },
                                ),
                            },
                        },
                    }
                },
            }
        },
    }
}

fn is_ident(tokens: &Vec<Token>, pos: usize, text: &str) -> (r: bool)
    ensures
        r == ident_at(views(tokens@), pos as int, text@),
{
    if pos < tokens.len() {
        proof {
            lemma_views_index(tokens@, pos as int);
        }
        match &tokens[pos] {
            Token::Ident(name) => text_is(name, text),
            _ => false,
        }
    } else {
        false
    }
}

fn is_punct(tokens: &Vec<Token>, pos: usize, c: char) -> (r: bool)
    ensures
        r == punct_at(views(tokens@), pos as int, c),
{
    if pos < tokens.len() {
        proof {
            lemma_views_index(tokens@, pos as int);
        }
        match &tokens[pos] {
            Token::Punct(found) => *found == c,
            _ => false,
        }
    } else {
        false
    }
}

fn group<'a>(tokens: &'a Vec<Token>, pos: usize, d: Delim) -> (r: Option<&'a Vec<Token>>)
    ensures
        match r {
            Some(inner) => group_at(views(tokens@), pos as int, d) == Some(views(inner@)),
            None => group_at(views(tokens@), pos as int, d) is None,
        },
{
    if pos < tokens.len() {
        proof {
            lemma_views_index(tokens@, pos as int);
        }
        match &tokens[pos] {
            Token::Group(found, inner) => if *found == d {
                Some(inner)
            } else {
                None
            },
            _ => None,
        }
    } else {
        None
    }
}

fn parse_field(tokens: &Vec<Token>, pos: usize, key: &str) -> (r: Result<String, ParseError>)
    requires
        pos + 2 <= usize::MAX,
    ensures
        match r {
            Ok(v) => spec_field(views(tokens@), pos as int, key@) == Ok::<
                Seq<char>,
                ParseErrorView,
            >(v@),
            Err(e) => spec_field(views(tokens@), pos as int, key@) == Err::<
                Seq<char>,
                ParseErrorView,
            >(e@),
        },
{
    if !is_ident(tokens, pos, key) {
        return Err(ParseError::new(ErrorKind::ExpectedKeyword, key, 0));
    }
    if !is_punct(tokens, pos + 1, ':') {
        return Err(ParseError::new(ErrorKind::ExpectedPunct, ":", 0));
    }
    if pos + 2 < tokens.len() {
        proof {
            lemma_views_index(tokens@, pos + 2);
        }
        match &tokens[pos + 2] {
            Token::Str(v) => {
                return Ok(v.clone());
            },
            _ => {},
        }
    }
    Err(ParseError::new(ErrorKind::ExpectedFieldString, key, 0))
}

fn parse_named(tokens: &Vec<Token>, pos: usize, key: &str) -> (r: Result<String, ParseError>)
    requires
        pos + 2 <= usize::MAX,
    ensures
        match r {
            Ok(v) => spec_named(views(tokens@), pos as int, key@) == Ok::<
                Seq<char>,
                ParseErrorView,
            >(v@),
            Err(e) => spec_named(views(tokens@), pos as int, key@) == Err::<
                Seq<char>,
                ParseErrorView,
            >(e@),
        },
{
    if !is_ident(tokens, pos, key) {
        return Err(ParseError::new(ErrorKind::ExpectedKeyword, key, 0));
    }
    if !is_punct(tokens, pos + 1, '=') {
        return Err(ParseError::new(ErrorKind::ExpectedPunct, "=", 0));
    }
    if pos + 2 < tokens.len() {
        proof {
            lemma_views_index(tokens@, pos + 2);
        }
        match &tokens[pos + 2] {
            Token::Ident(name) => {
                if !is_reserved(name) {
                    return Ok(name.clone());
                }
            },
            _ => {},
        }
    }
    Err(ParseError::plain(ErrorKind::ExpectedIdentifier))
}

fn parse_list<'a>(tokens: &'a Vec<Token>, pos: usize, key: &str) -> (r: Result<
    &'a Vec<Token>,
    ParseError,
>)
    requires
        pos + 2 <= usize::MAX,
    ensures
        match r {
            Ok(inner) => spec_list(views(tokens@), pos as int, key@) == Ok::<
                Seq<TokenView>,
                ParseErrorView,
            >(views(inner@)),
            Err(e) => spec_list(views(tokens@), pos as int, key@) == Err::<
                Seq<TokenView>,
                ParseErrorView,
            >(e@),
        },
{
    if !is_ident(tokens, pos, key) {
        return Err(ParseError::new(ErrorKind::ExpectedKeyword, key, 0));
    }
    if !is_punct(tokens, pos + 1, '=') {
        return Err(ParseError::new(ErrorKind::ExpectedPunct, "=", 0));
    }
    match group(tokens, pos + 2, Delim::Bracket) {
        Some(inner) => Ok(inner),
        None => Err(ParseError::new(ErrorKind::ExpectedGroup, key, 0)),
    }
}

fn parse_special(inner: &Vec<Token>) -> (r: Result<Element, ParseError>)
    ensures
        match r {
            Ok(x) => spec_special(views(inner@)) == Ok::<ElementView, ParseErrorView>(x@),
            Err(e) => spec_special(views(inner@)) == Err::<ElementView, ParseErrorView>(e@),
        },
{
    match parse_field(inner, 0, "ty") {
        Err(e) => Err(e),
        Ok(kind) => if inner.len() > 3 {
            Err(ParseError::plain(ErrorKind::UnexpectedToken))
        } else {
            Ok(Element::Special { kind })
        },
    }
}

fn parse_compile(inner: &Vec<Token>) -> (r: Result<Element, ParseError>)
    ensures
        match r {
            Ok(x) => spec_compile(views(inner@)) == Ok::<ElementView, ParseErrorView>(x@),
            Err(e) => spec_compile(views(inner@)) == Err::<ElementView, ParseErrorView>(e@),
        },
{
    match parse_field(inner, 0, "path") {
        Err(e) => Err(e),
        Ok(path) => {
            if inner.len() == 3 {
                return Ok(Element::CompileFromPath { path, route: None });
            }
            proof {
                lemma_views_index(inner@, 3);
            }
            if !is_punct(inner, 3, ',') {
                return Err(ParseError::plain(ErrorKind::UnexpectedToken));
            }
            match parse_field(inner, 4, "route") {
                Err(e) => Err(e),
                Ok(route) => if inner.len() > 7 {
                    Err(ParseError::plain(ErrorKind::UnexpectedToken))
                } else {
                    Ok(Element::CompileFromPath { path, route: Some(route) })
                },
            }
        },
    }
}

impl Element {
    /// Reads the content element that the two decoded tokens at `pos` write.
    pub fn parse(tokens: &Vec<Token>, pos: usize) -> (r: Result<Self, ParseError>)
        ensures
            match r {
                Ok(x) => spec_element(views(tokens@), pos as int) == Ok::<
                    ElementView,
                    ParseErrorView,
                >(x@),
                Err(e) => spec_element(views(tokens@), pos as int) == Err::<
                    ElementView,
                    ParseErrorView,
                >(e@),
            },
    {
        assert(views(tokens@).len() == tokens.len());
        if is_ident(tokens, pos, "special") {
            match group(tokens, pos + 1, Delim::Paren) {
                Some(inner) => parse_special(inner),
                None => Err(ParseError::new(ErrorKind::ExpectedGroup, "special", 0)),
            }
        } else if is_ident(tokens, pos, "compile_from_path") {
            match group(tokens, pos + 1, Delim::Paren) {
                Some(inner) => parse_compile(inner),
                None => Err(ParseError::new(ErrorKind::ExpectedGroup, "compile_from_path", 0)),
            }
        } else {
            Err(ParseError::plain(ErrorKind::UnknownElement))
        }
    }

    /// Reads the content list that the decoded tokens inside its brackets
    /// write.
    pub fn parse_list(tokens: &Vec<Token>) -> (r: Result<Vec<Self>, ParseError>)
        ensures
            match r {
                Ok(v) => spec_elements(views(tokens@), 0) == Ok::<
                    Seq<ElementView>,
                    ParseErrorView,
                >(element_views(v@)) && v.len() > 0,
                Err(e) => spec_elements(views(tokens@), 0) == Err::<
                    Seq<ElementView>,
                    ParseErrorView,
                >(e@),
            },
    {
        let ghost ts = views(tokens@);
        let mut out: Vec<Element> = Vec::new();
        let mut pos: usize = 0;
        loop
            invariant
                pos <= tokens.len(),
                ts == views(tokens@),
                spec_elements(ts, 0) == match spec_elements(ts, pos as int) {
                    Ok(rest) => Ok::<Seq<ElementView>, ParseErrorView>(element_views(out@) + rest),
                    Err(e) => Err(e),
                },
            decreases tokens.len() - pos,
        {
            match Self::parse(tokens, pos) {
                Err(e) => {
                    return Err(e);
                },
                Ok(x) => {
                    let ghost before = element_views(out@);
                    let ghost xv = x@;
                    out.push(x);
                    proof {
                        assert(element_views(out@) =~= before.push(xv));
                    }
                    if pos + 2 >= tokens.len() {
                        proof {
                            assert(before + seq![xv] =~= before.push(xv));
                        }
                        return Ok(out);
                    }
                    proof {
                        lemma_views_index(tokens@, pos + 2);
                    }
                    if !is_punct(tokens, pos + 2, ',') {
                        return Err(ParseError::plain(ErrorKind::UnexpectedToken));
                    }
                    proof {
                        let next = spec_elements(ts, pos + 3);
                        if next is Ok {
                            assert(before + (seq![xv] + next->Ok_0) =~= before.push(xv)
                                + next->Ok_0);
                        }
                    }
                    pos = pos + 3;
                },
            }
        }
    }
}

fn parse_nproc(tokens: &Vec<Token>, pos: usize) -> (r: Result<usize, ParseError>)
    requires
        pos + 3 <= usize::MAX,
    ensures
        match r {
            Ok(n) => spec_nproc(views(tokens@), pos as int) == Ok::<nat, ParseErrorView>(n as nat)
                && n >= 1,
            Err(e) => spec_nproc(views(tokens@), pos as int) == Err::<nat, ParseErrorView>(e@),
        },
{
    if !is_ident(tokens, pos, "nproc") {
        return Err(ParseError::new(ErrorKind::ExpectedKeyword, "nproc", 0));
    }
    if !is_punct(tokens, pos + 1, '=') {
        return Err(ParseError::new(ErrorKind::ExpectedPunct, "=", 0));
    }
    if pos + 2 < tokens.len() {
        proof {
            lemma_views_index(tokens@, pos + 2);
        }
        match &tokens[pos + 2] {
            Token::Int(digits) => {
                match parse_integer(digits.as_str(), 0, usize::MAX as i128) {
                    Some(v) => {
                        if v < 1 {
                            return Err(ParseError::plain(ErrorKind::InvalidNproc));
                        }
                        if pos + 3 < tokens.len() {
                            return Err(ParseError::plain(ErrorKind::UnexpectedToken));
                        }
                        return Ok(v as usize);
                    },
                    None => {
                        return Err(ParseError::plain(ErrorKind::InvalidNproc));
                    },
                }
            },
            _ => {},
        }
    }
    Err(ParseError::plain(ErrorKind::InvalidNproc))
}

fn parse_nproc_tail(tokens: &Vec<Token>, pos: usize) -> (r: Result<usize, ParseError>)
    requires
        pos + 4 <= usize::MAX,
    ensures
        match r {
            Ok(n) => spec_nproc_tail(views(tokens@), pos as int) == Ok::<nat, ParseErrorView>(
                n as nat,
            ) && n >= 1,
            Err(e) => spec_nproc_tail(views(tokens@), pos as int) == Err::<nat, ParseErrorView>(
                e@,
            ),
        },
{
    if pos >= tokens.len() {
        return Ok(1);
    }
    proof {
        lemma_views_index(tokens@, pos as int);
    }
    if !is_punct(tokens, pos, ',') {
        return Err(ParseError::plain(ErrorKind::UnexpectedToken));
    }
    parse_nproc(tokens, pos + 1)
}

fn parse_tail(tokens: &Vec<Token>, pos: usize) -> (r: Result<
    (Vec<ConverterOption>, usize),
    ParseError,
>)
    requires
        pos + 8 <= usize::MAX,
    ensures
        match r {
            Ok(t) => spec_tail(views(tokens@), pos as int) == Ok::<
                (Seq<ConverterOptionView>, nat),
                ParseErrorView,
            >((option_views(t.0@), t.1 as nat)) && t.1 >= 1,
            Err(e) => spec_tail(views(tokens@), pos as int) == Err::<
                (Seq<ConverterOptionView>, nat),
                ParseErrorView,
            >(e@),
        },
{
    if pos >= tokens.len() {
        let none: Vec<ConverterOption> = Vec::new();
        assert(option_views(none@) =~= Seq::<ConverterOptionView>::empty());
        return Ok((none, 1));
    }
    proof {
        lemma_views_index(tokens@, pos as int);
    }
    if !is_punct(tokens, pos, ',') {
        return Err(ParseError::plain(ErrorKind::UnexpectedToken));
    }
    if is_ident(tokens, pos + 1, "options") {
        match parse_list(tokens, pos + 1, "options") {
            Err(e) => Err(e),
            Ok(inner) => match parse_decoded_options(inner) {
                Err(e) => Err(e),
                Ok(options) => match parse_nproc_tail(tokens, pos + 4) {
                    Err(e) => Err(e),
                    Ok(n) => Ok((options, n)),
                },
            },
        }
    } else {
        match parse_nproc(tokens, pos + 1) {
            Err(e) => Err(e),
            Ok(n) => {
                let none: Vec<ConverterOption> = Vec::new();
                assert(option_views(none@) =~= Seq::<ConverterOptionView>::empty());
                Ok((none, n))
            },
        }
    }
}

impl Options {
    /// Reads a manifest from decoded tokens.
    pub fn parse_decoded(tokens: &Vec<Token>) -> (r: Result<Self, ParseError>)
        ensures
            match r {
                Ok(o) => spec_manifest(views(tokens@)) == Ok::<OptionsView, ParseErrorView>(o@)
                    && o@.wf(),
                Err(e) => spec_manifest(views(tokens@)) == Err::<OptionsView, ParseErrorView>(e@),
            },
    {
        let mod_name = match parse_named(tokens, 0, "mod_name") {
            Err(e) => {
                return Err(e);
            },
            Ok(name) => name,
        };
        if !is_punct(tokens, 3, ',') {
            return Err(ParseError::new(ErrorKind::ExpectedPunct, ",", 0));
        }
        let tree_name = match parse_named(tokens, 4, "tree_name") {
            Err(e) => {
                return Err(e);
            },
            Ok(name) => name,
        };
        if !is_punct(tokens, 7, ',') {
            return Err(ParseError::new(ErrorKind::ExpectedPunct, ",", 0));
        }
        let inner = match parse_list(tokens, 8, "content") {
            Err(e) => {
                return Err(e);
            },
            Ok(inner) => inner,
        };
        let content = match Element::parse_list(inner) {
            Err(e) => {
                return Err(e);
            },
            Ok(content) => content,
        };
        match parse_tail(tokens, 11) {
            Err(e) => Err(e),
            Ok(tail) => {
                let (pandoc_options, nproc) = tail;
                Ok(Options { mod_name, tree_name, content, pandoc_options, nproc })
            },
        }
    }

    /// Reads a manifest: decodes the literals of `tokens`, then reads the
    /// grammar.
    ///
    /// Where `tokens` holds no undecoded literal the result is that of
    /// [`Options::parse_decoded`]. What an undecoded literal decodes to is
    /// decided outside this crate.
    pub fn parse(tokens: &Vec<Token>) -> (r: Result<Self, ParseError>)
        ensures
            spec_reads_to(views(tokens@), manifest_result_view(r)),
            spec_all_decoded(views(tokens@)) ==> manifest_result_view(r) == spec_manifest(
                views(tokens@),
            ),
            r matches Ok(o) ==> o@.wf(),
    {
        let decoded = resolve_literals(tokens);
        proof {
            if spec_all_decoded(views(tokens@)) {
                lemma_decoded_tokens_stay(views(tokens@), views(decoded@));
            }
        }
        Self::parse_decoded(&decoded)
    }
}

/// The value of what a manifest reader returns.
pub open spec fn manifest_result_view(r: Result<Options, ParseError>) -> Result<
    OptionsView,
    ParseErrorView,
> {
    match r {
        Ok(o) => Ok(o@),
        Err(e) => Err(e@),
    }
}

/// Whether `r` is what the manifest `ts` writes once its literals are decoded,
/// for some outcome of the decoding that [`spec_decodes_all`] admits.
pub open spec fn spec_reads_to(ts: Seq<TokenView>, r: Result<OptionsView, ParseErrorView>) -> bool {
    exists|d: Seq<TokenView>| #[trigger] spec_decodes_all(ts, d) && spec_manifest(d) == r
}

} // verus!
