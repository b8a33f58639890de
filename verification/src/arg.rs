//! The option list of a manifest: its grammar, and the decoding of each
//! option by name into a typed converter option.
//!
//! An option is an identifier, optionally followed by a brace group of
//! positional arguments separated by commas. Options may be separated by
//! commas. The functions here read decoded tokens (see
//! [`crate::token::resolve_literals`]); [`parse_pandoc_options`] decodes first.

use crate::error::{error_at, plain_error, ErrorKind, ParseError, ParseErrorView};
use crate::keyword::{is_reserved, spec_is_reserved};
use crate::options::{
    option_views, spec_option_name, spec_payload_kind, ConverterOption, ConverterOptionView,
    OptionName, Payload, PayloadKind, PayloadView, TrackChanges,
};
use crate::text::{parse_integer, spec_parse_integer, text_is};
use crate::token::{
    lemma_decoded_tokens_stay, resolve_literals, spec_all_decoded, spec_decodes_all, views, Delim,
    Token, TokenView,
};
use vstd::prelude::*;

verus! {

/// One positional argument of an option.
#[derive(Debug, PartialEq, Eq)]
pub enum Arg {
    /// A string literal, by the text it denotes.
    Str(String),
    /// An integer literal, by its digits in base 10.
    Int(String),
    /// A bare identifier.
    Ident(String),
    /// Any other expression.
    Other,
}

/// The mathematical value of an [`Arg`].
pub ghost enum ArgView {
    Str(Seq<char>),
    Int(Seq<char>),
    Ident(Seq<char>),
    Other,
}

/// One option as written: a bare name, or a name with arguments.
#[derive(Debug, PartialEq, Eq)]
pub enum PandocOptionExpr {
    Unit(String),
    Variant(String, Vec<Arg>),
}

/// The mathematical value of a [`PandocOptionExpr`].
pub ghost enum OptionExprView {
    Unit(Seq<char>),
    Variant(Seq<char>, Seq<ArgView>),
}

/// The options of a manifest as written, in order.
#[derive(Debug, PartialEq, Eq)]
pub struct PandocOptionList(pub Vec<PandocOptionExpr>);

impl Arg {
    pub open spec fn view(&self) -> ArgView {
        match self {
            Arg::Str(s) => ArgView::Str(s@),
            Arg::Int(s) => ArgView::Int(s@),
            Arg::Ident(s) => ArgView::Ident(s@),
            Arg::Other => ArgView::Other,
        }
    }
}

/// The values of a run of arguments, one for one.
pub open spec fn arg_views(args: Seq<Arg>) -> Seq<ArgView> {
    args.map_values(|a: Arg| a@)
}

impl PandocOptionExpr {
    pub open spec fn view(&self) -> OptionExprView {
        match self {
            PandocOptionExpr::Unit(name) => OptionExprView::Unit(name@),
            PandocOptionExpr::Variant(name, args) => OptionExprView::Variant(
                name@,
                arg_views(args@),
            ),
        }
    }
}

/// The values of a run of options as written, one for one.
pub open spec fn expr_views(exprs: Seq<PandocOptionExpr>) -> Seq<OptionExprView> {
    exprs.map_values(|e: PandocOptionExpr| e@)
}

impl PandocOptionList {
    pub open spec fn view(&self) -> Seq<OptionExprView> {
        expr_views(self.0@)
    }
}

/// Whether `t` is the comma.
pub open spec fn is_comma(t: TokenView) -> bool {
    t == TokenView::Punct(',')
}

/// The tokens of a brace group, where `t` is one.
pub open spec fn brace_group(t: TokenView) -> Option<Seq<TokenView>> {
    match t {
        TokenView::Group(d, inner) => if d == Delim::Brace {
            Some(inner)
        } else {
            None
        },
        _ => None,
    }
}

/// The number of tokens from `pos` up to the next comma or the end.
pub open spec fn run_len(ts: Seq<TokenView>, pos: int) -> nat
    decreases ts.len() - pos,
{
    if pos < 0 || pos >= ts.len() || is_comma(ts[pos]) {
        0
    } else {
        1 + run_len(ts, pos + 1)
    }
}

/// The argument that the `len` tokens from `pos` write: a lone string, integer
/// or identifier token is that argument; anything else is `Other`.
pub open spec fn spec_classify(ts: Seq<TokenView>, pos: int, len: nat) -> ArgView {
    if len == 1 && 0 <= pos < ts.len() {
        match ts[pos] {
            TokenView::Str(v) => ArgView::Str(v),
            TokenView::Int(d) => ArgView::Int(d),
            TokenView::Ident(n) => ArgView::Ident(n),
            _ => ArgView::Other,
        }
    } else {
        ArgView::Other
    }
}

/// Where the argument after the one of `len` tokens at `pos` starts: behind
/// the comma that ends it, or at the end where none does.
pub open spec fn next_arg(ts: Seq<TokenView>, pos: int, len: nat) -> int {
    if pos + len < ts.len() {
        pos + len + 1
    } else {
        ts.len() as int
    }
}

/// The arguments that the tokens from `pos` write: runs of tokens separated by
/// commas, a comma after the last one allowed. `Err` holds the position, among
/// the arguments from `pos`, of the first empty one.
pub open spec fn spec_args(ts: Seq<TokenView>, pos: int) -> Result<Seq<ArgView>, nat>
    decreases ts.len() - pos,
{
    if pos < 0 || pos >= ts.len() {
        Ok(Seq::empty())
    } else {
        let len = run_len(ts, pos);
        if len == 0 {
            Err(0)
        } else {
            match spec_args(ts, next_arg(ts, pos, len)) {
                Ok(rest) => Ok(seq![spec_classify(ts, pos, len)] + rest),
                Err(i) => Err((i + 1) as nat),
            }
        }
    }
}

/// Where the option that starts at `pos` ends: behind its name, its brace
/// group if it has one, and one comma if one follows.
pub open spec fn option_end(ts: Seq<TokenView>, pos: int) -> int {
    let after = if pos + 1 < ts.len() && brace_group(ts[pos + 1]) is Some {
        pos + 2
    } else {
        pos + 1
    };
    if after < ts.len() && is_comma(ts[after]) {
        after + 1
    } else {
        after
    }
}

/// The option that starts at `pos`, as written.
pub open spec fn spec_option_expr(ts: Seq<TokenView>, pos: int) -> Result<
    OptionExprView,
    ParseErrorView,
> {
    if pos < 0 || pos >= ts.len() {
        Err(plain_error(ErrorKind::ExpectedIdentifier))
    } else {
        match ts[pos] {
            TokenView::Ident(name) => if spec_is_reserved(name) {
                Err(plain_error(ErrorKind::ExpectedIdentifier))
            } else if pos + 1 < ts.len() && brace_group(ts[pos + 1]) is Some {
                match spec_args(brace_group(ts[pos + 1])->0, 0) {
                    Ok(args) => Ok(OptionExprView::Variant(name, args)),
                    Err(i) => Err(error_at(ErrorKind::EmptyArgument, name, i)),
                }
            } else {
                Ok(OptionExprView::Unit(name))
            },
            _ => Err(plain_error(ErrorKind::ExpectedIdentifier)),
        }
    }
}

/// The options that the tokens from `pos` write, in order; the first error
/// met, if there is one.
pub open spec fn spec_option_list(ts: Seq<TokenView>, pos: int) -> Result<
    Seq<OptionExprView>,
    ParseErrorView,
>
    decreases ts.len() - pos,
{
    if pos < 0 || pos >= ts.len() {
        Ok(Seq::empty())
    } else {
        match spec_option_expr(ts, pos) {
            Err(e) => Err(e),
            Ok(x) => match spec_option_list(ts, option_end(ts, pos)) {
                Ok(rest) => Ok(seq![x] + rest),
                Err(e) => Err(e),
            },
        }
    }
}

/// The string argument at `idx`.
pub open spec fn spec_string_arg(option: Seq<char>, args: Seq<ArgView>, idx: nat) -> Result<
    Seq<char>,
    ParseErrorView,
> {
    if idx < args.len() {
        match args[idx as int] {
            ArgView::Str(v) => Ok(v),
            _ => Err(error_at(ErrorKind::ExpectedString, option, idx)),
        }
    } else {
        Err(error_at(ErrorKind::ExpectedString, option, idx))
    }
}

/// The integer argument at `idx`, for a number type whose values are
/// `lo..=hi`.
pub open spec fn spec_number_arg(
    option: Seq<char>,
    args: Seq<ArgView>,
    idx: nat,
    lo: int,
    hi: int,
) -> Result<int, ParseErrorView> {
    if idx < args.len() {
        match args[idx as int] {
            ArgView::Int(digits) => match spec_parse_integer(digits, lo, hi) {
                Some(v) => Ok(v),
                None => Err(error_at(ErrorKind::IntegerRange, option, idx)),
            },
            _ => Err(error_at(ErrorKind::ExpectedInteger, option, idx)),
        }
    } else {
        Err(error_at(ErrorKind::ExpectedInteger, option, idx))
    }
}

/// The change-tracking mode that the arguments name.
pub open spec fn spec_tracking(option: Seq<char>, args: Seq<ArgView>) -> Result<
    TrackChanges,
    ParseErrorView,
> {
    if args.len() == 0 {
        Err(error_at(ErrorKind::TrackChangesMissing, option, 0))
    } else {
        match args[0] {
            ArgView::Ident(n) => if n == "Accept"@ {
                Ok(TrackChanges::Accept)
            } else if n == "Reject"@ {
                Ok(TrackChanges::Reject)
            } else if n == "All"@ {
                Ok(TrackChanges::All)
            } else {
                Err(error_at(ErrorKind::TrackChangesInvalid, option, 0))
            },
            _ => Err(error_at(ErrorKind::TrackChangesInvalid, option, 0)),
        }
    }
}

/// The payload of kind `kind` that the arguments of `option` write.
pub open spec fn spec_payload(option: Seq<char>, kind: PayloadKind, args: Seq<ArgView>) -> Result<
    PayloadView,
    ParseErrorView,
> {
    match kind {
        PayloadKind::Bare => Err(error_at(ErrorKind::Unsupported, option, 0)),
        PayloadKind::Text => match spec_string_arg(option, args, 0) {
            Ok(v) => Ok(PayloadView::Text(v)),
            Err(e) => Err(e),
        },
        PayloadKind::Path => match spec_string_arg(option, args, 0) {
            Ok(v) => Ok(PayloadView::Path(v)),
            Err(e) => Err(e),
        },
        PayloadKind::Unsigned => match spec_number_arg(option, args, 0, 0, u32::MAX as int) {
            Ok(v) => Ok(PayloadView::Unsigned(v as u32)),
            Err(e) => Err(e),
        },
        PayloadKind::Signed => match spec_number_arg(
            option,
            args,
            0,
            i32::MIN as int,
            i32::MAX as int,
        ) {
            Ok(v) => Ok(PayloadView::Signed(v as i32)),
            Err(e) => Err(e),
        },
        PayloadKind::KeyValue => match spec_string_arg(option, args, 0) {
            Err(e) => Err(e),
            Ok(key) => if args.len() > 1 {
                match spec_string_arg(option, args, 1) {
                    Ok(v) => Ok(PayloadView::KeyValue(key, Some(v))),
                    Err(e) => Err(e),
                }
            } else {
                Ok(PayloadView::KeyValue(key, None))
            },
        },
        PayloadKind::Tracking => match spec_tracking(option, args) {
            Ok(t) => Ok(PayloadView::Tracking(t)),
            Err(e) => Err(e),
        },
    }
}

/// The converter option that an option as written stands for.
///
/// A bare name must be one of the flags. A name with arguments must be one of
/// the options that carry a payload, and its arguments must write one.
pub open spec fn spec_decode_option(e: OptionExprView) -> Result<
    ConverterOptionView,
    ParseErrorView,
> {
    match e {
        OptionExprView::Unit(name) => match spec_option_name(name) {
            Some(n) => if spec_payload_kind(n) == PayloadKind::Bare {
                Ok(ConverterOptionView { name: n, payload: PayloadView::Bare })
            } else {
                Err(error_at(ErrorKind::UnknownUnit, name, 0))
            },
            None => Err(error_at(ErrorKind::UnknownUnit, name, 0)),
        },
        OptionExprView::Variant(name, args) => match spec_option_name(name) {
            Some(n) => match spec_payload(name, spec_payload_kind(n), args) {
                Ok(p) => Ok(ConverterOptionView { name: n, payload: p }),
                Err(e) => Err(e),
            },
            None => Err(error_at(ErrorKind::Unsupported, name, 0)),
        },
    }
}

/// The converter options that the options as written from `pos` stand for, in
/// order; the first error met, if there is one.
pub open spec fn spec_decode_all(es: Seq<OptionExprView>, pos: int) -> Result<
    Seq<ConverterOptionView>,
    ParseErrorView,
>
    decreases es.len() - pos,
{
    if pos < 0 || pos >= es.len() {
        Ok(Seq::empty())
    } else {
        match spec_decode_option(es[pos]) {
            Err(e) => Err(e),
            Ok(x) => match spec_decode_all(es, pos + 1) {
                Ok(rest) => Ok(seq![x] + rest),
                Err(e) => Err(e),
            },
        }
    }
}

/// The converter options that a run of decoded tokens writes: its grammar is
/// read whole, then each option is decoded in turn.
pub open spec fn spec_parse_options(ts: Seq<TokenView>) -> Result<
    Seq<ConverterOptionView>,
    ParseErrorView,
> {
    match spec_option_list(ts, 0) {
        Err(e) => Err(e),
        Ok(es) => spec_decode_all(es, 0),
    }
}

/// `front` put before what `rest` holds; the error of `rest` where it is one.
pub open spec fn prepend<T, E>(front: Seq<T>, rest: Result<Seq<T>, E>) -> Result<Seq<T>, E> {
    match rest {
        Ok(r) => Ok(front + r),
        Err(e) => Err(e),
    }
}

/// The view of `tokens[k]` is the `k`-th of the views.
pub proof fn lemma_views_index(tokens: Seq<Token>, k: int)
    requires
        0 <= k < tokens.len(),
    ensures
        views(tokens)[k] == tokens[k]@,
        views(tokens).len() == tokens.len(),
{
}

fn token_is_comma(t: &Token) -> (r: bool)
    ensures
        r == is_comma(t@),
{
    match t {
        Token::Punct(c) => *c == ',',
        _ => false,
    }
}

fn classify(tokens: &Vec<Token>, pos: usize, len: usize) -> (r: Arg)
    requires
        pos + len <= tokens.len(),
    ensures
        r@ == spec_classify(views(tokens@), pos as int, len as nat),
{
    if len == 1 {
        proof {
            lemma_views_index(tokens@, pos as int);
        }
        match &tokens[pos] {
            Token::Str(v) => Arg::Str(v.clone()),
            Token::Int(d) => Arg::Int(d.clone()),
            Token::Ident(n) => Arg::Ident(n.clone()),
            _ => Arg::Other,
        }
    } else {
        Arg::Other
    }
}

fn measure_run(tokens: &Vec<Token>, pos: usize) -> (len: usize)
    requires
        pos <= tokens.len(),
    ensures
        len == run_len(views(tokens@), pos as int),
        pos + len <= tokens.len(),
{
    let ghost ts = views(tokens@);
    let mut end: usize = pos;
    while end < tokens.len() && !token_is_comma(&tokens[end])
        invariant
            pos <= end <= tokens.len(),
            ts == views(tokens@),
            run_len(ts, pos as int) == (end - pos) + run_len(ts, end as int),
        decreases tokens.len() - end,
    {
        proof {
            lemma_views_index(tokens@, end as int);
        }
        end += 1;
    }
    proof {
        if end < tokens.len() {
            lemma_views_index(tokens@, end as int);
        }
    }
    end - pos
}

/// Reads the arguments inside a brace group.
fn parse_args(tokens: &Vec<Token>) -> (r: Result<Vec<Arg>, usize>)
    ensures
        match r {
            Ok(args) => spec_args(views(tokens@), 0) == Ok::<Seq<ArgView>, nat>(arg_views(args@)),
            Err(i) => spec_args(views(tokens@), 0) == Err::<Seq<ArgView>, nat>(i as nat),
        },
{
    let ghost ts = views(tokens@);
    let mut out: Vec<Arg> = Vec::new();
    let mut pos: usize = 0;
    while pos < tokens.len()
        invariant
            pos <= tokens.len(),
            ts == views(tokens@),
            out.len() <= pos,
            spec_args(ts, 0) == match spec_args(ts, pos as int) {
                Ok(rest) => Ok::<Seq<ArgView>, nat>(arg_views(out@) + rest),
                Err(i) => Err((i + out.len()) as nat),
            },
        decreases tokens.len() - pos,
    {
        let len = measure_run(tokens, pos);
        if len == 0 {
            return Err(out.len());
        }
        let arg = classify(tokens, pos, len);
        proof {
            let before = arg_views(out@);
            let next = spec_args(ts, next_arg(ts, pos as int, len as nat));
            assert(arg_views(out@.push(arg)) =~= before.push(arg@));
            if next is Ok {
                assert(before + (seq![arg@] + next->Ok_0) =~= before.push(arg@) + next->Ok_0);
            }
        }
        out.push(arg);
        pos = if pos + len < tokens.len() {
            pos + len + 1
        } else {
            tokens.len()
        };
    }
    proof {
        assert(arg_views(out@) + Seq::<ArgView>::empty() =~= arg_views(out@));
    }
    Ok(out)
}

impl PandocOptionList {
    /// Reads an option list from decoded tokens, without decoding the options.
    pub fn parse(tokens: &Vec<Token>) -> (r: Result<Self, ParseError>)
        ensures
            match r {
                Ok(list) => spec_option_list(views(tokens@), 0) == Ok::<
                    Seq<OptionExprView>,
                    ParseErrorView,
                >(list@),
                Err(e) => spec_option_list(views(tokens@), 0) == Err::<
                    Seq<OptionExprView>,
                    ParseErrorView,
                >(e@),
            },
    {
        let ghost ts = views(tokens@);
        let mut out: Vec<PandocOptionExpr> = Vec::new();
        let mut pos: usize = 0;
        while pos < tokens.len()
            invariant
                pos <= tokens.len(),
                ts == views(tokens@),
                spec_option_list(ts, 0) == prepend(expr_views(out@), spec_option_list(ts, pos as int)),
            decreases tokens.len() - pos,
        {
            proof {
                lemma_views_index(tokens@, pos as int);
                if pos + 1 < tokens.len() {
                    lemma_views_index(tokens@, pos + 1);
                }
            }
            let name = match &tokens[pos] {
                Token::Ident(name) => name,
                _ => {
                    return Err(ParseError::plain(ErrorKind::ExpectedIdentifier));
                },
            };
            if is_reserved(name) {
                return Err(ParseError::plain(ErrorKind::ExpectedIdentifier));
            }
            let mut after: usize = pos + 1;
            let mut expr = PandocOptionExpr::Unit(name.clone());
            if pos + 1 < tokens.len() {
                match &tokens[pos + 1] {
                    Token::Group(Delim::Brace, inner) => {
                        match parse_args(inner) {
                            Ok(args) => {
                                expr = PandocOptionExpr::Variant(name.clone(), args);
                            },
                            Err(i) => {
                                return Err(
                                    ParseError::new(ErrorKind::EmptyArgument, name.as_str(), i),
                                );
                            },
                        }
                        after = pos + 2;
                    },
                    _ => {},
                }
            }
            if after < tokens.len() {
                proof {
                    lemma_views_index(tokens@, after as int);
                }
                if token_is_comma(&tokens[after]) {
                    after = after + 1;
                }
            }
            proof {
                let before = expr_views(out@);
                let next = spec_option_list(ts, after as int);
                assert(after == option_end(ts, pos as int));
                assert(spec_option_expr(ts, pos as int) == Ok::<OptionExprView, ParseErrorView>(
                    expr@,
                ));
                assert(expr_views(out@.push(expr)) =~= before.push(expr@));
                if next is Ok {
                    assert(before + (seq![expr@] + next->Ok_0) =~= before.push(expr@)
                        + next->Ok_0);
                }
            }
            out.push(expr);
            pos = after;
        }
        proof {
            assert(expr_views(out@) + Seq::<OptionExprView>::empty() =~= expr_views(out@));
        }
        Ok(PandocOptionList(out))
    }
}

/// Takes the string argument at `idx` of the option named `option`.
pub fn parse_string_arg(option: &String, args: &Vec<Arg>, idx: usize) -> (r: Result<
    String,
    ParseError,
>)
    ensures
        match r {
            Ok(v) => spec_string_arg(option@, arg_views(args@), idx as nat) == Ok::<
                Seq<char>,
                ParseErrorView,
            >(v@),
            Err(e) => spec_string_arg(option@, arg_views(args@), idx as nat) == Err::<
                Seq<char>,
                ParseErrorView,
            >(e@),
        },
{
    if idx < args.len() {
        match &args[idx] {
            Arg::Str(v) => Ok(v.clone()),
            _ => Err(ParseError::new(ErrorKind::ExpectedString, option.as_str(), idx)),
        }
    } else {
        Err(ParseError::new(ErrorKind::ExpectedString, option.as_str(), idx))
    }
}

/// Takes the integer argument at `idx` of the option named `option`, for a
/// number type whose values are `lo..=hi`.
pub fn parse_number_arg(option: &String, args: &Vec<Arg>, idx: usize, lo: i64, hi: i64) -> (r:
    Result<i64, ParseError>)
    requires
        lo <= 0 <= hi,
    ensures
        match r {
            Ok(v) => spec_number_arg(option@, arg_views(args@), idx as nat, lo as int, hi as int)
                == Ok::<int, ParseErrorView>(v as int),
            Err(e) => spec_number_arg(option@, arg_views(args@), idx as nat, lo as int, hi as int)
                == Err::<int, ParseErrorView>(e@),
        },
{
    if idx < args.len() {
        match &args[idx] {
            Arg::Int(digits) => match parse_integer(digits.as_str(), lo as i128, hi as i128) {
                Some(v) => Ok(v as i64),
                None => Err(ParseError::new(ErrorKind::IntegerRange, option.as_str(), idx)),
            },
            _ => Err(ParseError::new(ErrorKind::ExpectedInteger, option.as_str(), idx)),
        }
    } else {
        Err(ParseError::new(ErrorKind::ExpectedInteger, option.as_str(), idx))
    }
}

/// Takes the change-tracking mode that the arguments of `option` name.
pub fn parse_tracking_arg(option: &String, args: &Vec<Arg>) -> (r: Result<
    TrackChanges,
    ParseError,
>)
    ensures
        match r {
            Ok(t) => spec_tracking(option@, arg_views(args@)) == Ok::<
                TrackChanges,
                ParseErrorView,
            >(t),
            Err(e) => spec_tracking(option@, arg_views(args@)) == Err::<
                TrackChanges,
                ParseErrorView,
            >(e@),
        },
{
    if args.len() == 0 {
        return Err(ParseError::new(ErrorKind::TrackChangesMissing, option.as_str(), 0));
    }
    match &args[0] {
        Arg::Ident(n) => {
            if text_is(n, "Accept") {
                Ok(TrackChanges::Accept)
            } else if text_is(n, "Reject") {
                Ok(TrackChanges::Reject)
            } else if text_is(n, "All") {
                Ok(TrackChanges::All)
            } else {
                Err(ParseError::new(ErrorKind::TrackChangesInvalid, option.as_str(), 0))
            }
        },
        _ => Err(ParseError::new(ErrorKind::TrackChangesInvalid, option.as_str(), 0)),
    }
}

/// Decodes the arguments of `option` into a payload of kind `kind`.
pub fn decode_payload(option: &String, kind: PayloadKind, args: &Vec<Arg>) -> (r: Result<
    Payload,
    ParseError,
>)
    ensures
        match r {
            Ok(p) => spec_payload(option@, kind, arg_views(args@)) == Ok::<
                PayloadView,
                ParseErrorView,
            >(p@),
            Err(e) => spec_payload(option@, kind, arg_views(args@)) == Err::<
                PayloadView,
                ParseErrorView,
            >(e@),
        },
{
    match kind {
        PayloadKind::Bare => Err(ParseError::new(ErrorKind::Unsupported, option.as_str(), 0)),
        PayloadKind::Text => match parse_string_arg(option, args, 0) {
            Ok(v) => Ok(Payload::Text(v)),
            Err(e) => Err(e),
        },
        PayloadKind::Path => match parse_string_arg(option, args, 0) {
            Ok(v) => Ok(Payload::Path(v)),
            Err(e) => Err(e),
        },
        PayloadKind::Unsigned => match parse_number_arg(option, args, 0, 0, 0xffff_ffff) {
            Ok(v) => Ok(Payload::Unsigned(v as u32)),
            Err(e) => Err(e),
        },
        PayloadKind::Signed => match parse_number_arg(
            option,
            args,
            0,
            -0x8000_0000,
            0x7fff_ffff,
        ) {
            Ok(v) => Ok(Payload::Signed(v as i32)),
            Err(e) => Err(e),
        },
        PayloadKind::KeyValue => match parse_string_arg(option, args, 0) {
            Err(e) => Err(e),
            Ok(key) => if args.len() > 1 {
                match parse_string_arg(option, args, 1) {
                    Ok(v) => Ok(Payload::KeyValue(key, Some(v))),
                    Err(e) => Err(e),
                }
            } else {
                Ok(Payload::KeyValue(key, None))
            },
        },
        PayloadKind::Tracking => match parse_tracking_arg(option, args) {
            Ok(t) => Ok(Payload::Tracking(t)),
            Err(e) => Err(e),
        },
    }
}

/// Decodes one option as written into a converter option.
pub fn decode_option(expr: &PandocOptionExpr) -> (r: Result<ConverterOption, ParseError>)
    ensures
        match r {
            Ok(o) => spec_decode_option(expr@) == Ok::<ConverterOptionView, ParseErrorView>(o@),
            Err(e) => spec_decode_option(expr@) == Err::<ConverterOptionView, ParseErrorView>(e@),
        },
        r matches Ok(o) ==> o@.wf(),
{
    match expr {
        PandocOptionExpr::Unit(name) => match OptionName::from_text(name) {
            Some(n) => match n.payload_kind() {
                PayloadKind::Bare => Ok(ConverterOption { name: n, payload: Payload::Bare }),
                _ => Err(ParseError::new(ErrorKind::UnknownUnit, name.as_str(), 0)),
            },
            None => Err(ParseError::new(ErrorKind::UnknownUnit, name.as_str(), 0)),
        },
        PandocOptionExpr::Variant(name, args) => match OptionName::from_text(name) {
            Some(n) => match decode_payload(name, n.payload_kind(), args) {
                Ok(p) => Ok(ConverterOption { name: n, payload: p }),
                Err(e) => Err(e),
            },
            None => Err(ParseError::new(ErrorKind::Unsupported, name.as_str(), 0)),
        },
    }
}

/// Decodes the options of a list in order, up to the first that fails.
pub fn decode_options(list: &PandocOptionList) -> (r: Result<Vec<ConverterOption>, ParseError>)
    ensures
        match r {
            Ok(v) => spec_decode_all(list@, 0) == Ok::<Seq<ConverterOptionView>, ParseErrorView>(
                option_views(v@),
            ),
            Err(e) => spec_decode_all(list@, 0) == Err::<
                Seq<ConverterOptionView>,
                ParseErrorView,
            >(e@),
        },
{
    let ghost es = list@;
    let mut out: Vec<ConverterOption> = Vec::new();
    let mut i: usize = 0;
    while i < list.0.len()
        invariant
            i <= list.0.len(),
            es == list@,
            es.len() == list.0.len(),
            spec_decode_all(es, 0) == prepend(option_views(out@), spec_decode_all(es, i as int)),
        decreases list.0.len() - i,
    {
        match decode_option(&list.0[i]) {
            Err(e) => {
                return Err(e);
            },
            Ok(o) => {
                proof {
                    let before = option_views(out@);
                    let next = spec_decode_all(es, i + 1);
                    assert(option_views(out@.push(o)) =~= before.push(o@));
                    if next is Ok {
                        assert(before + (seq![o@] + next->Ok_0) =~= before.push(o@) + next->Ok_0);
                    }
                }
                out.push(o);
            },
        }
        i += 1;
    }
    proof {
        assert(option_views(out@) + Seq::<ConverterOptionView>::empty() =~= option_views(out@));
    }
    Ok(out)
}

/// Reads and decodes the option list that a run of decoded tokens writes.
pub fn parse_decoded_options(tokens: &Vec<Token>) -> (r: Result<
    Vec<ConverterOption>,
    ParseError,
>)
    ensures
        match r {
            Ok(v) => spec_parse_options(views(tokens@)) == Ok::<
                Seq<ConverterOptionView>,
                ParseErrorView,
            >(option_views(v@)),
            Err(e) => spec_parse_options(views(tokens@)) == Err::<
                Seq<ConverterOptionView>,
                ParseErrorView,
            >(e@),
        },
{
    match PandocOptionList::parse(tokens) {
        Err(e) => Err(e),
        Ok(list) => decode_options(&list),
    }
}

/// The value of what an option decoder returns.
pub open spec fn options_result_view(r: Result<Vec<ConverterOption>, ParseError>) -> Result<
    Seq<ConverterOptionView>,
    ParseErrorView,
> {
    match r {
        Ok(v) => Ok(option_views(v@)),
        Err(e) => Err(e@),
    }
}

/// Whether `r` is what the option list `ts` writes once its literals are
/// decoded, for some outcome of the decoding that [`spec_decodes_all`]
/// admits.
pub open spec fn spec_parses_to(
    ts: Seq<TokenView>,
    r: Result<Seq<ConverterOptionView>, ParseErrorView>,
) -> bool {
    exists|d: Seq<TokenView>| #[trigger] spec_decodes_all(ts, d) && spec_parse_options(d) == r
}

/// Reads the option list of a manifest: decodes the literals of `tokens`,
/// reads the list, and decodes each option by its name.
///
/// Where `tokens` holds no undecoded literal the result is that of
/// [`parse_decoded_options`]. What an undecoded literal decodes to is decided
/// outside this crate.
pub fn parse_pandoc_options(tokens: &Vec<Token>) -> (r: Result<Vec<ConverterOption>, ParseError>)
    ensures
        spec_parses_to(views(tokens@), options_result_view(r)),
        spec_all_decoded(views(tokens@)) ==> options_result_view(r) == spec_parse_options(
            views(tokens@),
        ),
{
    let decoded = resolve_literals(tokens);
    proof {
        if spec_all_decoded(views(tokens@)) {
            lemma_decoded_tokens_stay(views(tokens@), views(decoded@));
        }
    }
    parse_decoded_options(&decoded)
}

} // verus!
