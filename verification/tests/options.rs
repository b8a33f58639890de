use content_tree::arg::{
    decode_option, decode_options, parse_decoded_options, parse_number_arg, parse_pandoc_options,
    parse_string_arg, parse_tracking_arg, Arg, PandocOptionExpr, PandocOptionList,
};
use content_tree::error::{ErrorKind, ParseError};
use content_tree::keyword::is_reserved;
use content_tree::options::{ConverterOption, OptionName, Payload, PayloadKind, TrackChanges};
use content_tree::text::{decimal, parse_integer, text_is};
use content_tree::token::{decoded_literal, resolve_literals, resolve_token, Delim, Token};

fn o_ident(s: &str) -> Token {
    Token::Ident(s.to_string())
}

fn o_lit(s: &str) -> Token {
    Token::Literal(s.to_string())
}

fn o_comma() -> Token {
    Token::Punct(',')
}

fn o_braces(inner: Vec<Token>) -> Token {
    Token::Group(Delim::Brace, inner)
}

fn o_flag(name: OptionName) -> ConverterOption {
    ConverterOption { name, payload: Payload::Bare }
}

fn o_with(name: &str, args: Vec<Token>) -> Vec<Token> {
    vec![o_ident(name), o_braces(args)]
}

fn o_error(tokens: Vec<Token>) -> ParseError {
    parse_pandoc_options(&tokens).unwrap_err()
}

fn o_one(tokens: Vec<Token>) -> ConverterOption {
    let mut opts = parse_pandoc_options(&tokens).unwrap();
    assert_eq!(opts.len(), 1);
    opts.remove(0)
}

#[test]
fn test_parse_unit_variants() {
    let input = vec![
        o_ident("Strict"),
        o_comma(),
        o_ident("ParseRaw"),
        o_comma(),
        o_ident("Smart"),
    ];
    let opts = parse_pandoc_options(&input).unwrap();
    assert_eq!(
        opts,
        vec![
            o_flag(OptionName::Strict),
            o_flag(OptionName::ParseRaw),
            o_flag(OptionName::Smart)
        ]
    );
}

#[test]
fn test_parse_variant_with_string_arg() {
    let input = o_with("DataDir", vec![o_lit("\"data\"")]);
    let opts = parse_pandoc_options(&input).unwrap();
    assert_eq!(opts[0].name, OptionName::DataDir);
    match &opts[0].payload {
        Payload::Path(p) => assert_eq!(p, "data"),
        _ => panic!("Expected DataDir variant"),
    }
}

#[test]
fn test_parse_variant_with_number_arg() {
    let input = o_with("TabStop", vec![o_lit("8")]);
    let opts = parse_pandoc_options(&input).unwrap();
    assert_eq!(opts[0].name, OptionName::TabStop);
    match &opts[0].payload {
        Payload::Unsigned(n) => assert_eq!(*n, 8),
        _ => panic!("Expected TabStop variant"),
    }
}

#[test]
fn test_parse_track_changes_accept() {
    let input = o_with("TrackChanges", vec![o_ident("Accept")]);
    let opts = parse_pandoc_options(&input).unwrap();
    assert_eq!(opts[0].name, OptionName::TrackChanges);
    match &opts[0].payload {
        Payload::Tracking(TrackChanges::Accept) => {}
        _ => panic!("Expected TrackChanges(Accept)"),
    }
}

#[test]
fn test_unknown_unit_variant_fails() {
    let input = vec![o_ident("Foo")];
    let err = parse_pandoc_options(&input).unwrap_err();
    assert!(err.message().contains("Unsupported or unknown unit variant"));
}

#[test]
fn test_unsupported_variant_fails() {
    let input = o_with("SomeUnsupported", vec![o_lit("\"arg\"")]);
    let err = parse_pandoc_options(&input).unwrap_err();
    assert!(err.message().contains("not yet supported"));
}

#[test]
fn unknown_unit_names_the_option() {
    let err = o_error(vec![o_ident("Foo")]);
    assert_eq!(err, ParseError { kind: ErrorKind::UnknownUnit, subject: "Foo".to_string(), index: 0 });
    assert_eq!(err.message(), "Unsupported or unknown unit variant `Foo`");
}

#[test]
fn unsupported_names_the_option() {
    let err = o_error(o_with("SomeUnsupported", vec![o_lit("\"arg\"")]));
    assert_eq!(err.kind, ErrorKind::Unsupported);
    assert_eq!(err.subject, "SomeUnsupported");
    assert_eq!(
        err.message(),
        "Variant `SomeUnsupported` with complex/custom type not yet supported"
    );
}

#[test]
fn every_flag_is_decoded() {
    let names = [
        ("Strict", OptionName::Strict),
        ("ParseRaw", OptionName::ParseRaw),
        ("Smart", OptionName::Smart),
        ("OldDashes", OptionName::OldDashes),
        ("Normalize", OptionName::Normalize),
        ("PreserveTabs", OptionName::PreserveTabs),
        ("Standalone", OptionName::Standalone),
        ("NoWrap", OptionName::NoWrap),
        ("TableOfContents", OptionName::TableOfContents),
        ("NoHighlight", OptionName::NoHighlight),
        ("SelfContained", OptionName::SelfContained),
        ("Offline", OptionName::Offline),
        ("Html5", OptionName::Html5),
        ("HtmlQTags", OptionName::HtmlQTags),
        ("Ascii", OptionName::Ascii),
        ("ReferenceLinks", OptionName::ReferenceLinks),
        ("AtxHeaders", OptionName::AtxHeaders),
        ("NumberSections", OptionName::NumberSections),
        ("NoTexLigatures", OptionName::NoTexLigatures),
        ("Listings", OptionName::Listings),
        ("Incremental", OptionName::Incremental),
        ("SectionDivs", OptionName::SectionDivs),
        ("Citeproc", OptionName::Citeproc),
        ("Natbib", OptionName::Natbib),
        ("Biblatex", OptionName::Biblatex),
        ("GladTex", OptionName::GladTex),
        ("Trace", OptionName::Trace),
        ("DumpArgs", OptionName::DumpArgs),
        ("IgnoreArgs", OptionName::IgnoreArgs),
        ("Verbose", OptionName::Verbose),
        ("Sandbox", OptionName::Sandbox),
    ];
    assert_eq!(names.len(), 31);
    for (text, name) in names {
        assert_eq!(OptionName::from_text(&text.to_string()), Some(name));
        assert_eq!(name.payload_kind(), PayloadKind::Bare);
        assert_eq!(o_one(vec![o_ident(text)]), o_flag(name));
    }
}

#[test]
fn every_path_option_is_decoded() {
    let names = [
        ("DataDir", OptionName::DataDir),
        ("Defaults", OptionName::Defaults),
        ("Filter", OptionName::Filter),
        ("LuaFilter", OptionName::LuaFilter),
        ("ExtractMedia", OptionName::ExtractMedia),
        ("Template", OptionName::Template),
        ("PrintDefaultDataFile", OptionName::PrintDefaultDataFile),
        ("IncludeInHeader", OptionName::IncludeInHeader),
        ("IncludeBeforeBody", OptionName::IncludeBeforeBody),
        ("IncludeAfterBody", OptionName::IncludeAfterBody),
        ("PdfEngine", OptionName::PdfEngine),
        ("Bibliography", OptionName::Bibliography),
        ("Csl", OptionName::Csl),
        ("CitationAbbreviations", OptionName::CitationAbbreviations),
        ("ReferenceDoc", OptionName::ReferenceDoc),
    ];
    for (text, name) in names {
        assert_eq!(name.payload_kind(), PayloadKind::Path);
        let got = o_one(o_with(text, vec![o_lit("\"some/file\"")]));
        assert_eq!(
            got,
            ConverterOption { name, payload: Payload::Path("some/file".to_string()) }
        );
    }
}

#[test]
fn every_text_option_is_decoded() {
    let names = [
        ("IndentedCodeClasses", OptionName::IndentedCodeClasses),
        ("PrintDefaultTemplate", OptionName::PrintDefaultTemplate),
        ("HighlightStyle", OptionName::HighlightStyle),
        ("DefaultImageExtension", OptionName::DefaultImageExtension),
        ("IdPrefix", OptionName::IdPrefix),
        ("TitlePrefix", OptionName::TitlePrefix),
        ("PdfEngineOpt", OptionName::PdfEngineOpt),
        ("EOL", OptionName::EOL),
    ];
    for (text, name) in names {
        assert_eq!(name.payload_kind(), PayloadKind::Text);
        let got = o_one(o_with(text, vec![o_lit("\"abc\"")]));
        assert_eq!(got, ConverterOption { name, payload: Payload::Text("abc".to_string()) });
    }
}

#[test]
fn every_unsigned_option_is_decoded() {
    let names = [
        ("BaseHeaderLevel", OptionName::BaseHeaderLevel),
        ("TabStop", OptionName::TabStop),
        ("Columns", OptionName::Columns),
        ("TableOfContentsDepth", OptionName::TableOfContentsDepth),
        ("SlideLevel", OptionName::SlideLevel),
        ("EpubChapterLevel", OptionName::EpubChapterLevel),
    ];
    for (text, name) in names {
        assert_eq!(name.payload_kind(), PayloadKind::Unsigned);
        let got = o_one(o_with(text, vec![o_lit("72")]));
        assert_eq!(got, ConverterOption { name, payload: Payload::Unsigned(72) });
    }
}

#[test]
fn hexadecimal_literal_is_read_in_base_ten() {
    let got = o_one(o_with("TabStop", vec![o_lit("0x10")]));
    assert_eq!(got.payload, Payload::Unsigned(16));
}

#[test]
fn suffix_and_underscores_of_a_number_are_dropped() {
    let got = o_one(o_with("Columns", vec![o_lit("1_000u32")]));
    assert_eq!(got.payload, Payload::Unsigned(1000));
}

#[test]
fn escapes_of_a_string_literal_are_decoded() {
    let got = o_one(o_with("IdPrefix", vec![o_lit("\"a\\n\\\"b\\\"\"")]));
    assert_eq!(got.payload, Payload::Text("a\n\"b\"".to_string()));
}

#[test]
fn raw_string_literal_is_decoded() {
    let got = o_one(o_with("IdPrefix", vec![o_lit("r#\"a\\b\"#")]));
    assert_eq!(got.payload, Payload::Text("a\\b".to_string()));
}

#[test]
fn literal_that_is_no_string_is_rejected_as_string() {
    let err = o_error(o_with("DataDir", vec![o_lit("8")]));
    assert_eq!(
        err,
        ParseError { kind: ErrorKind::ExpectedString, subject: "DataDir".to_string(), index: 0 }
    );
    assert_eq!(err.message(), "Expected string literal at index 0 of `DataDir`");
}

#[test]
fn literal_that_is_no_integer_is_rejected_as_number() {
    for repr in ["\"8\"", "8.5", "'8'", "true"] {
        let err = o_error(o_with("TabStop", vec![o_lit(repr)]));
        assert_eq!(err.kind, ErrorKind::ExpectedInteger);
        assert_eq!(err.subject, "TabStop");
        assert_eq!(err.index, 0);
    }
    let err = o_error(o_with("TabStop", vec![o_ident("eight")]));
    assert_eq!(err.message(), "Expected integer literal at index 0 of `TabStop`");
}

#[test]
fn missing_argument_is_a_type_mismatch() {
    let err = o_error(o_with("DataDir", vec![]));
    assert_eq!(err.kind, ErrorKind::ExpectedString);
    let err = o_error(o_with("TabStop", vec![]));
    assert_eq!(err.kind, ErrorKind::ExpectedInteger);
}

#[test]
fn unsigned_range_is_enforced() {
    let top = o_one(o_with("BaseHeaderLevel", vec![o_lit("4294967295")]));
    assert_eq!(top.payload, Payload::Unsigned(u32::MAX));
    let err = o_error(o_with("BaseHeaderLevel", vec![o_lit("4294967296")]));
    assert_eq!(
        err,
        ParseError {
            kind: ErrorKind::IntegerRange,
            subject: "BaseHeaderLevel".to_string(),
            index: 0
        }
    );
    assert_eq!(
        err.message(),
        "Failed to parse integer literal into target type at index 0 of `BaseHeaderLevel`"
    );
    let err = o_error(o_with("TabStop", vec![o_lit("99999999999999999999999999999999999999999")]));
    assert_eq!(err.kind, ErrorKind::IntegerRange);
    let err = o_error(o_with("TabStop", vec![o_lit("-1")]));
    assert_eq!(err.kind, ErrorKind::IntegerRange);
}

#[test]
fn signed_option_takes_both_signs() {
    assert_eq!(OptionName::ShiftHeadingLevelBy.payload_kind(), PayloadKind::Signed);
    let up = o_one(o_with("ShiftHeadingLevelBy", vec![o_lit("2")]));
    assert_eq!(up.payload, Payload::Signed(2));
    let down = o_one(o_with("ShiftHeadingLevelBy", vec![o_lit("-1")]));
    assert_eq!(down.payload, Payload::Signed(-1));
    let low = o_one(o_with("ShiftHeadingLevelBy", vec![o_lit("-2147483648")]));
    assert_eq!(low.payload, Payload::Signed(i32::MIN));
    let high = o_one(o_with("ShiftHeadingLevelBy", vec![o_lit("2147483647")]));
    assert_eq!(high.payload, Payload::Signed(i32::MAX));
    let err = o_error(o_with("ShiftHeadingLevelBy", vec![o_lit("2147483648")]));
    assert_eq!(err.kind, ErrorKind::IntegerRange);
    let err = o_error(o_with("ShiftHeadingLevelBy", vec![o_lit("-2147483649")]));
    assert_eq!(err.kind, ErrorKind::IntegerRange);
}

#[test]
fn minus_sign_as_its_own_token_is_no_literal() {
    let err = o_error(o_with("ShiftHeadingLevelBy", vec![Token::Punct('-'), o_lit("1")]));
    assert_eq!(err.kind, ErrorKind::ExpectedInteger);
}

#[test]
fn key_and_optional_value() {
    for (text, name) in [("Meta", OptionName::Meta), ("Var", OptionName::Var)] {
        assert_eq!(name.payload_kind(), PayloadKind::KeyValue);
        let alone = o_one(o_with(text, vec![o_lit("\"k\"")]));
        assert_eq!(alone, ConverterOption { name, payload: Payload::KeyValue("k".to_string(), None) });
        let both = o_one(o_with(text, vec![o_lit("\"k\""), o_comma(), o_lit("\"v\"")]));
        assert_eq!(
            both,
            ConverterOption {
                name,
                payload: Payload::KeyValue("k".to_string(), Some("v".to_string()))
            }
        );
        let err = o_error(o_with(text, vec![o_lit("\"k\""), o_comma(), o_lit("3")]));
        assert_eq!(
            err,
            ParseError { kind: ErrorKind::ExpectedString, subject: text.to_string(), index: 1 }
        );
        let err = o_error(o_with(text, vec![o_lit("3"), o_comma(), o_lit("\"v\"")]));
        assert_eq!(err.index, 0);
    }
    let err = o_error(o_with("Meta", vec![o_lit("\"k\""), o_comma(), o_lit("3")]));
    assert_eq!(err.message(), "Expected string literal at index 1 of `Meta`");
}

#[test]
fn track_changes_modes() {
    assert_eq!(OptionName::TrackChanges.payload_kind(), PayloadKind::Tracking);
    for (text, mode) in [
        ("Accept", TrackChanges::Accept),
        ("Reject", TrackChanges::Reject),
        ("All", TrackChanges::All),
    ] {
        let got = o_one(o_with("TrackChanges", vec![o_ident(text)]));
        assert_eq!(got.payload, Payload::Tracking(mode));
    }
}

#[test]
fn track_changes_without_argument() {
    let err = o_error(o_with("TrackChanges", vec![]));
    assert_eq!(err.kind, ErrorKind::TrackChangesMissing);
    assert_eq!(err.message(), "TrackChanges requires one of Accept|Reject|All");
}

#[test]
fn track_changes_with_another_argument() {
    let err = o_error(o_with("TrackChanges", vec![o_ident("Sometimes")]));
    assert_eq!(err.kind, ErrorKind::TrackChangesInvalid);
    assert_eq!(err.message(), "Invalid TrackChanges variant (expected Accept|Reject|All)");
    let err = o_error(o_with("TrackChanges", vec![o_lit("\"Accept\"")]));
    assert_eq!(err.kind, ErrorKind::TrackChangesInvalid);
    let err = o_error(o_with("TrackChanges", vec![o_ident("Accept"), o_ident("All")]));
    assert_eq!(err.kind, ErrorKind::TrackChangesInvalid);
}

#[test]
fn flag_with_arguments_and_payload_without() {
    let err = o_error(o_with("Strict", vec![]));
    assert_eq!(err.kind, ErrorKind::Unsupported);
    assert_eq!(err.subject, "Strict");
    let err = o_error(vec![o_ident("DataDir")]);
    assert_eq!(err.kind, ErrorKind::UnknownUnit);
    assert_eq!(err.subject, "DataDir");
}

#[test]
fn commas_between_options_are_optional() {
    let with = vec![o_ident("Strict"), o_comma(), o_ident("Smart"), o_comma()];
    let without = vec![o_ident("Strict"), o_ident("Smart")];
    let expected = vec![o_flag(OptionName::Strict), o_flag(OptionName::Smart)];
    assert_eq!(parse_pandoc_options(&with).unwrap(), expected);
    assert_eq!(parse_pandoc_options(&without).unwrap(), expected);
}

#[test]
fn empty_option_list() {
    assert_eq!(parse_pandoc_options(&vec![]).unwrap(), vec![]);
}

#[test]
fn option_list_must_start_with_a_name() {
    let err = o_error(vec![o_comma(), o_ident("Strict")]);
    assert_eq!(err, ParseError { kind: ErrorKind::ExpectedIdentifier, subject: String::new(), index: 0 });
    assert_eq!(err.message(), "expected identifier");
    let err = o_error(vec![o_ident("Strict"), o_comma(), o_comma()]);
    assert_eq!(err.kind, ErrorKind::ExpectedIdentifier);
    let err = o_error(vec![o_lit("\"Strict\"")]);
    assert_eq!(err.kind, ErrorKind::ExpectedIdentifier);
}

#[test]
fn reserved_word_is_no_option_name() {
    let err = o_error(vec![o_ident("fn")]);
    assert_eq!(err.kind, ErrorKind::ExpectedIdentifier);
    let err = o_error(o_with("type", vec![o_lit("\"x\"")]));
    assert_eq!(err.kind, ErrorKind::ExpectedIdentifier);
    assert!(is_reserved(&"_".to_string()));
    assert!(is_reserved(&"yield".to_string()));
    assert!(is_reserved(&"Self".to_string()));
    assert!(!is_reserved(&"Strict".to_string()));
    assert!(!is_reserved(&"selfish".to_string()));
}

#[test]
fn argument_list_may_end_with_a_comma() {
    let got = o_one(o_with("DataDir", vec![o_lit("\"d\""), o_comma()]));
    assert_eq!(got.payload, Payload::Path("d".to_string()));
}

#[test]
fn empty_argument_is_an_error() {
    let err = o_error(o_with("DataDir", vec![o_comma()]));
    assert_eq!(
        err,
        ParseError { kind: ErrorKind::EmptyArgument, subject: "DataDir".to_string(), index: 0 }
    );
    assert_eq!(err.message(), "expected an expression in the arguments of `DataDir`");
    let err = o_error(o_with("Meta", vec![o_lit("\"k\""), o_comma(), o_comma(), o_lit("\"v\"")]));
    assert_eq!(err.kind, ErrorKind::EmptyArgument);
    assert_eq!(err.index, 1);
}

#[test]
fn arguments_past_the_arity_are_ignored() {
    let got = o_one(o_with(
        "TabStop",
        vec![o_lit("4"), o_comma(), o_lit("\"spare\""), o_comma(), o_ident("x"), Token::Punct('+'), o_lit("1")],
    ));
    assert_eq!(got.payload, Payload::Unsigned(4));
}

#[test]
fn grammar_errors_come_before_decoding_errors() {
    let tokens = vec![o_ident("Foo"), o_comma(), o_lit("3")];
    assert_eq!(o_error(tokens).kind, ErrorKind::ExpectedIdentifier);
    let tokens = vec![o_ident("Foo"), o_comma(), o_ident("Bar")];
    let err = o_error(tokens);
    assert_eq!(err.kind, ErrorKind::UnknownUnit);
    assert_eq!(err.subject, "Foo");
}

#[test]
fn decoding_twice_gives_equal_options() {
    let tokens = vec![
        o_ident("Standalone"),
        o_comma(),
        o_ident("Meta"),
        o_braces(vec![o_lit("\"title\""), o_comma(), o_lit("\"T\"")]),
        o_ident("TabStop"),
        o_braces(vec![o_lit("0b101")]),
        o_ident("TrackChanges"),
        o_braces(vec![o_ident("All")]),
    ];
    let first = parse_pandoc_options(&tokens).unwrap();
    let second = parse_pandoc_options(&tokens).unwrap();
    assert_eq!(first, second);
    assert_eq!(
        first,
        vec![
            o_flag(OptionName::Standalone),
            ConverterOption {
                name: OptionName::Meta,
                payload: Payload::KeyValue("title".to_string(), Some("T".to_string()))
            },
            ConverterOption { name: OptionName::TabStop, payload: Payload::Unsigned(5) },
            ConverterOption {
                name: OptionName::TrackChanges,
                payload: Payload::Tracking(TrackChanges::All)
            },
        ]
    );
    let bad = vec![o_ident("Standalone"), o_ident("Nope")];
    assert_eq!(parse_pandoc_options(&bad), parse_pandoc_options(&bad));
}

#[test]
fn decoded_tokens_need_no_literal_decoding() {
    let tokens = vec![
        o_ident("DataDir"),
        o_braces(vec![Token::Str("data".to_string())]),
        o_ident("TabStop"),
        o_braces(vec![Token::Int("8".to_string())]),
    ];
    let got = parse_decoded_options(&tokens).unwrap();
    assert_eq!(got[0].payload, Payload::Path("data".to_string()));
    assert_eq!(got[1].payload, Payload::Unsigned(8));
    assert_eq!(parse_pandoc_options(&tokens).unwrap(), got);
    let raw = o_with("DataDir", vec![o_lit("\"data\"")]);
    assert_eq!(parse_decoded_options(&raw).unwrap_err().kind, ErrorKind::ExpectedString);
}

#[test]
fn option_list_as_written() {
    let tokens = vec![
        o_ident("Strict"),
        o_comma(),
        o_ident("Meta"),
        o_braces(vec![
            Token::Str("k".to_string()),
            o_comma(),
            Token::Int("7".to_string()),
            o_comma(),
            o_ident("x"),
            o_comma(),
            o_ident("a"),
            o_ident("b"),
        ]),
    ];
    let list = PandocOptionList::parse(&tokens).unwrap();
    assert_eq!(
        list,
        PandocOptionList(vec![
            PandocOptionExpr::Unit("Strict".to_string()),
            PandocOptionExpr::Variant(
                "Meta".to_string(),
                vec![
                    Arg::Str("k".to_string()),
                    Arg::Int("7".to_string()),
                    Arg::Ident("x".to_string()),
                    Arg::Other
                ]
            ),
        ])
    );
    let err = decode_options(&list).unwrap_err();
    assert_eq!(err.kind, ErrorKind::ExpectedString);
    assert_eq!(err.index, 1);
}

#[test]
fn one_option_from_its_parts() {
    let expr = PandocOptionExpr::Variant("Csl".to_string(), vec![Arg::Str("x.csl".to_string())]);
    assert_eq!(
        decode_option(&expr).unwrap(),
        ConverterOption { name: OptionName::Csl, payload: Payload::Path("x.csl".to_string()) }
    );
    let expr = PandocOptionExpr::Unit("Csl".to_string());
    assert_eq!(decode_option(&expr).unwrap_err().kind, ErrorKind::UnknownUnit);
}

#[test]
fn positional_argument_readers() {
    let name = "Opt".to_string();
    let args = vec![Arg::Str("s".to_string()), Arg::Int("12".to_string()), Arg::Ident("All".to_string())];
    assert_eq!(parse_string_arg(&name, &args, 0).unwrap(), "s");
    assert_eq!(parse_string_arg(&name, &args, 1).unwrap_err().index, 1);
    assert_eq!(parse_string_arg(&name, &args, 3).unwrap_err().kind, ErrorKind::ExpectedString);
    assert_eq!(parse_number_arg(&name, &args, 1, 0, 255).unwrap(), 12);
    assert_eq!(parse_number_arg(&name, &args, 1, 0, 11).unwrap_err().kind, ErrorKind::IntegerRange);
    assert_eq!(parse_number_arg(&name, &args, 0, 0, 255).unwrap_err().kind, ErrorKind::ExpectedInteger);
    assert_eq!(parse_number_arg(&name, &args, 9, 0, 255).unwrap_err().index, 9);
    assert_eq!(parse_tracking_arg(&name, &args).unwrap_err().kind, ErrorKind::TrackChangesInvalid);
    let args = vec![Arg::Ident("Reject".to_string())];
    assert_eq!(parse_tracking_arg(&name, &args).unwrap(), TrackChanges::Reject);
}

#[test]
fn literals_are_decoded_at_every_depth() {
    let tokens = vec![
        o_lit("\"top\""),
        Token::Group(
            Delim::Bracket,
            vec![o_lit("0o17"), Token::Group(Delim::Paren, vec![o_lit("\"deep\""), o_lit("1.5")])],
        ),
        o_ident("\"quoted\""),
        Token::Punct('='),
    ];
    let got = resolve_literals(&tokens);
    assert_eq!(
        got,
        vec![
            Token::Str("top".to_string()),
            Token::Group(
                Delim::Bracket,
                vec![
                    Token::Int("15".to_string()),
                    Token::Group(
                        Delim::Paren,
                        vec![Token::Str("deep".to_string()), Token::Literal("1.5".to_string())]
                    )
                ]
            ),
            Token::Ident("\"quoted\"".to_string()),
            Token::Punct('='),
        ]
    );
    assert_eq!(resolve_literals(&got), got);
    assert_eq!(resolve_token(&o_lit("not a literal")), o_lit("not a literal"));
    assert_eq!(resolve_token(&o_lit("\"a\" \"b\"")), o_lit("\"a\" \"b\""));
    assert_eq!(resolve_token(&o_lit("")), o_lit(""));
}

#[test]
fn decoded_literal_prefers_the_string() {
    let repr = "x".to_string();
    assert_eq!(
        decoded_literal(&repr, Some("s".to_string()), Some("1".to_string())),
        Token::Str("s".to_string())
    );
    assert_eq!(decoded_literal(&repr, None, Some("1".to_string())), Token::Int("1".to_string()));
    assert_eq!(decoded_literal(&repr, None, None), Token::Literal("x".to_string()));
}

#[test]
fn token_clone_is_equal() {
    let t = Token::Group(Delim::Brace, vec![o_ident("a"), Token::Group(Delim::Invisible, vec![o_lit("1")])]);
    assert_eq!(t.clone(), t);
}

#[test]
fn integers_are_read_as_the_language_reads_them() {
    assert_eq!(parse_integer("0", 0, 10), Some(0));
    assert_eq!(parse_integer("007", 0, 10), Some(7));
    assert_eq!(parse_integer("+5", 0, 10), Some(5));
    assert_eq!(parse_integer("+5", -10, 10), Some(5));
    assert_eq!(parse_integer("-5", -10, 10), Some(-5));
    assert_eq!(parse_integer("-0", -10, 10), Some(0));
    assert_eq!(parse_integer("-0", 0, 10), None);
    assert_eq!(parse_integer("-5", 0, 10), None);
    assert_eq!(parse_integer("", 0, 10), None);
    assert_eq!(parse_integer("+", 0, 10), None);
    assert_eq!(parse_integer("-", -10, 10), None);
    assert_eq!(parse_integer("+-1", -10, 10), None);
    assert_eq!(parse_integer("12a", 0, 1000), None);
    assert_eq!(parse_integer("a12", 0, 1000), None);
    assert_eq!(parse_integer(" 1", 0, 1000), None);
    assert_eq!(parse_integer("1 ", 0, 1000), None);
    assert_eq!(parse_integer("\u{663}", 0, 1000), None);
    assert_eq!(parse_integer("11", 0, 10), None);
    assert_eq!(parse_integer("10", 0, 10), Some(10));
    assert_eq!(parse_integer("-11", -10, 10), None);
    assert_eq!(parse_integer("18446744073709551615", 0, u64::MAX as i128), Some(u64::MAX as i128));
    assert_eq!(parse_integer("18446744073709551616", 0, u64::MAX as i128), None);
    assert_eq!(
        parse_integer("18446744073709551616", 0, 18446744073709551616),
        Some(18446744073709551616)
    );
    assert_eq!(parse_integer("340282366920938463463374607431768211456", 0, 18446744073709551616), None);
}

#[test]
fn numbers_are_written_in_base_ten() {
    assert_eq!(decimal(0), "0");
    assert_eq!(decimal(7), "7");
    assert_eq!(decimal(10), "10");
    assert_eq!(decimal(1234567890), "1234567890");
    assert_eq!(decimal(usize::MAX), usize::MAX.to_string());
}

#[test]
fn text_is_compares_whole_texts() {
    assert!(text_is(&"Strict".to_string(), "Strict"));
    assert!(!text_is(&"Strict".to_string(), "strict"));
    assert!(!text_is(&"Strict".to_string(), "Stric"));
    assert!(text_is(&String::new(), ""));
}

#[test]
fn error_messages_of_the_grammar() {
    assert_eq!(ParseError::new(ErrorKind::ExpectedKeyword, "content", 0).message(), "expected `content`");
    assert_eq!(ParseError::new(ErrorKind::ExpectedPunct, "=", 0).message(), "expected `=`");
    assert_eq!(
        ParseError::new(ErrorKind::ExpectedGroup, "options", 0).message(),
        "expected a bracketed list after `options`"
    );
    assert_eq!(ParseError::plain(ErrorKind::UnexpectedToken).message(), "unexpected token");
    assert_eq!(
        ParseError::plain(ErrorKind::UnknownElement).message(),
        "expected one of: `special`, `compile_from_path`"
    );
    assert_eq!(
        ParseError::new(ErrorKind::ExpectedFieldString, "ty", 0).message(),
        "Expected a string literal for `ty`"
    );
    assert_eq!(ParseError::plain(ErrorKind::InvalidNproc).message(), "nproc argument should be a number");
    assert_eq!(
        ParseError::new(ErrorKind::ExpectedInteger, "TabStop", 12).message(),
        "Expected integer literal at index 12 of `TabStop`"
    );
    let e = ParseError::new(ErrorKind::UnknownUnit, "X", 0);
    assert_eq!(e.duplicate(), e);
}

#[test]
fn copies_of_options_are_equal() {
    let o = ConverterOption {
        name: OptionName::Var,
        payload: Payload::KeyValue("k".to_string(), Some("v".to_string())),
    };
    assert_eq!(o.duplicate(), o);
    assert_eq!(Payload::Signed(-3).duplicate(), Payload::Signed(-3));
    assert_eq!(OptionName::from_text(&"Nope".to_string()), None);
    assert_eq!(OptionName::from_text(&"strict".to_string()), None);
}
