//! The converter's options: the closed set of names, the payload that each
//! carries, and the table that says which.

use crate::text::{optional_text, text_is};
use vstd::prelude::*;

verus! {

/// The three ways in which the converter treats tracked changes.
#[derive(Clone, Copy, Debug, PartialEq, Eq, Structural)]
pub enum TrackChanges {
    Accept,
    Reject,
    All,
}

/// The names of the options that a manifest can set.
#[derive(Clone, Copy, Debug, PartialEq, Eq, Structural)]
pub enum OptionName {
    /// The flag `Strict`.
    Strict,
    /// The flag `ParseRaw`.
    ParseRaw,
    /// The flag `Smart`.
    Smart,
    /// The flag `OldDashes`.
    OldDashes,
    /// The flag `Normalize`.
    Normalize,
    /// The flag `PreserveTabs`.
    PreserveTabs,
    /// The flag `Standalone`.
    Standalone,
    /// The flag `NoWrap`.
    NoWrap,
    /// The flag `TableOfContents`.
    TableOfContents,
    /// The flag `NoHighlight`.
    NoHighlight,
    /// The flag `SelfContained`.
    SelfContained,
    /// The flag `Offline`.
    Offline,
    /// The flag `Html5`.
    Html5,
    /// The flag `HtmlQTags`.
    HtmlQTags,
    /// The flag `Ascii`.
    Ascii,
    /// The flag `ReferenceLinks`.
    ReferenceLinks,
    /// The flag `AtxHeaders`.
    AtxHeaders,
    /// The flag `NumberSections`.
    NumberSections,
    /// The flag `NoTexLigatures`.
    NoTexLigatures,
    /// The flag `Listings`.
    Listings,
    /// The flag `Incremental`.
    Incremental,
    /// The flag `SectionDivs`.
    SectionDivs,
    /// The flag `Citeproc`.
    Citeproc,
    /// The flag `Natbib`.
    Natbib,
    /// The flag `Biblatex`.
    Biblatex,
    /// The flag `GladTex`.
    GladTex,
    /// The flag `Trace`.
    Trace,
    /// The flag `DumpArgs`.
    DumpArgs,
    /// The flag `IgnoreArgs`.
    IgnoreArgs,
    /// The flag `Verbose`.
    Verbose,
    /// The flag `Sandbox`.
    Sandbox,
    /// `DataDir`, with a path.
    DataDir,
    /// `Defaults`, with a path.
    Defaults,
    /// `BaseHeaderLevel`, with an unsigned number.
    BaseHeaderLevel,
    /// `ShiftHeadingLevelBy`, with a signed number.
    ShiftHeadingLevelBy,
    /// `IndentedCodeClasses`, with a text.
    IndentedCodeClasses,
    /// `Filter`, with a path.
    Filter,
    /// `LuaFilter`, with a path.
    LuaFilter,
    /// `TabStop`, with an unsigned number.
    TabStop,
    /// `ExtractMedia`, with a path.
    ExtractMedia,
    /// `Template`, with a path.
    Template,
    /// `Meta`, with a key and an optional value.
    Meta,
    /// `Var`, with a key and an optional value.
    Var,
    /// `PrintDefaultTemplate`, with a text.
    PrintDefaultTemplate,
    /// `PrintDefaultDataFile`, with a path.
    PrintDefaultDataFile,
    /// `Columns`, with an unsigned number.
    Columns,
    /// `TableOfContentsDepth`, with an unsigned number.
    TableOfContentsDepth,
    /// `HighlightStyle`, with a text.
    HighlightStyle,
    /// `IncludeInHeader`, with a path.
    IncludeInHeader,
    /// `IncludeBeforeBody`, with a path.
    IncludeBeforeBody,
    /// `IncludeAfterBody`, with a path.
    IncludeAfterBody,
    /// `SlideLevel`, with an unsigned number.
    SlideLevel,
    /// `DefaultImageExtension`, with a text.
    DefaultImageExtension,
    /// `IdPrefix`, with a text.
    IdPrefix,
    /// `TitlePrefix`, with a text.
    TitlePrefix,
    /// `PdfEngine`, with a path.
    PdfEngine,
    /// `PdfEngineOpt`, with a text.
    PdfEngineOpt,
    /// `Bibliography`, with a path.
    Bibliography,
    /// `Csl`, with a path.
    Csl,
    /// `CitationAbbreviations`, with a path.
    CitationAbbreviations,
    /// `ReferenceDoc`, with a path.
    ReferenceDoc,
    /// `EpubChapterLevel`, with an unsigned number.
    EpubChapterLevel,
    /// `EOL`, with a text.
    EOL,
    /// `TrackChanges`, with a change-tracking mode.
    TrackChanges,
}

/// The kinds of payload that an option can carry.
#[derive(Clone, Copy, Debug, PartialEq, Eq, Structural)]
pub enum PayloadKind {
    /// No payload: the option is a flag.
    Bare,
    /// One text.
    Text,
    /// One file system path.
    Path,
    /// One number of 32 bits without sign.
    Unsigned,
    /// One number of 32 bits with sign.
    Signed,
    /// A key and, optionally, a value.
    KeyValue,
    /// A change-tracking mode.
    Tracking,
}

/// What an option carries.
#[derive(Debug, PartialEq, Eq)]
pub enum Payload {
    Bare,
    Text(String),
    Path(String),
    Unsigned(u32),
    Signed(i32),
    KeyValue(String, Option<String>),
    Tracking(TrackChanges),
}

/// The mathematical value of a [`Payload`].
pub ghost enum PayloadView {
    Bare,
    Text(Seq<char>),
    Path(Seq<char>),
    Unsigned(u32),
    Signed(i32),
    KeyValue(Seq<char>, Option<Seq<char>>),
    Tracking(TrackChanges),
}

/// One option of the converter, as a manifest sets it.
#[derive(Debug, PartialEq, Eq)]
pub struct ConverterOption {
    pub name: OptionName,
    pub payload: Payload,
}

/// The mathematical value of a [`ConverterOption`].
pub ghost struct ConverterOptionView {
    pub name: OptionName,
    pub payload: PayloadView,
}

/// The option that the name `text` stands for, if it is the name of one.
pub open spec fn spec_option_name(text: Seq<char>) -> Option<OptionName> {
    if text == "Strict"@ {
        Some(OptionName::Strict)
    } else if text == "ParseRaw"@ {
        Some(OptionName::ParseRaw)
    } else if text == "Smart"@ {
        Some(OptionName::Smart)
    } else if text == "OldDashes"@ {
        Some(OptionName::OldDashes)
    } else if text == "Normalize"@ {
        Some(OptionName::Normalize)
    } else if text == "PreserveTabs"@ {
        Some(OptionName::PreserveTabs)
    } else if text == "Standalone"@ {
        Some(OptionName::Standalone)
    } else if text == "NoWrap"@ {
        Some(OptionName::NoWrap)
    } else if text == "TableOfContents"@ {
        Some(OptionName::TableOfContents)
    } else if text == "NoHighlight"@ {
        Some(OptionName::NoHighlight)
    } else if text == "SelfContained"@ {
        Some(OptionName::SelfContained)
    } else if text == "Offline"@ {
        Some(OptionName::Offline)
    } else if text == "Html5"@ {
        Some(OptionName::Html5)
    } else if text == "HtmlQTags"@ {
        Some(OptionName::HtmlQTags)
    } else if text == "Ascii"@ {
        Some(OptionName::Ascii)
    } else if text == "ReferenceLinks"@ {
        Some(OptionName::ReferenceLinks)
    } else if text == "AtxHeaders"@ {
        Some(OptionName::AtxHeaders)
    } else if text == "NumberSections"@ {
        Some(OptionName::NumberSections)
    } else if text == "NoTexLigatures"@ {
        Some(OptionName::NoTexLigatures)
    } else if text == "Listings"@ {
        Some(OptionName::Listings)
    } else if text == "Incremental"@ {
        Some(OptionName::Incremental)
    } else if text == "SectionDivs"@ {
        Some(OptionName::SectionDivs)
    } else if text == "Citeproc"@ {
        Some(OptionName::Citeproc)
    } else if text == "Natbib"@ {
        Some(OptionName::Natbib)
    } else if text == "Biblatex"@ {
        Some(OptionName::Biblatex)
    } else if text == "GladTex"@ {
        Some(OptionName::GladTex)
    } else if text == "Trace"@ {
        Some(OptionName::Trace)
    } else if text == "DumpArgs"@ {
        Some(OptionName::DumpArgs)
    } else if text == "IgnoreArgs"@ {
        Some(OptionName::IgnoreArgs)
    } else if text == "Verbose"@ {
        Some(OptionName::Verbose)
    } else if text == "Sandbox"@ {
        Some(OptionName::Sandbox)
    } else if text == "DataDir"@ {
        Some(OptionName::DataDir)
    } else if text == "Defaults"@ {
        Some(OptionName::Defaults)
    } else if text == "BaseHeaderLevel"@ {
        Some(OptionName::BaseHeaderLevel)
    } else if text == "ShiftHeadingLevelBy"@ {
        Some(OptionName::ShiftHeadingLevelBy)
    } else if text == "IndentedCodeClasses"@ {
        Some(OptionName::IndentedCodeClasses)
    } else if text == "Filter"@ {
        Some(OptionName::Filter)
    } else if text == "LuaFilter"@ {
        Some(OptionName::LuaFilter)
    } else if text == "TabStop"@ {
        Some(OptionName::TabStop)
    } else if text == "ExtractMedia"@ {
        Some(OptionName::ExtractMedia)
    } else if text == "Template"@ {
        Some(OptionName::Template)
    } else if text == "Meta"@ {
        Some(OptionName::Meta)
    } else if text == "Var"@ {
        Some(OptionName::Var)
    } else if text == "PrintDefaultTemplate"@ {
        Some(OptionName::PrintDefaultTemplate)
    } else if text == "PrintDefaultDataFile"@ {
        Some(OptionName::PrintDefaultDataFile)
    } else if text == "Columns"@ {
        Some(OptionName::Columns)
    } else if text == "TableOfContentsDepth"@ {
        Some(OptionName::TableOfContentsDepth)
    } else if text == "HighlightStyle"@ {
        Some(OptionName::HighlightStyle)
    } else if text == "IncludeInHeader"@ {
        Some(OptionName::IncludeInHeader)
    } else if text == "IncludeBeforeBody"@ {
        Some(OptionName::IncludeBeforeBody)
    } else if text == "IncludeAfterBody"@ {
        Some(OptionName::IncludeAfterBody)
    } else if text == "SlideLevel"@ {
        Some(OptionName::SlideLevel)
    } else if text == "DefaultImageExtension"@ {
        Some(OptionName::DefaultImageExtension)
    } else if text == "IdPrefix"@ {
        Some(OptionName::IdPrefix)
    } else if text == "TitlePrefix"@ {
        Some(OptionName::TitlePrefix)
    } else if text == "PdfEngine"@ {
        Some(OptionName::PdfEngine)
    } else if text == "PdfEngineOpt"@ {
        Some(OptionName::PdfEngineOpt)
    } else if text == "Bibliography"@ {
        Some(OptionName::Bibliography)
    } else if text == "Csl"@ {
        Some(OptionName::Csl)
    } else if text == "CitationAbbreviations"@ {
        Some(OptionName::CitationAbbreviations)
    } else if text == "ReferenceDoc"@ {
        Some(OptionName::ReferenceDoc)
    } else if text == "EpubChapterLevel"@ {
        Some(OptionName::EpubChapterLevel)
    } else if text == "EOL"@ {
        Some(OptionName::EOL)
    } else if text == "TrackChanges"@ {
        Some(OptionName::TrackChanges)
    } else {
        None
    }
}

/// The kind of payload that the option `name` carries.
pub open spec fn spec_payload_kind(name: OptionName) -> PayloadKind {
    match name {
        OptionName::Strict
        | OptionName::ParseRaw
        | OptionName::Smart
        | OptionName::OldDashes
        | OptionName::Normalize
        | OptionName::PreserveTabs
        | OptionName::Standalone
        | OptionName::NoWrap
        | OptionName::TableOfContents
        | OptionName::NoHighlight
        | OptionName::SelfContained
        | OptionName::Offline
        | OptionName::Html5
        | OptionName::HtmlQTags
        | OptionName::Ascii
        | OptionName::ReferenceLinks
        | OptionName::AtxHeaders
        | OptionName::NumberSections
        | OptionName::NoTexLigatures
        | OptionName::Listings
        | OptionName::Incremental
        | OptionName::SectionDivs
        | OptionName::Citeproc
        | OptionName::Natbib
        | OptionName::Biblatex
        | OptionName::GladTex
        | OptionName::Trace
        | OptionName::DumpArgs
        | OptionName::IgnoreArgs
        | OptionName::Verbose
        | OptionName::Sandbox => PayloadKind::Bare,
        OptionName::IndentedCodeClasses
        | OptionName::PrintDefaultTemplate
        | OptionName::HighlightStyle
        | OptionName::DefaultImageExtension
        | OptionName::IdPrefix
        | OptionName::TitlePrefix
        | OptionName::PdfEngineOpt
        | OptionName::EOL => PayloadKind::Text,
        OptionName::DataDir
        | OptionName::Defaults
        | OptionName::Filter
        | OptionName::LuaFilter
        | OptionName::ExtractMedia
        | OptionName::Template
        | OptionName::PrintDefaultDataFile
        | OptionName::IncludeInHeader
        | OptionName::IncludeBeforeBody
        | OptionName::IncludeAfterBody
        | OptionName::PdfEngine
        | OptionName::Bibliography
        | OptionName::Csl
        | OptionName::CitationAbbreviations
        | OptionName::ReferenceDoc => PayloadKind::Path,
        OptionName::BaseHeaderLevel
        | OptionName::TabStop
        | OptionName::Columns
        | OptionName::TableOfContentsDepth
        | OptionName::SlideLevel
        | OptionName::EpubChapterLevel => PayloadKind::Unsigned,
        OptionName::ShiftHeadingLevelBy => PayloadKind::Signed,
        OptionName::Meta
        | OptionName::Var => PayloadKind::KeyValue,
        OptionName::TrackChanges => PayloadKind::Tracking,
    }
}

impl PayloadView {
    /// The kind of this payload.
    pub open spec fn kind(self) -> PayloadKind {
        match self {
            PayloadView::Bare => PayloadKind::Bare,
            PayloadView::Text(_) => PayloadKind::Text,
            PayloadView::Path(_) => PayloadKind::Path,
            PayloadView::Unsigned(_) => PayloadKind::Unsigned,
            PayloadView::Signed(_) => PayloadKind::Signed,
            PayloadView::KeyValue(_, _) => PayloadKind::KeyValue,
            PayloadView::Tracking(_) => PayloadKind::Tracking,
        }
    }
}

impl ConverterOptionView {
    /// Whether the payload is of the kind that the name calls for.
    pub open spec fn wf(self) -> bool {
        self.payload.kind() == spec_payload_kind(self.name)
    }
}

impl OptionName {
    /// Finds the option that `text` names.
    pub fn from_text(text: &String) -> (r: Option<OptionName>)
        ensures
            r == spec_option_name(text@),
    {
        if text_is(text, "Strict") {
            Some(OptionName::Strict)
        } else if text_is(text, "ParseRaw") {
            Some(OptionName::ParseRaw)
        } else if text_is(text, "Smart") {
            Some(OptionName::Smart)
        } else if text_is(text, "OldDashes") {
            Some(OptionName::OldDashes)
        } else if text_is(text, "Normalize") {
            Some(OptionName::Normalize)
        } else if text_is(text, "PreserveTabs") {
            Some(OptionName::PreserveTabs)
        } else if text_is(text, "Standalone") {
            Some(OptionName::Standalone)
        } else if text_is(text, "NoWrap") {
            Some(OptionName::NoWrap)
        } else if text_is(text, "TableOfContents") {
            Some(OptionName::TableOfContents)
        } else if text_is(text, "NoHighlight") {
            Some(OptionName::NoHighlight)
        } else if text_is(text, "SelfContained") {
            Some(OptionName::SelfContained)
        } else if text_is(text, "Offline") {
            Some(OptionName::Offline)
        } else if text_is(text, "Html5") {
            Some(OptionName::Html5)
        } else if text_is(text, "HtmlQTags") {
            Some(OptionName::HtmlQTags)
        } else if text_is(text, "Ascii") {
            Some(OptionName::Ascii)
        } else if text_is(text, "ReferenceLinks") {
            Some(OptionName::ReferenceLinks)
        } else if text_is(text, "AtxHeaders") {
            Some(OptionName::AtxHeaders)
        } else if text_is(text, "NumberSections") {
            Some(OptionName::NumberSections)
        } else if text_is(text, "NoTexLigatures") {
            Some(OptionName::NoTexLigatures)
        } else if text_is(text, "Listings") {
            Some(OptionName::Listings)
        } else if text_is(text, "Incremental") {
            Some(OptionName::Incremental)
        } else if text_is(text, "SectionDivs") {
            Some(OptionName::SectionDivs)
        } else if text_is(text, "Citeproc") {
            Some(OptionName::Citeproc)
        } else if text_is(text, "Natbib") {
            Some(OptionName::Natbib)
        } else if text_is(text, "Biblatex") {
            Some(OptionName::Biblatex)
        } else if text_is(text, "GladTex") {
            Some(OptionName::GladTex)
        } else if text_is(text, "Trace") {
            Some(OptionName::Trace)
        } else if text_is(text, "DumpArgs") {
            Some(OptionName::DumpArgs)
        } else if text_is(text, "IgnoreArgs") {
            Some(OptionName::IgnoreArgs)
        } else if text_is(text, "Verbose") {
            Some(OptionName::Verbose)
        } else if text_is(text, "Sandbox") {
            Some(OptionName::Sandbox)
        } else if text_is(text, "DataDir") {
            Some(OptionName::DataDir)
        } else if text_is(text, "Defaults") {
            Some(OptionName::Defaults)
        } else if text_is(text, "BaseHeaderLevel") {
            Some(OptionName::BaseHeaderLevel)
        } else if text_is(text, "ShiftHeadingLevelBy") {
            Some(OptionName::ShiftHeadingLevelBy)
        } else if text_is(text, "IndentedCodeClasses") {
            Some(OptionName::IndentedCodeClasses)
        } else if text_is(text, "Filter") {
            Some(OptionName::Filter)
        } else if text_is(text, "LuaFilter") {
            Some(OptionName::LuaFilter)
        } else if text_is(text, "TabStop") {
            Some(OptionName::TabStop)
        } else if text_is(text, "ExtractMedia") {
            Some(OptionName::ExtractMedia)
        } else if text_is(text, "Template") {
            Some(OptionName::Template)
        } else if text_is(text, "Meta") {
            Some(OptionName::Meta)
        } else if text_is(text, "Var") {
            Some(OptionName::Var)
        } else if text_is(text, "PrintDefaultTemplate") {
            Some(OptionName::PrintDefaultTemplate)
        } else if text_is(text, "PrintDefaultDataFile") {
            Some(OptionName::PrintDefaultDataFile)
        } else if text_is(text, "Columns") {
            Some(OptionName::Columns)
        } else if text_is(text, "TableOfContentsDepth") {
            Some(OptionName::TableOfContentsDepth)
        } else if text_is(text, "HighlightStyle") {
            Some(OptionName::HighlightStyle)
        } else if text_is(text, "IncludeInHeader") {
            Some(OptionName::IncludeInHeader)
        } else if text_is(text, "IncludeBeforeBody") {
            Some(OptionName::IncludeBeforeBody)
        } else if text_is(text, "IncludeAfterBody") {
            Some(OptionName::IncludeAfterBody)
        } else if text_is(text, "SlideLevel") {
            Some(OptionName::SlideLevel)
        } else if text_is(text, "DefaultImageExtension") {
            Some(OptionName::DefaultImageExtension)
        } else if text_is(text, "IdPrefix") {
            Some(OptionName::IdPrefix)
        } else if text_is(text, "TitlePrefix") {
            Some(OptionName::TitlePrefix)
        } else if text_is(text, "PdfEngine") {
            Some(OptionName::PdfEngine)
        } else if text_is(text, "PdfEngineOpt") {
            Some(OptionName::PdfEngineOpt)
        } else if text_is(text, "Bibliography") {
            Some(OptionName::Bibliography)
        } else if text_is(text, "Csl") {
            Some(OptionName::Csl)
        } else if text_is(text, "CitationAbbreviations") {
            Some(OptionName::CitationAbbreviations)
        } else if text_is(text, "ReferenceDoc") {
            Some(OptionName::ReferenceDoc)
        } else if text_is(text, "EpubChapterLevel") {
            Some(OptionName::EpubChapterLevel)
        } else if text_is(text, "EOL") {
            Some(OptionName::EOL)
        } else if text_is(text, "TrackChanges") {
            Some(OptionName::TrackChanges)
        } else {
            None
        }
    }

    /// The kind of payload that this option carries.
    pub fn payload_kind(self) -> (r: PayloadKind)
        ensures
            r == spec_payload_kind(self),
    {
        match self {
            OptionName::Strict
            | OptionName::ParseRaw
            | OptionName::Smart
            | OptionName::OldDashes
            | OptionName::Normalize
            | OptionName::PreserveTabs
            | OptionName::Standalone
            | OptionName::NoWrap
            | OptionName::TableOfContents
            | OptionName::NoHighlight
            | OptionName::SelfContained
            | OptionName::Offline
            | OptionName::Html5
            | OptionName::HtmlQTags
            | OptionName::Ascii
            | OptionName::ReferenceLinks
            | OptionName::AtxHeaders
            | OptionName::NumberSections
            | OptionName::NoTexLigatures
            | OptionName::Listings
            | OptionName::Incremental
            | OptionName::SectionDivs
            | OptionName::Citeproc
            | OptionName::Natbib
            | OptionName::Biblatex
            | OptionName::GladTex
            | OptionName::Trace
            | OptionName::DumpArgs
            | OptionName::IgnoreArgs
            | OptionName::Verbose
            | OptionName::Sandbox => PayloadKind::Bare,
            OptionName::IndentedCodeClasses
            | OptionName::PrintDefaultTemplate
            | OptionName::HighlightStyle
            | OptionName::DefaultImageExtension
            | OptionName::IdPrefix
            | OptionName::TitlePrefix
            | OptionName::PdfEngineOpt
            | OptionName::EOL => PayloadKind::Text,
            OptionName::DataDir
            | OptionName::Defaults
            | OptionName::Filter
            | OptionName::LuaFilter
            | OptionName::ExtractMedia
            | OptionName::Template
            | OptionName::PrintDefaultDataFile
            | OptionName::IncludeInHeader
            | OptionName::IncludeBeforeBody
            | OptionName::IncludeAfterBody
            | OptionName::PdfEngine
            | OptionName::Bibliography
            | OptionName::Csl
            | OptionName::CitationAbbreviations
            | OptionName::ReferenceDoc => PayloadKind::Path,
            OptionName::BaseHeaderLevel
            | OptionName::TabStop
            | OptionName::Columns
            | OptionName::TableOfContentsDepth
            | OptionName::SlideLevel
            | OptionName::EpubChapterLevel => PayloadKind::Unsigned,
            OptionName::ShiftHeadingLevelBy => PayloadKind::Signed,
            OptionName::Meta
            | OptionName::Var => PayloadKind::KeyValue,
            OptionName::TrackChanges => PayloadKind::Tracking,
        }
    }
}

impl Payload {
    pub open spec fn view(&self) -> PayloadView {
        match self {
            Payload::Bare => PayloadView::Bare,
            Payload::Text(s) => PayloadView::Text(s@),
            Payload::Path(s) => PayloadView::Path(s@),
            Payload::Unsigned(n) => PayloadView::Unsigned(*n),
            Payload::Signed(n) => PayloadView::Signed(*n),
            Payload::KeyValue(k, v) => PayloadView::KeyValue(k@, optional_text(*v)),
            Payload::Tracking(t) => PayloadView::Tracking(*t),
        }
    }

    /// A copy of this payload.
    pub fn duplicate(&self) -> (r: Self)
        ensures
            r@ == self@,
    {
        match self {
            Payload::Bare => Payload::Bare,
            Payload::Text(s) => Payload::Text(s.clone()),
            Payload::Path(s) => Payload::Path(s.clone()),
            Payload::Unsigned(n) => Payload::Unsigned(*n),
            Payload::Signed(n) => Payload::Signed(*n),
            Payload::KeyValue(k, v) => {
                let value = match v {
                    Some(s) => Some(s.clone()),
                    None => None,
                };
                Payload::KeyValue(k.clone(), value)
            },
            Payload::Tracking(t) => Payload::Tracking(*t),
        }
    }
}

impl ConverterOption {
    pub open spec fn view(&self) -> ConverterOptionView {
        ConverterOptionView { name: self.name, payload: self.payload@ }
    }

    /// A copy of this option.
    pub fn duplicate(&self) -> (r: Self)
        ensures
            r@ == self@,
    {
        ConverterOption { name: self.name, payload: self.payload.duplicate() }
    }
}

/// The values of a run of options, one for one.
pub open spec fn option_views(options: Seq<ConverterOption>) -> Seq<ConverterOptionView> {
    options.map_values(|o: ConverterOption| o@)
}

} // verus!
