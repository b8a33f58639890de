//! Which words cannot serve as a name.
//!
//! The list is the one by which `syn` tells a keyword from an identifier when
//! it parses an `Ident`: the language's strict and reserved keywords, and the
//! lone underscore. It is stated here in full, as the grammar's own rule.

use crate::text::text_is;
use vstd::prelude::*;

verus! {

/// Whether `text` is a word that the language reserves, or the lone
/// underscore: such a word cannot name a module, a tree or an option.
pub open spec fn spec_is_reserved(text: Seq<char>) -> bool {
    text == "_"@
        || text == "abstract"@
        || text == "as"@
        || text == "async"@
        || text == "await"@
        || text == "become"@
        || text == "box"@
        || text == "break"@
        || text == "const"@
        || text == "continue"@
        || text == "crate"@
        || text == "do"@
        || text == "dyn"@
        || text == "else"@
        || text == "enum"@
        || text == "extern"@
        || text == "false"@
        || text == "final"@
        || text == "fn"@
        || text == "for"@
        || text == "if"@
        || text == "impl"@
        || text == "in"@
        || text == "let"@
        || text == "loop"@
        || text == "macro"@
        || text == "match"@
        || text == "mod"@
        || text == "move"@
        || text == "mut"@
        || text == "override"@
        || text == "priv"@
        || text == "pub"@
        || text == "ref"@
        || text == "return"@
        || text == "Self"@
        || text == "self"@
        || text == "static"@
        || text == "struct"@
        || text == "super"@
        || text == "trait"@
        || text == "true"@
        || text == "try"@
        || text == "type"@
        || text == "typeof"@
        || text == "unsafe"@
        || text == "unsized"@
        || text == "use"@
        || text == "virtual"@
        || text == "where"@
        || text == "while"@
        || text == "yield"@
}

/// Whether `text` is a word that cannot serve as a name.
pub fn is_reserved(text: &String) -> (r: bool)
    ensures
        r == spec_is_reserved(text@),
{
    text_is(text, "_")
        || text_is(text, "abstract")
        || text_is(text, "as")
        || text_is(text, "async")
        || text_is(text, "await")
        || text_is(text, "become")
        || text_is(text, "box")
        || text_is(text, "break")
        || text_is(text, "const")
        || text_is(text, "continue")
        || text_is(text, "crate")
        || text_is(text, "do")
        || text_is(text, "dyn")
        || text_is(text, "else")
        || text_is(text, "enum")
        || text_is(text, "extern")
        || text_is(text, "false")
        || text_is(text, "final")
        || text_is(text, "fn")
        || text_is(text, "for")
        || text_is(text, "if")
        || text_is(text, "impl")
        || text_is(text, "in")
        || text_is(text, "let")
        || text_is(text, "loop")
        || text_is(text, "macro")
        || text_is(text, "match")
        || text_is(text, "mod")
        || text_is(text, "move")
        || text_is(text, "mut")
        || text_is(text, "override")
        || text_is(text, "priv")
        || text_is(text, "pub")
        || text_is(text, "ref")
        || text_is(text, "return")
        || text_is(text, "Self")
        || text_is(text, "self")
        || text_is(text, "static")
        || text_is(text, "struct")
        || text_is(text, "super")
        || text_is(text, "trait")
        || text_is(text, "true")
        || text_is(text, "try")
        || text_is(text, "type")
        || text_is(text, "typeof")
        || text_is(text, "unsafe")
        || text_is(text, "unsized")
        || text_is(text, "use")
        || text_is(text, "virtual")
        || text_is(text, "where")
        || text_is(text, "while")
        || text_is(text, "yield")
}

} // verus!
