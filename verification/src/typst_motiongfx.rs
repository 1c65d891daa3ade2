//! Formulas: the sources that are typeset, and what identifies their parts.
pub mod walk;
pub mod walk_laws;

use crate::text::{begins_with, replace_text, replaced, text2, text5};
use vstd::prelude::*;
use vstd::string::StringExecFns;

verus! {

/// Why a compile failed.
#[derive(Debug)]
pub enum CompileError {
    /// Typst error.
    Typst(String),
    /// LaTeX error.
    LaTeX(String),
    /// Document had no page.
    NoPage,
}

impl CompileError {
    /// The error in words.
    pub open spec fn spec_message(self) -> Seq<char> {
        match self {
            CompileError::Typst(message) => "typst: "@ + message@,
            CompileError::LaTeX(message) => "latex: "@ + message@,
            CompileError::NoPage => "document has no page"@,
        }
    }

    /// The error in words.
    pub fn message(&self) -> (message: String)
        ensures
            message@ == self.spec_message(),
    {
        match self {
            CompileError::Typst(message) => text2("typst: ", message.as_str()),
            CompileError::LaTeX(message) => text2("latex: ", message.as_str()),
            CompileError::NoPage => String::from_str("document has no page"),
        }
    }
}

/// The lines in front of what is typeset: a page that fits it, and white text
/// of a size, which is given as it is written.
pub open spec fn preamble(size: Seq<char>) -> Seq<char> {
    "#set page(width: auto, height: auto, margin: 0pt, fill: none)\n#set text(size: "@ + size
        + "pt, fill: white)\n"@
}

/// The source of a formula.
pub fn math_source(source: &str, size: &str) -> (full: String)
    ensures
        full@ == preamble(size@) + "$ "@ + source@ + " $\n"@,
{
    write_source(size, "$ ", source, " $\n")
}

/// The source of a text.
pub fn text_source(source: &str, size: &str) -> (full: String)
    ensures
        full@ == preamble(size@) + ""@ + source@ + "\n"@,
{
    write_source(size, "", source, "\n")
}

/// A source with something in front of it and behind it.
fn write_source(size: &str, before: &str, source: &str, after: &str) -> (full: String)
    ensures
        full@ == preamble(size@) + before@ + source@ + after@,
{
    let head = text5(
        "#set page(width: auto, height: auto, margin: 0pt, fill: none)\n#set text(size: ",
        size,
        "pt, fill: white)\n",
        before,
        source,
    );
    text2(head.as_str(), after)
}

/// A formula as it is quoted: with a backslash in front of every backslash and
/// of every quotation mark.
pub open spec fn quoted(formula: Seq<char>) -> Seq<char> {
    replaced(replaced(formula, "\\"@, "\\\\"@), "\""@, "\\\""@)
}

/// The source of a formula that was converted from LaTeX.
pub fn latex_source(converted: &str, size: &str) -> (full: String)
    ensures
        full@ == preamble(size@)
            + "#import \"mitex-scope.typ\": mitex-scope\n#math.equation(block: true, eval(\"$ "@
            + quoted(converted@) + " $\", scope: mitex-scope))\n"@,
{
    proof {
        reveal_strlit("\\");
        reveal_strlit("\"");
    }
    let once = replace_text(converted, "\\", "\\\\");
    let escaped = replace_text(once.as_str(), "\"", "\\\"");
    write_source(
        size,
        "#import \"mitex-scope.typ\": mitex-scope\n#math.equation(block: true, eval(\"$ ",
        escaped.as_str(),
        " $\", scope: mitex-scope))\n",
    )
}

/// How a character is quoted.
pub open spec fn quoted_char(c: char) -> Seq<char> {
    if c == '\\' || c == '"' {
        seq!['\\', c]
    } else {
        seq![c]
    }
}

/// Characters quoted one by one.
pub open spec fn quoted_chars(formula: Seq<char>) -> Seq<char>
    decreases formula.len(),
{
    if formula.len() == 0 {
        formula
    } else {
        quoted_char(formula[0]) + quoted_chars(formula.skip(1))
    }
}

/// What is read between quotation marks: up to the first one that no backslash
/// stands in front of, where a backslash stands for the character behind it.
pub open spec fn read_quoted(text: Seq<char>) -> Seq<char>
    decreases text.len(),
{
    if text.len() == 0 || text[0] == '"' {
        Seq::empty()
    } else if text[0] == '\\' && text.len() > 1 {
        seq![text[1]] + read_quoted(text.skip(2))
    } else {
        seq![text[0]] + read_quoted(text.skip(1))
    }
}

/// Quoting with two replacements quotes the characters one by one.
proof fn quoted_one_by_one(formula: Seq<char>)
    ensures
        quoted(formula) == quoted_chars(formula),
    decreases formula.len(),
{
    reveal_strlit("\\");
    reveal_strlit("\\\\");
    reveal_strlit("\"");
    reveal_strlit("\\\"");
    let backslash = "\\"@;
    let mark = "\""@;
    if formula.len() > 0 {
        let c = formula[0];
        let rest = formula.skip(1);
        let once = replaced(rest, backslash, "\\\\"@);
        quoted_one_by_one(rest);
        assert(formula.take(1) =~= seq![c]);
        assert(c == '\\' ==> formula.take(1) =~= backslash);
        assert(c != '\\' ==> formula.take(1)[0] != backslash[0]);
        if c == '\\' {
            let twice = "\\\\"@ + once;
            assert(twice[0] == '\\' && twice[1] == '\\');
            assert(twice.take(1)[0] == '\\');
            assert(!begins_with(twice, mark));
            assert(twice.skip(1) =~= seq!['\\'] + once);
            let tail = twice.skip(1);
            assert(tail.take(1)[0] == '\\');
            assert(!begins_with(tail, mark));
            assert(tail.skip(1) =~= once);
            assert(replaced(tail, mark, "\\\""@) == seq!['\\'] + replaced(once, mark, "\\\""@));
            assert(replaced(twice, mark, "\\\""@) == seq!['\\'] + (seq!['\\'] + replaced(
                once,
                mark,
                "\\\""@,
            )));
            assert(seq!['\\'] + (seq!['\\'] + replaced(once, mark, "\\\""@)) =~= seq!['\\', '\\']
                + replaced(once, mark, "\\\""@));
        } else {
            let kept = seq![c] + once;
            assert(kept.take(1) =~= seq![c]);
            assert(kept.skip(1) =~= once);
            if c == '"' {
                assert(kept.take(1) =~= mark);
                assert(begins_with(kept, mark));
                assert("\\\""@ =~= seq!['\\', '"']);
            } else {
                assert(kept.take(1)[0] != mark[0]);
                assert(!begins_with(kept, mark));
            }
        }
    }
}

/// Reading a quoted formula gives it back: nothing of it ends the quotation
/// early, and nothing of it is taken for something else.
pub proof fn quoting_is_undone_by_reading(formula: Seq<char>)
    ensures
        read_quoted(quoted(formula)) == formula,
    decreases formula.len(),
{
    quoted_one_by_one(formula);
    if formula.len() > 0 {
        let c = formula[0];
        let rest = formula.skip(1);
        quoting_is_undone_by_reading(rest);
        quoted_one_by_one(rest);
        let text = quoted_chars(formula);
        assert(text == quoted_char(c) + quoted_chars(rest));
        if c == '\\' || c == '"' {
            assert(text.skip(2) =~= quoted_chars(rest));
            assert(text[0] == '\\' && text[1] == c);
        } else {
            assert(text.skip(1) =~= quoted_chars(rest));
            assert(text[0] == c);
        }
        assert(read_quoted(text) == seq![c] + rest);
        assert(seq![c] + rest =~= formula);
    }
}

/// The shapes that a formula is drawn with besides glyphs.
#[derive(Debug, Clone, Copy, PartialEq, Eq, Structural)]
pub enum ShapeKind {
    Rect,
    Line,
    Curve,
}

impl ShapeKind {
    /// What a shape is identified by.
    pub open spec fn spec_name(self) -> Seq<char> {
        match self {
            ShapeKind::Rect => "rect"@,
            ShapeKind::Line => "line"@,
            ShapeKind::Curve => "curve"@,
        }
    }

    /// What a shape is identified by.
    pub fn name(self) -> (name: &'static str)
        ensures
            name@ == self.spec_name(),
    {
        match self {
            ShapeKind::Rect => "rect",
            ShapeKind::Line => "line",
            ShapeKind::Curve => "curve",
        }
    }
}

/// What a glyph is identified by: the hash of the name of its font family, and
/// its number.
pub open spec fn key_of_glyph(family: u64, glyph: u16) -> u64 {
    family ^ (glyph as u64)
}

/// What a glyph is identified by.
pub fn glyph_key(family: u64, glyph: u16) -> (key: u64)
    ensures
        key == key_of_glyph(family, glyph),
{
    family ^ (glyph as u64)
}

/// The glyphs of a font family are told apart by their keys.
pub proof fn glyphs_differ(family: u64, a: u16, b: u16)
    requires
        key_of_glyph(family, a) == key_of_glyph(family, b),
    ensures
        a == b,
{
    let x = a as u64;
    let y = b as u64;
    assert(family ^ x == family ^ y ==> x == y) by (bit_vector);
}

} // verus!
