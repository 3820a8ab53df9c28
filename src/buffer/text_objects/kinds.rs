use vstd::prelude::*;

verus! {

/// The kinds of text object a host can ask for.
#[derive(Debug, Clone, Copy, PartialEq, Eq, Hash, Structural)]
pub enum TextObjectKind {
    // Basic text objects
    Word,
    BigWord,
    Sentence,
    Paragraph,
    // Delimiter pairs
    Parentheses,
    Brackets,
    Braces,
    AngleBrackets,
    SingleQuotes,
    DoubleQuotes,
    Backticks,
    // Regex-based
    Url,
    Email,
    Number,
    HexColor,
    // Syntax-tree based
    Function,
    Class,
    Parameter,
    Argument,
    Comment,
    String,
    Type,
    Import,
    Return,
    Conditional,
    Loop,
    Block,
    Call,
    Assignment,
}

impl TextObjectKind {
    /// The kinds found through a syntax tree.
    pub open spec fn spec_requires_treesitter(self) -> bool {
        !(self is Word || self is BigWord || self is Sentence || self is Paragraph
            || self is Parentheses || self is Brackets || self is Braces || self is AngleBrackets
            || self is SingleQuotes || self is DoubleQuotes || self is Backticks || self is Url
            || self is Email || self is Number || self is HexColor)
    }

    pub fn requires_treesitter(&self) -> (r: bool)
        ensures
            r == self.spec_requires_treesitter(),
    {
        match self {
            TextObjectKind::Function
            | TextObjectKind::Class
            | TextObjectKind::Parameter
            | TextObjectKind::Argument
            | TextObjectKind::Comment
            | TextObjectKind::String
            | TextObjectKind::Type
            | TextObjectKind::Import
            | TextObjectKind::Return
            | TextObjectKind::Conditional
            | TextObjectKind::Loop
            | TextObjectKind::Block
            | TextObjectKind::Call
            | TextObjectKind::Assignment => true,
            _ => false,
        }
    }
}

} // verus!
