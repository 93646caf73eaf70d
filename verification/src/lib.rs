use vstd::prelude::*;

pub mod analyzer;
pub mod canonical;
pub mod declarations;
pub mod directive;
pub mod document;
pub mod documents;
pub mod elements;
pub mod exports;
pub mod fixture;
pub mod laws;
pub mod modules;
pub mod names;
pub mod paths;
pub mod release;
pub mod resolver;
pub mod scope;
pub mod syntax;
pub mod text;
pub mod tokens;
pub mod tree;
pub mod utf16;

verus! {

/// Component kind.
#[derive(Debug, Clone, Copy, PartialEq, Eq, PartialOrd, Ord, Structural)]
pub enum Kind {
    Client,
    Server,
}

/// Half-open range in UTF-16 code-unit offsets.
#[derive(Debug, Clone, Copy, PartialEq, Eq, Structural)]
pub struct Range {
    pub start: u32,
    pub end: u32,
}

/// One usage of a component or a type: where it stands, and the file that declares it.
#[derive(Debug, PartialEq, Eq)]
pub struct Usage {
    pub kind: Kind,
    pub tag_name: String,
    pub source_file_path: String,
    pub ranges: Vec<Range>,
}

/// One usage of a component or a type: where it stands, and the file that declares it.
#[verifier::ext_equal]
pub struct UsageView {
    pub kind: Kind,
    pub tag_name: Seq<char>,
    pub source_file_path: Seq<char>,
    pub ranges: Seq<Range>,
}

impl View for Usage {
    type V = UsageView;

    open spec fn view(&self) -> UsageView {
        UsageView {
            kind: self.kind,
            tag_name: self.tag_name@,
            source_file_path: self.source_file_path@,
            ranges: self.ranges@,
        }
    }
}

impl Clone for Usage {
    fn clone(&self) -> (copy: Self)
        ensures
            copy@ == self@,
    {
        let copy = Usage {
            kind: self.kind,
            tag_name: self.tag_name.clone(),
            source_file_path: self.source_file_path.clone(),
            ranges: self.ranges.clone(),
        };
        assert(copy.ranges@ =~= self.ranges@);
        copy
    }
}

/// The word for a kind.
pub open spec fn kind_word(kind: Kind) -> Seq<char> {
    match kind {
        Kind::Client => "client"@,
        Kind::Server => "server"@,
    }
}

impl Kind {
    /// The word for a kind: `client` or `server`.
    pub fn as_str(self) -> (word: &'static str)
        ensures
            word@ == kind_word(self),
    {
        match self {
            Kind::Client => "client",
            Kind::Server => "server",
        }
    }
}

/// Half-open range in UTF-8 byte offsets.
#[derive(Debug, Clone, Copy, PartialEq, Eq, Structural)]
pub struct Span {
    pub start: u32,
    pub end: u32,
}

} // verus!
