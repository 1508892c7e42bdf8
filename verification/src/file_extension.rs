//! The kinds of file that the editor tells apart.

use vstd::prelude::*;

verus! {

/// A kind of file.
#[derive(Clone, Copy, PartialEq, Eq, Hash, Debug)]
pub enum FileExtension {
    Rust,
    Toml,
    Text,
    Unknown,
}

impl FileExtension {
    /// The name of the kind, as a string.
    pub open spec fn name(self) -> Seq<char> {
        match self {
            FileExtension::Rust => "rs"@,
            FileExtension::Toml => "toml"@,
            FileExtension::Text => "text"@,
            FileExtension::Unknown => "unknown"@,
        }
    }

    /// The name of the kind.
    pub fn as_str(&self) -> (name: &'static str)
        ensures
            name@ == self.name(),
    {
        match self {
            FileExtension::Rust => "rs",
            FileExtension::Toml => "toml",
            FileExtension::Text => "text",
            FileExtension::Unknown => "unknown",
        }
    }
}

} // verus!
