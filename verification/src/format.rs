//! Parsing Rust source text.
use vstd::prelude::*;

verus! {

#[verifier::external_type_specification]
#[verifier::external_body]
pub struct ExSynFile(syn::File);

#[verifier::external_type_specification]
#[verifier::external_body]
pub struct ExSynError(syn::Error);

/// `syn::parse_file` accepts `text` as a Rust source file.
pub uninterp spec fn rust_file_parses(text: Seq<char>) -> bool;

/// The syntax tree that `syn::parse_file` gives for `text`.
pub uninterp spec fn parsed_tree(text: Seq<char>) -> syn::File;

/// `syn::parse_file`: parses a whole Rust source file.  Whether it succeeds,
/// and the tree that it gives, depend on the text alone; they are given the
/// names `rust_file_parses` and `parsed_tree`.
#[verifier::external_body]
fn syn_parse_file(text: &str) -> (r: Result<syn::File, syn::Error>)
    ensures
        r is Ok <==> rust_file_parses(text@),
        r matches Ok(f) ==> f == parsed_tree(text@),
{
    syn::parse_file(text)
}

/// The text is not a Rust source file.
#[derive(Debug, Clone, Copy, PartialEq, Eq, Structural)]
pub struct NotRustSource;

/// A parsed Rust source file.
pub struct RustSource {
    file: syn::File,
}

impl RustSource {
    /// The syntax tree that this parsed file holds.
    pub closed spec fn syntax(&self) -> syn::File {
        self.file
    }

    /// The file's syntax tree: the one that it holds.
    pub fn into_syntax(self) -> (r: syn::File)
        ensures
            r == self.syntax(),
    {
        self.file
    }
}

/// Parses the text of a Rust source file: the tree that `syn` gives for it,
/// or `NotRustSource` exactly when `syn` does not accept it.
pub fn parse_source(text: &str) -> (r: Result<RustSource, NotRustSource>)
    ensures
        r is Ok <==> rust_file_parses(text@),
        r matches Ok(s) ==> s.syntax() == parsed_tree(text@),
{
    match syn_parse_file(text) {
        Ok(file) => Ok(RustSource { file }),
        Err(_) => Err(NotRustSource),
    }
}

} // verus!
