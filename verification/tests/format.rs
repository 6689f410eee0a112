use bundler::parse_source;
use quote::ToTokens;

#[test]
fn parse_source_accepts_rust() {
    let parsed = parse_source("mod a; fn main() {}").unwrap();
    assert_eq!(parsed.into_syntax().items.len(), 2);
}

#[test]
fn parse_source_rejects_what_is_not_rust() {
    assert!(parse_source("mod ;").is_err());
}

#[test]
fn parse_source_gives_the_tree_of_the_text() {
    let parsed = parse_source("fn f() {}").unwrap().into_syntax();
    let text = parsed.into_token_stream().to_string();
    assert_eq!(text, syn::parse_file("fn f() {}").unwrap().into_token_stream().to_string());
    assert_ne!(text, "");
}
