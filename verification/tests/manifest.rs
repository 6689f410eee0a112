use bundler::{get_crate_name, parse_manifest, replace_hyphens, ManifestError};

fn s(text: &str) -> String {
    text.to_string()
}

fn crate_name(manifest: &str) -> Result<String, ManifestError> {
    get_crate_name(&parse_manifest(manifest).unwrap().into_value())
}

#[test]
fn lib_name_is_taken_as_it_stands() {
    let manifest = "[package]\nname = \"my-package\"\n[lib]\nname = \"my-lib\"\n";
    assert_eq!(crate_name(manifest), Ok(s("my-lib")));
}

#[test]
fn package_name_has_hyphens_replaced() {
    let manifest = "[package]\nname = \"rust-code-force\"\nversion = \"0.1.0\"\n";
    assert_eq!(crate_name(manifest), Ok(s("rust_code_force")));
}

#[test]
fn lib_without_name_falls_back_to_package() {
    let manifest = "[lib]\npath = \"src/lib.rs\"\n[package]\nname = \"a-b\"\n";
    assert_eq!(crate_name(manifest), Ok(s("a_b")));
}

#[test]
fn lib_that_is_not_a_table_falls_back_to_package() {
    let manifest = "lib = 5\n[package]\nname = \"pkg\"\n";
    assert_eq!(crate_name(manifest), Ok(s("pkg")));
}

#[test]
fn lib_name_not_a_string() {
    let manifest = "[lib]\nname = 1\n[package]\nname = \"p\"\n";
    assert_eq!(crate_name(manifest), Err(ManifestError::LibNameNotString));
}

#[test]
fn package_name_not_a_string() {
    assert_eq!(crate_name("[package]\nname = 2"), Err(ManifestError::PackageNameNotString));
    assert_eq!(crate_name("[package]\nname = 2.5"), Err(ManifestError::PackageNameNotString));
}

#[test]
fn no_name_at_all() {
    let manifest = "[dependencies]\nsyn = \"2\"\n";
    assert_eq!(crate_name(manifest), Err(ManifestError::NoCrateName));
    assert_eq!(crate_name(""), Err(ManifestError::NoCrateName));
    let not_a_table = toml::Value::String(s("not a table"));
    assert_eq!(get_crate_name(&not_a_table), Err(ManifestError::NoCrateName));
}

#[test]
fn dotted_keys_name_the_same_entries() {
    assert_eq!(crate_name("package.name = \"x-y\""), Ok(s("x_y")));
    assert_eq!(crate_name("lib = { name = \"my-lib\" }"), Ok(s("my-lib")));
}

#[test]
fn hyphens_become_underscores() {
    assert_eq!(replace_hyphens("a-b-c"), "a_b_c");
    assert_eq!(replace_hyphens("-"), "_");
    assert_eq!(replace_hyphens(""), "");
    assert_eq!(replace_hyphens("plain_name"), "plain_name");
    assert_eq!(replace_hyphens("ünï-cødé"), "ünï_cødé");
    assert_eq!(replace_hyphens(&replace_hyphens("x--y")), "x__y");
}

#[test]
fn parse_manifest_accepts_toml() {
    let parsed = parse_manifest("[package]\nname = \"a-b\"\n").unwrap();
    match parsed.into_value() {
        toml::Value::Table(t) => assert!(t.contains_key("package")),
        _ => panic!("expected a table"),
    }
}

#[test]
fn parse_manifest_rejects_what_is_not_toml() {
    assert_eq!(bundler::parse_manifest("[package").err(), Some(bundler::NotToml));
}

#[test]
fn parse_manifest_gives_the_table_of_the_text() {
    let text = "[package]\nname = \"a-b\"\n";
    let parsed = bundler::parse_manifest(text).unwrap().into_value();
    let expected = toml::Value::Table(toml::from_str::<toml::Table>(text).unwrap());
    assert_eq!(parsed, expected);
    assert_ne!(parsed, toml::Value::Table(toml::Table::new()));
}
