//! The package manifest (`Cargo.toml`) and the crate name that it declares.
use vstd::prelude::*;
use vstd::string::*;

verus! {

#[verifier::external_type_specification]
#[verifier::external_body]
pub struct ExTomlValue(toml::Value);

#[verifier::external_type_specification]
#[verifier::external_body]
pub struct ExTomlError(toml::de::Error);

/// Why no crate name could be taken from a manifest.
#[derive(Debug, Clone, Copy, PartialEq, Eq, Structural)]
pub enum ManifestError {
    /// `lib.name` is present and is not a string.
    LibNameNotString,
    /// `lib.name` is absent and `package.name` is present and is not a string.
    PackageNameNotString,
    /// Neither `lib.name` nor `package.name` is present.
    NoCrateName,
}

/// What `toml::Value::get` gives for the string key `key`: the value of that
/// key when `value` is a table that has it.
pub uninterp spec fn toml_entry(value: toml::Value, key: Seq<char>) -> Option<toml::Value>;

/// What `toml::Value::as_str` gives: the text of `value` when it is a string.
pub uninterp spec fn toml_str(value: toml::Value) -> Option<Seq<char>>;

/// `toml::Value::get` with a `&str` key: the value of the key in a table,
/// nothing for a key that the table lacks or for a value that is not a
/// table.  The result is a function of the value and the key, named
/// `toml_entry`.
#[verifier::external_body]
fn value_get<'a>(value: &'a toml::Value, key: &str) -> (r: Option<&'a toml::Value>)
    ensures
        match r {
            Some(v) => toml_entry(*value, key@) == Some(*v),
            None => toml_entry(*value, key@) is None,
        },
{
    value.get(key)
}

/// `toml::Value::as_str`: the text of a string value, nothing for any other
/// value.  The result is a function of the value, named `toml_str`.
#[verifier::external_body]
fn value_as_str(value: &toml::Value) -> (r: Option<&str>)
    ensures
        match r {
            Some(text) => toml_str(*value) == Some(text@),
            None => toml_str(*value) is None,
        },
{
    value.as_str()
}

/// `manifest[section].name`, where both keys are present.
pub open spec fn name_entry(manifest: toml::Value, section: Seq<char>) -> Option<toml::Value> {
    match toml_entry(manifest, section) {
        Some(table) => toml_entry(table, name_key()),
        None => None,
    }
}

pub open spec fn lib_key() -> Seq<char> {
    seq!['l', 'i', 'b']
}

pub open spec fn package_key() -> Seq<char> {
    seq!['p', 'a', 'c', 'k', 'a', 'g', 'e']
}

pub open spec fn name_key() -> Seq<char> {
    seq!['n', 'a', 'm', 'e']
}

/// `s` with every `-` turned into `_`.
pub open spec fn underscored(s: Seq<char>) -> Seq<char> {
    s.map_values(|c: char| if c == '-' { '_' } else { c })
}

/// The crate name that a manifest declares: `lib.name` as it stands if it is
/// present, else `package.name` with `-` turned into `_`.
pub open spec fn crate_name_of(manifest: toml::Value) -> Result<Seq<char>, ManifestError> {
    match name_entry(manifest, lib_key()) {
        Some(name) => match toml_str(name) {
            Some(text) => Ok(text),
            None => Err(ManifestError::LibNameNotString),
        },
        None => match name_entry(manifest, package_key()) {
            Some(name) => match toml_str(name) {
                Some(text) => Ok(underscored(text)),
                None => Err(ManifestError::PackageNameNotString),
            },
            None => Err(ManifestError::NoCrateName),
        },
    }
}

/// `manifest[section].name`, read with `toml::Value::get`.
fn get_name_entry<'a>(manifest: &'a toml::Value, section: &str) -> (r: Option<&'a toml::Value>)
    ensures
        match r {
            Some(v) => name_entry(*manifest, section@) == Some(*v),
            None => name_entry(*manifest, section@) is None,
        },
{
    let name_k = "name";
    proof {
        reveal_strlit("name");
        assert(name_k@ =~= name_key());
    }
    match value_get(manifest, section) {
        Some(table) => value_get(table, name_k),
        None => None,
    }
}

/// `name` with every `-` replaced by `_`.
pub fn replace_hyphens(name: &str) -> (r: String)
    ensures
        r@ == underscored(name@),
        r@.len() == name@.len(),
        forall|i: int|
            0 <= i < name@.len() ==> #[trigger] r@[i] == (if name@[i] == '-' {
                '_'
            } else {
                name@[i]
            }),
{
    proof {
        lemma_underscored_chars(name@);
    }
    let n = name.unicode_len();
    let mut out = String::new();
    let mut i: usize = 0;
    proof {
        reveal_strlit("_");
    }
    while i < n
        invariant
            n == name@.len(),
            i <= n,
            out@ == underscored(name@.take(i as int)),
            "_"@ == seq!['_'],
        decreases n - i,
    {
        let c = name.get_char(i);
        if c == '-' {
            out.append("_");
        } else {
            let piece = name.substring_char(i, i + 1);
            assert(piece@ =~= seq![c]);
            out.append(piece);
        }
        assert(name@.take(i + 1) =~= name@.take(i as int).push(c));
        assert(underscored(name@.take(i + 1)) =~= underscored(name@.take(i as int)).push(
            if c == '-' { '_' } else { c },
        ));
        i = i + 1;
    }
    assert(name@.take(n as int) =~= name@);
    out
}

/// The name under which the package's library is imported: `lib.name` if
/// the manifest has it, else `package.name` with `-` turned into `_`.
///
/// A `lib.name` that is present decides, also when it is not a string (then
/// the result is `LibNameNotString`); a `package.name` is read only when
/// `lib.name` is absent.
pub fn get_crate_name(cargo_toml: &toml::Value) -> (r: Result<String, ManifestError>)
    ensures
        match r {
            Ok(name) => crate_name_of(*cargo_toml) == Ok::<Seq<char>, ManifestError>(name@),
            Err(e) => crate_name_of(*cargo_toml) == Err::<Seq<char>, ManifestError>(e),
        },
{
    let lib_k = "lib";
    let package_k = "package";
    proof {
        reveal_strlit("lib");
        reveal_strlit("package");
        assert(lib_k@ =~= lib_key());
        assert(package_k@ =~= package_key());
    }
    match get_name_entry(cargo_toml, lib_k) {
        Some(name) => match value_as_str(name) {
            Some(text) => Ok(text.to_owned()),
            None => Err(ManifestError::LibNameNotString),
        },
        None => match get_name_entry(cargo_toml, package_k) {
            Some(name) => match value_as_str(name) {
                Some(text) => Ok(replace_hyphens(text)),
                None => Err(ManifestError::PackageNameNotString),
            },
            None => Err(ManifestError::NoCrateName),
        },
    }
}

/// Which name the manifest gives: a string `lib.name` as it stands,
/// whatever `package.name` is; without `lib.name`, a string `package.name`
/// with each `-` turned into `_`; a `lib.name` that is present and not a
/// string is an error even when `package.name` is a string.
pub proof fn lemma_crate_name_cases(manifest: toml::Value)
    ensures
        name_entry(manifest, lib_key()) matches Some(v) ==> (toml_str(v) matches Some(t)
            ==> crate_name_of(manifest) == Ok::<Seq<char>, ManifestError>(t)),
        name_entry(manifest, lib_key()) matches Some(v) ==> (toml_str(v) is None
            ==> crate_name_of(manifest) == Err::<Seq<char>, ManifestError>(
            ManifestError::LibNameNotString,
        )),
        name_entry(manifest, lib_key()) is None ==> (name_entry(manifest, package_key()) matches Some(
            v,
        ) ==> (toml_str(v) matches Some(t) ==> crate_name_of(manifest) == Ok::<
            Seq<char>,
            ManifestError,
        >(t.map_values(|c: char| if c == '-' { '_' } else { c })))),
        name_entry(manifest, lib_key()) is None ==> (name_entry(manifest, package_key()) matches Some(
            v,
        ) ==> (toml_str(v) is None ==> crate_name_of(manifest) == Err::<Seq<char>, ManifestError>(
            ManifestError::PackageNameNotString,
        ))),
        name_entry(manifest, lib_key()) is None ==> (name_entry(manifest, package_key()) is None
            ==> crate_name_of(manifest) == Err::<Seq<char>, ManifestError>(
            ManifestError::NoCrateName,
        )),
{
}

/// Turning `-` into `_` keeps the length and every other character: each
/// `-` becomes `_`, and each character that is not `-` stays as it is.
pub proof fn lemma_underscored_chars(s: Seq<char>)
    ensures
        underscored(s).len() == s.len(),
        forall|i: int|
            0 <= i < s.len() ==> #[trigger] underscored(s)[i] == (if s[i] == '-' {
                '_'
            } else {
                s[i]
            }),
{
}

/// A crate name taken from `package.name` holds no `-`.
pub proof fn lemma_package_name_has_no_hyphen(manifest: toml::Value)
    requires
        name_entry(manifest, lib_key()) is None,
        crate_name_of(manifest) is Ok,
    ensures
        !crate_name_of(manifest)->Ok_0.contains('-'),
{
    let name = crate_name_of(manifest)->Ok_0;
    if name.contains('-') {
        let i = choose|i: int| 0 <= i < name.len() && name[i] == '-';
        assert(name[i] == '-');
    }
}

/// Turning `-` into `_` a second time changes nothing.
pub proof fn lemma_underscored_idempotent(s: Seq<char>)
    ensures
        underscored(underscored(s)) == underscored(s),
{
    assert(underscored(underscored(s)) =~= underscored(s));
}

/// `toml::from_str` accepts `text` as a TOML document.
pub uninterp spec fn toml_document_parses(text: Seq<char>) -> bool;

/// The table that `toml::from_str` gives for `text`, as a `toml::Value`.
pub uninterp spec fn parsed_document(text: Seq<char>) -> toml::Value;

/// `toml::from_str` into a `toml::Table`: parses a TOML document, whose
/// table is returned as a `toml::Value`.  Whether it succeeds, and the table
/// that it gives, depend on the text alone; they are given the names
/// `toml_document_parses` and `parsed_document`.
#[verifier::external_body]
fn toml_from_str(text: &str) -> (r: Result<toml::Value, toml::de::Error>)
    ensures
        r is Ok <==> toml_document_parses(text@),
        r matches Ok(v) ==> v == parsed_document(text@),
{
    toml::from_str::<toml::Table>(text).map(toml::Value::Table)
}

/// The text is not a TOML document.
#[derive(Debug, Clone, Copy, PartialEq, Eq, Structural)]
pub struct NotToml;

/// A parsed TOML document.
pub struct ParsedManifest {
    value: toml::Value,
}

impl ParsedManifest {
    /// The document's table that this parsed manifest holds.
    pub closed spec fn value(&self) -> toml::Value {
        self.value
    }

    /// The document's table, as a `toml::Value`: the one that it holds.
    pub fn into_value(self) -> (r: toml::Value)
        ensures
            r == self.value(),
    {
        self.value
    }
}

/// Parses the text of a manifest: the table that `toml` gives for it, or
/// `NotToml` exactly when `toml` does not accept it.
pub fn parse_manifest(text: &str) -> (r: Result<ParsedManifest, NotToml>)
    ensures
        r is Ok <==> toml_document_parses(text@),
        r matches Ok(m) ==> m.value() == parsed_document(text@),
{
    match toml_from_str(text) {
        Ok(value) => Ok(ParsedManifest { value }),
        Err(_) => Err(NotToml),
    }
}

} // verus!
