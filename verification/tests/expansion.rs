use bundler::{
    bundle_step, crate_prefix_len, is_extern_crate, is_use_path, lib_location, main_location,
    mod_dir_file, mod_file, path_starts_with, src_dir, Bundle, BundleError, Expander, Halt, Item,
    Piece, SourceFile, SourceState, Sources,
};

fn s(text: &str) -> String {
    text.to_string()
}

fn other(syntax: u64) -> Item {
    Item::Other { syntax, nested: vec![] }
}

fn lib_note(entry: usize) -> Piece {
    Piece::LibInlined { entry }
}

fn file_note(entry: usize) -> Piece {
    Piece::ModFileInlined { entry }
}

fn extern_crate(name: &str, syntax: u64) -> Item {
    Item::ExternCrate { name: s(name), syntax }
}

fn use_path(root: &str, syntax: u64) -> Item {
    Item::Use { root: Some(s(root)), syntax }
}

fn mod_decl(name: &str, syntax: u64) -> Item {
    Item::Mod { name: s(name), syntax, content: None }
}

fn mod_inline(name: &str, syntax: u64, content: Vec<Item>) -> Item {
    Item::Mod { name: s(name), syntax, content: Some(content) }
}

fn file(attrs: u64, items: Vec<Item>) -> SourceState {
    SourceState::Parsed(SourceFile { attrs, items })
}

fn item(syntax: u64, passes: usize) -> Piece {
    Piece::Item { syntax, passes }
}

fn open(syntax: u64, passes: usize) -> Piece {
    Piece::OpenMod { syntax, passes }
}

fn segs(names: &[&str]) -> Vec<String> {
    names.iter().map(|n| s(n)).collect()
}

/// Runs bundling the way a driver does: each file asked for is taken from
/// `files` (absent means unreadable) and added, until bundling ends.
fn run(files: Vec<(&str, SourceState)>, crate_name: &str) -> (Result<Bundle, Halt>, Vec<String>) {
    let mut files: Vec<(String, Option<SourceState>)> =
        files.into_iter().map(|(l, st)| (s(l), Some(st))).collect();
    let mut sources = Sources::new();
    let mut asked = Vec::new();
    let name = s(crate_name);
    loop {
        match bundle_step(&sources, &name) {
            Err(Halt::NeedFile(location)) => {
                assert!(!asked.contains(&location), "asked twice for {}", location);
                asked.push(location.clone());
                let state = files
                    .iter_mut()
                    .find(|(l, _)| *l == location)
                    .and_then(|(_, st)| st.take())
                    .unwrap_or(SourceState::Unreadable);
                sources.insert(location, state);
            }
            other => return (other, asked),
        }
    }
}

#[test]
fn locations() {
    assert_eq!(src_dir(), "src");
    assert_eq!(main_location(), "src/main.rs");
    assert_eq!(lib_location(&s("src")), "src/lib.rs");
    assert_eq!(mod_file(&s("src"), &s("foo")), "src/foo.rs");
    assert_eq!(mod_dir_file(&s("src/a"), &s("foo")), "src/a/foo/mod.rs");
}

#[test]
fn item_tests() {
    assert!(is_extern_crate(&extern_crate("my_lib", 0), "my_lib"));
    assert!(!is_extern_crate(&extern_crate("other_lib", 0), "my_lib"));
    assert!(!is_extern_crate(&use_path("my_lib", 0), "my_lib"));
    assert!(is_use_path(&use_path("my_lib", 0), "my_lib"));
    assert!(!is_use_path(&use_path("std", 0), "my_lib"));
    assert!(!is_use_path(&Item::Use { root: None, syntax: 0 }, "my_lib"));
    assert!(path_starts_with(&segs(&["my_lib", "a"]), "my_lib"));
    assert!(!path_starts_with(&segs(&["a", "my_lib"]), "my_lib"));
    assert!(!path_starts_with(&segs(&[]), "my_lib"));
}

#[test]
fn crate_prefix_is_stripped_once_per_pass() {
    let path = segs(&["my_lib", "my_lib", "a"]);
    assert_eq!(crate_prefix_len(&path, "my_lib", 0), 0);
    assert_eq!(crate_prefix_len(&path, "my_lib", 1), 1);
    assert_eq!(crate_prefix_len(&path, "my_lib", 2), 2);
    assert_eq!(crate_prefix_len(&path, "my_lib", 5), 2);
    assert_eq!(crate_prefix_len(&segs(&["a", "my_lib"]), "my_lib", 3), 0);
    assert_eq!(crate_prefix_len(&segs(&["my_lib"]), "my_lib", 1), 1);
    // Stripping once and then once more removes as much as stripping twice.
    let first = crate_prefix_len(&path, "my_lib", 1);
    let rest: Vec<String> = path[first..].to_vec();
    assert_eq!(first + crate_prefix_len(&rest, "my_lib", 1), crate_prefix_len(&path, "my_lib", 2));
    let name = s("my_lib");
    let base = s("src");
    let expander = Expander { base_path: &base, crate_name: &name };
    assert_eq!(expander.expand_crate_path(&path, 1), 1);
}

#[test]
fn expand_use_path_removes_the_crate_uses_only() {
    let name = s("my_lib");
    let base = s("src");
    let expander = Expander { base_path: &base, crate_name: &name };
    let a = use_path("my_lib", 1);
    let b = use_path("std", 2);
    let c = Item::Use { root: None, syntax: 3 };
    let d = other(4);
    let mut items = vec![&a, &b, &c, &d];
    expander.expand_use_path(&mut items);
    let kept: Vec<u64> = items
        .iter()
        .map(|i| match i {
            Item::Use { syntax, .. } | Item::Other { syntax, .. } => *syntax,
            _ => 0,
        })
        .collect();
    assert_eq!(kept, vec![2, 3, 4]);
}

#[test]
fn expand_extern_crate_splices_the_library() {
    let name = s("my_lib");
    let base = s("src");
    let expander = Expander { base_path: &base, crate_name: &name };
    let empty = Sources::new();
    let a = other(1);
    let e = extern_crate("my_lib", 2);
    let o = extern_crate("other_lib", 3);
    let mut probe = vec![&a, &e, &o];
    assert_eq!(expander.expand_extern_crate(&empty, &mut probe), Err(Halt::NeedFile(s("src/lib.rs"))));
    let mut sources = Sources::new();
    let mut items = vec![&a, &e, &o];
    sources.insert(s("src/lib.rs"), file(9, vec![other(10), other(11)]));
    assert_eq!(expander.expand_extern_crate(&sources, &mut items), Ok(()));
    let ids: Vec<u64> = items
        .iter()
        .map(|i| match i {
            Item::Other { syntax, .. } | Item::ExternCrate { syntax, .. } => *syntax,
            _ => 0,
        })
        .collect();
    assert_eq!(ids, vec![1, 10, 11, 3]);
}

#[test]
fn expand_extern_crate_without_the_crate_reads_nothing() {
    let name = s("my_lib");
    let base = s("src");
    let expander = Expander { base_path: &base, crate_name: &name };
    let sources = Sources::new();
    let a = other(1);
    let mut items = vec![&a];
    assert_eq!(expander.expand_items(&sources, &mut items), Ok(()));
    assert_eq!(items.len(), 1);
}

#[test]
fn expand_items_lib_unreadable() {
    let name = s("my_lib");
    let base = s("src");
    let expander = Expander { base_path: &base, crate_name: &name };
    let mut sources = Sources::new();
    sources.insert(s("src/lib.rs"), SourceState::Unreadable);
    let e = extern_crate("my_lib", 2);
    let mut items = vec![&e];
    assert_eq!(
        expander.expand_items(&sources, &mut items),
        Err(Halt::Failed(BundleError::LibUnreadable(s("src/lib.rs"))))
    );
}

#[test]
fn first_asks_for_main() {
    let sources = Sources::new();
    assert_eq!(bundle_step(&sources, &s("x")).err(), Some(Halt::NeedFile(s("src/main.rs"))));
}

#[test]
fn main_unreadable() {
    let (r, asked) = run(vec![], "x");
    assert_eq!(r.err(), Some(Halt::Failed(BundleError::MainUnreadable)));
    assert_eq!(asked, vec![s("src/main.rs")]);
}

#[test]
fn main_unparsable() {
    let (r, _) = run(vec![("src/main.rs", SourceState::Unparsable)], "x");
    assert_eq!(r.err(), Some(Halt::Failed(BundleError::MainUnparsable)));
}

#[test]
fn plain_main_is_kept_with_one_pass() {
    let (r, asked) = run(vec![("src/main.rs", file(7, vec![other(1), use_path("std", 2)]))], "x");
    let b = r.unwrap();
    assert_eq!(b.attrs, 7);
    assert_eq!(b.pieces, vec![item(1, 1), item(2, 1)]);
    assert_eq!(asked, vec![s("src/main.rs")]);
}

#[test]
fn library_is_inlined_and_its_uses_removed() {
    // extern crate my_lib; use my_lib::{a, b, c}; fn main() {}
    let main = file(0, vec![extern_crate("my_lib", 1), use_path("my_lib", 2), other(3)]);
    // pub mod a { .. } use my_lib::x; extern crate other_lib;
    let lib = file(50, vec![mod_inline("a", 51, vec![other(52)]), use_path("my_lib", 53), extern_crate("other_lib", 54)]);
    let (r, asked) = run(vec![("src/main.rs", main), ("src/lib.rs", lib)], "my_lib");
    let b = r.unwrap();
    assert_eq!(
        b.pieces,
        vec![lib_note(1), open(51, 1), item(52, 1), Piece::CloseMod, item(54, 1), item(3, 1)]
    );
    assert_eq!(asked, vec![s("src/main.rs"), s("src/lib.rs")]);
}

#[test]
fn library_inlined_twice_for_two_extern_crates() {
    let main = file(0, vec![extern_crate("my_lib", 1), other(2), extern_crate("my_lib", 3)]);
    let lib = file(50, vec![other(51)]);
    let (r, _) = run(vec![("src/main.rs", main), ("src/lib.rs", lib)], "my_lib");
    assert_eq!(
        r.unwrap().pieces,
        vec![lib_note(1), lib_note(1), item(51, 1), item(2, 1), item(51, 1)]
    );
}

#[test]
fn module_files_are_inlined_with_one_more_pass() {
    let main = file(0, vec![mod_decl("a", 1), mod_decl("b", 2)]);
    let a = file(10, vec![other(11), mod_decl("c", 12)]);
    let b = file(20, vec![other(21)]);
    let c = file(30, vec![other(31)]);
    let (r, asked) = run(
        vec![("src/main.rs", main), ("src/a.rs", a), ("src/b/mod.rs", b), ("src/c.rs", c)],
        "x",
    );
    assert_eq!(
        r.unwrap().pieces,
        vec![
            open(1, 1),
            file_note(1),
            item(11, 2),
            open(12, 2),
            file_note(2),
            item(31, 3),
            Piece::CloseMod,
            Piece::CloseMod,
            open(2, 1),
            file_note(4),
            item(21, 2),
            Piece::CloseMod,
        ]
    );
    assert_eq!(
        asked,
        vec![s("src/main.rs"), s("src/a.rs"), s("src/c.rs"), s("src/b.rs"), s("src/b/mod.rs")]
    );
}

#[test]
fn submodule_of_mod_rs_is_looked_up_in_its_directory() {
    let main = file(0, vec![mod_decl("a", 1)]);
    let a = file(10, vec![mod_decl("d", 11)]);
    let d = file(20, vec![other(21)]);
    let (r, asked) = run(vec![("src/main.rs", main), ("src/a/mod.rs", a), ("src/a/d.rs", d)], "x");
    assert_eq!(
        r.unwrap().pieces,
        vec![
            open(1, 1),
            file_note(2),
            open(11, 2),
            file_note(3),
            item(21, 3),
            Piece::CloseMod,
            Piece::CloseMod
        ]
    );
    assert_eq!(
        asked,
        vec![s("src/main.rs"), s("src/a.rs"), s("src/a/mod.rs"), s("src/a/d.rs")]
    );
}

#[test]
fn expand_mods_leaves_inline_content_to_its_caller() {
    let name = s("x");
    let base = s("src");
    let expander = Expander { base_path: &base, crate_name: &name };
    let empty = Sources::new();
    let mut stack = vec![s("src/main.rs")];
    let content = Some(vec![mod_decl("b", 2)]);
    assert_eq!(expander.expand_mods(&empty, &mut stack, &s("x"), &content), Ok(None));
    assert_eq!(stack, vec![s("src/main.rs")]);
    let missing = None;
    assert_eq!(
        expander.expand_mods(&empty, &mut stack, &s("x"), &missing),
        Err(Halt::NeedFile(s("src/x.rs")))
    );
    let module = mod_inline("x", 1, vec![mod_decl("b", 2)]);
    assert_eq!(
        expander.visit_item_mod_mut(&empty, &mut stack, &module),
        Err(Halt::NeedFile(s("src/b.rs")))
    );
}

#[test]
fn inline_module_declares_files_in_the_same_directory() {
    let main = file(0, vec![mod_inline("outer", 1, vec![mod_decl("inner", 2)])]);
    let inner = file(10, vec![other(11)]);
    let (r, _) = run(vec![("src/main.rs", main), ("src/inner.rs", inner)], "x");
    assert_eq!(
        r.unwrap().pieces,
        vec![open(1, 1), open(2, 1), file_note(1), item(11, 2), Piece::CloseMod, Piece::CloseMod]
    );
}

#[test]
fn module_not_found() {
    let main = file(0, vec![other(1), mod_decl("missing", 2)]);
    let (r, asked) = run(vec![("src/main.rs", main)], "x");
    assert_eq!(
        r.err(),
        Some(Halt::Failed(BundleError::ModNotFound { name: s("missing"), base: s("src") }))
    );
    assert_eq!(asked, vec![s("src/main.rs"), s("src/missing.rs"), s("src/missing/mod.rs")]);
}

#[test]
fn module_file_unparsable() {
    let main = file(0, vec![mod_decl("bad", 1)]);
    let (r, _) = run(vec![("src/main.rs", main), ("src/bad.rs", SourceState::Unparsable)], "x");
    assert_eq!(r.err(), Some(Halt::Failed(BundleError::Unparsable(s("src/bad.rs")))));
}

#[test]
fn module_that_includes_itself() {
    let main = file(0, vec![mod_decl("a", 1)]);
    let a = file(10, vec![mod_decl("a", 11)]);
    let (r, _) = run(vec![("src/main.rs", main), ("src/a.rs", a)], "x");
    assert_eq!(r.err(), Some(Halt::Failed(BundleError::CyclicModule(s("src/a.rs")))));
}

#[test]
fn main_declaring_itself_as_a_module() {
    let main = file(0, vec![mod_decl("main", 1)]);
    let (r, _) = run(vec![("src/main.rs", main)], "x");
    assert_eq!(r.err(), Some(Halt::Failed(BundleError::CyclicModule(s("src/main.rs")))));
}

#[test]
fn module_file_expands_its_own_extern_crate() {
    // A module file's own items are expanded too, with its directory's lib.rs.
    let main = file(0, vec![mod_decl("a", 1)]);
    let a = file(10, vec![extern_crate("my_lib", 11), use_path("my_lib", 12), other(13)]);
    let lib = file(20, vec![other(21)]);
    let (r, asked) = run(vec![("src/main.rs", main), ("src/a.rs", a), ("src/lib.rs", lib)], "my_lib");
    assert_eq!(
        r.unwrap().pieces,
        vec![open(1, 1), file_note(1), lib_note(2), item(21, 2), item(13, 2), Piece::CloseMod]
    );
    assert_eq!(asked, vec![s("src/main.rs"), s("src/a.rs"), s("src/lib.rs")]);
}

#[test]
fn reading_more_files_changes_nothing_once_done() {
    let mut sources = Sources::new();
    sources.insert(s("src/main.rs"), file(0, vec![other(1)]));
    let before = bundle_step(&sources, &s("x")).unwrap().pieces;
    sources.insert(s("src/lib.rs"), file(0, vec![other(2)]));
    sources.insert(s("src/main.rs"), file(0, vec![other(3)]));
    let after = bundle_step(&sources, &s("x")).unwrap().pieces;
    assert_eq!(before, after);
}

#[test]
fn pieces_open_and_close_in_pairs() {
    let main = file(0, vec![mod_decl("a", 1), mod_inline("b", 2, vec![mod_inline("c", 3, vec![])]), other(4)]);
    let a = file(10, vec![mod_decl("d", 11), other(12)]);
    let d = file(20, vec![]);
    let (r, _) = run(vec![("src/main.rs", main), ("src/a.rs", a), ("src/d.rs", d)], "x");
    let pieces = r.unwrap().pieces;
    let mut depth: i64 = 0;
    for piece in &pieces {
        match piece {
            Piece::OpenMod { .. } | Piece::OpenItem { .. } => depth += 1,
            Piece::CloseMod | Piece::CloseItem => depth -= 1,
            _ => {}
        }
        assert!(depth >= 0);
    }
    assert_eq!(depth, 0);
    assert_eq!(
        pieces,
        vec![
            open(1, 1),
            file_note(1),
            open(11, 2),
            file_note(2),
            Piece::CloseMod,
            item(12, 2),
            Piece::CloseMod,
            open(2, 1),
            open(3, 1),
            Piece::CloseMod,
            Piece::CloseMod,
            item(4, 1),
        ]
    );
}

#[test]
fn sources_give_back_what_was_recorded() {
    let mut sources = Sources::new();
    assert!(sources.get(&s("src/a.rs")).is_none());
    sources.insert(s("src/a.rs"), SourceState::Unreadable);
    sources.insert(s("src/b.rs"), SourceState::Unparsable);
    sources.insert(s("src/a.rs"), SourceState::Unparsable);
    assert!(matches!(sources.get(&s("src/a.rs")), Some(SourceState::Unreadable)));
    assert!(matches!(sources.get(&s("src/b.rs")), Some(SourceState::Unparsable)));
    assert!(sources.get(&s("src/c.rs")).is_none());
}

#[test]
fn modules_declared_inside_function_bodies_are_expanded() {
    // fn main() { mod m; fn inner() {} }
    let body = vec![mod_decl("m", 2), other(3)];
    let main = file(0, vec![Item::Other { syntax: 1, nested: body }]);
    let m = file(10, vec![other(11)]);
    let (r, asked) = run(vec![("src/main.rs", main), ("src/m.rs", m)], "x");
    assert_eq!(
        r.unwrap().pieces,
        vec![
            Piece::OpenItem { syntax: 1, passes: 1 },
            open(2, 1),
            file_note(1),
            item(11, 2),
            Piece::CloseMod,
            item(3, 1),
            Piece::CloseItem,
        ]
    );
    assert_eq!(asked, vec![s("src/main.rs"), s("src/m.rs")]);
}

#[test]
fn items_inside_bodies_keep_their_place_without_file_level_expansion() {
    // fn main() { extern crate my_lib; use my_lib::a; }
    let body = vec![extern_crate("my_lib", 2), use_path("my_lib", 3)];
    let main = file(0, vec![Item::Other { syntax: 1, nested: body }]);
    let (r, asked) = run(vec![("src/main.rs", main)], "my_lib");
    assert_eq!(
        r.unwrap().pieces,
        vec![Piece::OpenItem { syntax: 1, passes: 1 }, item(2, 1), item(3, 1), Piece::CloseItem]
    );
    assert_eq!(asked, vec![s("src/main.rs")]);
}

#[test]
fn library_unparsable() {
    let main = file(0, vec![extern_crate("my_lib", 1)]);
    let (r, _) = run(vec![("src/main.rs", main), ("src/lib.rs", SourceState::Unparsable)], "my_lib");
    assert_eq!(r.err(), Some(Halt::Failed(BundleError::LibUnparsable(s("src/lib.rs")))));
}
