//! Bundling: which items of which files make up the single file, in what
//! order, and how often the crate prefix is stripped from the paths in each.
use vstd::prelude::*;

use crate::sources::{
    count_outside, lemma_source_at_append, source_index, join, lemma_count_outside_push, source_at, spec_lib_location, spec_mod_dir_file,
    spec_mod_file, SourceEntry, SourceState,
};
use crate::sources::{
    join_location, lib_location, main_location, mod_dir_file, mod_file, spec_main_location,
    spec_src_dir, src_dir, Sources,
};
use crate::syntax::{
    crate_prefix_len, is_extern_crate, is_use_path, spec_is_extern_crate, spec_is_use_path,
    stripped, Item, SourceFile,
};

verus! {

/// One step of the bundled file, in reading order.
///
/// `passes` says how many times the crate prefix is stripped from the paths
/// in the item's syntax: once for each file expansion that visits it (the
/// binary's root visits everything, and each module file read from disk
/// visits its own items once more).
#[derive(Debug, Clone, Copy, PartialEq, Eq, Structural)]
pub enum Piece {
    /// An item, as it stands in its file.
    Item { syntax: u64, passes: usize },
    /// The start of a module: its item without the content; the pieces up to
    /// the matching `CloseMod` are its content.
    OpenMod { syntax: u64, passes: usize },
    /// The end of the module opened last.
    CloseMod,
    /// The start of an item that declares items inside it: the pieces up to
    /// the matching `CloseItem` are those items, in the order of the item's
    /// `nested`, and take their places in it.
    OpenItem { syntax: u64, passes: usize },
    /// The end of the item opened last.
    CloseItem,
    /// The library's root, at this place in the sources, was read in for an
    /// `extern crate` of the crate.
    LibInlined { entry: usize },
    /// The module opened last takes its content from the file at this place
    /// in the sources.
    ModFileInlined { entry: usize },
}

/// The bundled file: the inner attributes of the binary's root (stripped
/// once) and the pieces of its content.
pub struct Bundle {
    pub attrs: u64,
    pub pieces: Vec<Piece>,
}

/// Why a package cannot be bundled.
#[derive(Debug, PartialEq, Eq)]
pub enum BundleError {
    /// `src/main.rs` could not be read.
    MainUnreadable,
    /// `src/main.rs` is not a Rust source file.
    MainUnparsable,
    /// The library's root, needed for `extern crate`, could not be read.
    LibUnreadable(String),
    /// The library's root, needed for `extern crate`, is not a Rust source
    /// file.
    LibUnparsable(String),
    /// Neither file for `mod name;` declared in directory `base` could be read.
    ModNotFound { name: String, base: String },
    /// The module file at this location is not a Rust source file.
    Unparsable(String),
    /// The module file at this location is among the files that include it.
    CyclicModule(String),
}

/// Why bundling stopped: a file that has not been read yet is needed, or the
/// package cannot be bundled.
#[derive(Debug, PartialEq, Eq)]
pub enum Halt {
    NeedFile(String),
    Failed(BundleError),
}

pub enum BundleErrorView {
    MainUnreadable,
    MainUnparsable,
    LibUnreadable(Seq<char>),
    LibUnparsable(Seq<char>),
    ModNotFound { name: Seq<char>, base: Seq<char> },
    Unparsable(Seq<char>),
    CyclicModule(Seq<char>),
}

pub enum HaltView {
    NeedFile(Seq<char>),
    Failed(BundleErrorView),
}

impl View for BundleError {
    type V = BundleErrorView;

    open spec fn view(&self) -> BundleErrorView {
        match self {
            BundleError::MainUnreadable => BundleErrorView::MainUnreadable,
            BundleError::MainUnparsable => BundleErrorView::MainUnparsable,
            BundleError::LibUnreadable(l) => BundleErrorView::LibUnreadable(l@),
            BundleError::LibUnparsable(l) => BundleErrorView::LibUnparsable(l@),
            BundleError::ModNotFound { name, base } => BundleErrorView::ModNotFound {
                name: name@,
                base: base@,
            },
            BundleError::Unparsable(l) => BundleErrorView::Unparsable(l@),
            BundleError::CyclicModule(l) => BundleErrorView::CyclicModule(l@),
        }
    }
}

impl View for Halt {
    type V = HaltView;

    open spec fn view(&self) -> HaltView {
        match self {
            Halt::NeedFile(l) => HaltView::NeedFile(l@),
            Halt::Failed(e) => HaltView::Failed(e@),
        }
    }
}

/// The items that a vector of references points to.
pub open spec fn refs_view(items: Seq<&Item>) -> Seq<Item> {
    Seq::new(items.len(), |i: int| *items[i])
}

/// The locations of a stack of files.
pub open spec fn stack_view(stack: Seq<String>) -> Seq<Seq<char>> {
    Seq::new(stack.len(), |i: int| stack[i]@)
}

/// Some item is `extern crate name`.
pub open spec fn has_extern_crate(items: Seq<Item>, name: Seq<char>) -> bool {
    exists|i: int| 0 <= i < items.len() && spec_is_extern_crate(items[i], name)
}

/// How many items are `extern crate name`.
pub open spec fn count_extern_crate(items: Seq<Item>, name: Seq<char>) -> nat
    decreases items.len(),
{
    if items.len() == 0 {
        0
    } else {
        count_extern_crate(items.drop_last(), name) + if spec_is_extern_crate(items.last(), name) {
            1nat
        } else {
            0nat
        }
    }
}

/// One note for each library read in, naming the library's root in `base`.
pub open spec fn lib_notes(entries: Seq<SourceEntry>, base: Seq<char>, count: nat) -> Seq<Piece> {
    Seq::new(
        count,
        |i: int|
            Piece::LibInlined {
                entry: source_index(entries, spec_lib_location(base)) as usize,
            },
    )
}

/// `items` with each `extern crate name` replaced by the library's items.
pub open spec fn splice_lib(items: Seq<Item>, name: Seq<char>, lib: Seq<Item>) -> Seq<Item>
    decreases items.len(),
{
    if items.len() == 0 {
        Seq::empty()
    } else {
        splice_lib(items.drop_last(), name, lib) + if spec_is_extern_crate(items.last(), name) {
            lib
        } else {
            seq![items.last()]
        }
    }
}

/// `items` without the `use name::...` items.
pub open spec fn remove_uses(items: Seq<Item>, name: Seq<char>) -> Seq<Item>
    decreases items.len(),
{
    if items.len() == 0 {
        Seq::empty()
    } else if spec_is_use_path(items.last(), name) {
        remove_uses(items.drop_last(), name)
    } else {
        remove_uses(items.drop_last(), name).push(items.last())
    }
}

/// The items of the library's root in directory `base`, or why they are not
/// to be had.
pub open spec fn lib_items(entries: Seq<SourceEntry>, base: Seq<char>) -> Result<Seq<Item>, HaltView> {
    let lib = spec_lib_location(base);
    match source_at(entries, lib) {
        None => Err(HaltView::NeedFile(lib)),
        Some(SourceState::Unreadable) => Err(HaltView::Failed(BundleErrorView::LibUnreadable(lib))),
        Some(SourceState::Unparsable) => Err(HaltView::Failed(BundleErrorView::LibUnparsable(lib))),
        Some(SourceState::Parsed(f)) => Ok(f.items@),
    }
}

/// Replacing each `extern crate name` by the items of the library's root;
/// the library is read only when some item is such an `extern crate`.
pub open spec fn spec_expand_extern_crate(
    entries: Seq<SourceEntry>,
    name: Seq<char>,
    base: Seq<char>,
    items: Seq<Item>,
) -> Result<Seq<Item>, HaltView> {
    if !has_extern_crate(items, name) {
        Ok(items)
    } else {
        match lib_items(entries, base) {
            Ok(lib) => Ok(splice_lib(items, name, lib)),
            Err(h) => Err(h),
        }
    }
}

/// The item-level expansion of a file: the library is spliced in, then the
/// `use name::...` items are removed.
pub open spec fn spec_expand_items(
    entries: Seq<SourceEntry>,
    name: Seq<char>,
    base: Seq<char>,
    items: Seq<Item>,
) -> Result<Seq<Item>, HaltView> {
    match spec_expand_extern_crate(entries, name, base, items) {
        Ok(spliced) => Ok(remove_uses(spliced, name)),
        Err(h) => Err(h),
    }
}

/// The pieces of a file's items: the item-level expansion, then a note for
/// each library read in, then each item in turn.  `stack` holds the files that are being expanded, the innermost
/// last; its length is the number of passes over the file's items.
pub open spec fn spec_visit_file(
    entries: Seq<SourceEntry>,
    name: Seq<char>,
    stack: Seq<Seq<char>>,
    base: Seq<char>,
    items: Seq<Item>,
) -> Result<Seq<Piece>, HaltView>
    decreases count_outside(entries, stack), 1nat, items,
{
    match spec_expand_items(entries, name, base, items) {
        Ok(expanded) => match spec_visit_items(entries, name, stack, base, expanded) {
            Ok(pieces) => Ok(lib_notes(entries, base, count_extern_crate(items, name)) + pieces),
            Err(h) => Err(h),
        },
        Err(h) => Err(h),
    }
}

/// The pieces of a list of items, in order; the first item that cannot be
/// bundled decides.
pub open spec fn spec_visit_items(
    entries: Seq<SourceEntry>,
    name: Seq<char>,
    stack: Seq<Seq<char>>,
    base: Seq<char>,
    items: Seq<Item>,
) -> Result<Seq<Piece>, HaltView>
    decreases count_outside(entries, stack), 0nat, items,
{
    if items.len() == 0 {
        Ok(Seq::empty())
    } else {
        match spec_visit_items(entries, name, stack, base, items.drop_last()) {
            Ok(front) => match spec_visit_item(entries, name, stack, base, items.last()) {
                Ok(back) => Ok(front + back),
                Err(h) => Err(h),
            },
            Err(h) => Err(h),
        }
    }
}

/// The pieces of one item: a module opens, holds its content (its own
/// items, or what `spec_expand_mods` reads in) and closes;
/// an item with items declared inside it opens, holds their pieces and
/// closes; any other item stands as it is.
pub open spec fn spec_visit_item(
    entries: Seq<SourceEntry>,
    name: Seq<char>,
    stack: Seq<Seq<char>>,
    base: Seq<char>,
    item: Item,
) -> Result<Seq<Piece>, HaltView>
    decreases count_outside(entries, stack), 0nat, item,
{
    let passes = stack.len() as usize;
    match item {
        Item::Mod { name: mod_name, syntax, content } => {
            let inner = match content {
                Some(items) => spec_visit_items(entries, name, stack, base, items@),
                None => match spec_expand_mods(entries, name, stack, base, mod_name@, content) {
                    Ok(Some(p)) => Ok(p),
                    Ok(None) => Ok(Seq::empty()),
                    Err(h) => Err(h),
                },
            };
            match inner {
                Ok(inner) => Ok(
                    seq![Piece::OpenMod { syntax, passes }] + inner + seq![Piece::CloseMod],
                ),
                Err(h) => Err(h),
            }
        },
        Item::ExternCrate { syntax, .. } => Ok(seq![Piece::Item { syntax, passes }]),
        Item::Use { syntax, .. } => Ok(seq![Piece::Item { syntax, passes }]),
        Item::Other { syntax, nested } => {
            if nested.len() == 0 {
                Ok(seq![Piece::Item { syntax, passes }])
            } else {
                match spec_visit_items(entries, name, stack, base, nested@) {
                    Ok(inner) => Ok(
                        seq![Piece::OpenItem { syntax, passes }] + inner + seq![Piece::CloseItem],
                    ),
                    Err(h) => Err(h),
                }
            }
        },
    }
}

/// What `mod mod_name` declared in directory `base` reads in: nothing for a
/// module that has its own items (they stay where they are, for the caller
/// to visit), else the expansion of the first of `base/mod_name.rs` and
/// `base/mod_name/mod.rs` that can be read, after a note naming that file.
pub open spec fn spec_expand_mods(
    entries: Seq<SourceEntry>,
    name: Seq<char>,
    stack: Seq<Seq<char>>,
    base: Seq<char>,
    mod_name: Seq<char>,
    content: Option<Vec<Item>>,
) -> Result<Option<Seq<Piece>>, HaltView>
    decreases count_outside(entries, stack), 0nat, content,
{
    match content {
        Some(_) => Ok(None),
        None => {
            let first = spec_mod_file(base, mod_name);
            match source_at(entries, first) {
                None => Err(HaltView::NeedFile(first)),
                Some(SourceState::Unparsable) => Err(
                    HaltView::Failed(BundleErrorView::Unparsable(first)),
                ),
                Some(SourceState::Parsed(f)) => {
                    if stack.contains(first) {
                        Err(HaltView::Failed(BundleErrorView::CyclicModule(first)))
                    } else {
                        proof {
                            lemma_count_outside_push(entries, stack, first);
                        }
                        match spec_visit_file(entries, name, stack.push(first), base, f.items@) {
                            Ok(p) => Ok(
                                Some(
                                    seq![
                                        Piece::ModFileInlined {
                                            entry: source_index(entries, first) as usize,
                                        },
                                    ] + p,
                                ),
                            ),
                            Err(h) => Err(h),
                        }
                    }
                },
                Some(SourceState::Unreadable) => {
                    let second = spec_mod_dir_file(base, mod_name);
                    match source_at(entries, second) {
                        None => Err(HaltView::NeedFile(second)),
                        Some(SourceState::Unreadable) => Err(
                            HaltView::Failed(
                                BundleErrorView::ModNotFound { name: mod_name, base },
                            ),
                        ),
                        Some(SourceState::Unparsable) => Err(
                            HaltView::Failed(BundleErrorView::Unparsable(second)),
                        ),
                        Some(SourceState::Parsed(f)) => {
                            if stack.contains(second) {
                                Err(HaltView::Failed(BundleErrorView::CyclicModule(second)))
                            } else {
                                proof {
                                    lemma_count_outside_push(entries, stack, second);
                                }
                                match spec_visit_file(
                                    entries,
                                    name,
                                    stack.push(second),
                                    join(base, mod_name),
                                    f.items@,
                                ) {
                                    Ok(p) => Ok(
                                        Some(
                                            seq![
                                                Piece::ModFileInlined {
                                                    entry: source_index(entries, second) as usize,
                                                },
                                            ] + p,
                                        ),
                                    ),
                                    Err(h) => Err(h),
                                }
                            }
                        },
                    }
                },
            }
        },
    }
}


/// Expands the files of one directory for one crate name.
pub struct Expander<'a> {
    pub base_path: &'a String,
    pub crate_name: &'a String,
}

/// References to the items of a vector, in order.
fn item_refs<'s>(items: &'s Vec<Item>) -> (r: Vec<&'s Item>)
    ensures
        refs_view(r@) == items@,
{
    let mut r: Vec<&'s Item> = Vec::new();
    let mut i: usize = 0;
    while i < items.len()
        invariant
            i <= items.len(),
            refs_view(r@) == items@.take(i as int),
        decreases items.len() - i,
    {
        let ghost before = refs_view(r@);
        let item = &items[i];
        assert(*item == items@[i as int]);
        r.push(item);
        assert(refs_view(r@) =~= before.push(items@[i as int]));
        assert(items@.take(i + 1) =~= items@.take(i as int).push(items@[i as int]));
        i = i + 1;
    }
    assert(items@.take(items.len() as int) =~= items@);
    r
}

/// The pieces of `a`, then those of `b`.
fn concat_pieces(a: Vec<Piece>, b: Vec<Piece>) -> (r: Vec<Piece>)
    ensures
        r@ == a@ + b@,
{
    let mut a = a;
    let mut b = b;
    a.append(&mut b);
    a
}

/// `open`, the pieces of `inner`, then `close`.
fn enclose(open: Piece, inner: Vec<Piece>, close: Piece) -> (r: Vec<Piece>)
    ensures
        r@ == seq![open] + inner@ + seq![close],
{
    let mut out: Vec<Piece> = Vec::new();
    out.push(open);
    let mut out = concat_pieces(out, inner);
    out.push(close);
    out
}

/// Some item is `extern crate name` exactly when there is at least one.
proof fn lemma_count_extern_crate(items: Seq<Item>, name: Seq<char>)
    ensures
        has_extern_crate(items, name) <==> count_extern_crate(items, name) > 0,
    decreases items.len(),
{
    if items.len() > 0 {
        let front = items.drop_last();
        lemma_count_extern_crate(front, name);
        if has_extern_crate(front, name) {
            let i = choose|i: int| 0 <= i < front.len() && spec_is_extern_crate(front[i], name);
            assert(items[i] == front[i]);
        }
        if has_extern_crate(items, name) && !spec_is_extern_crate(items.last(), name) {
            let i = choose|i: int| 0 <= i < items.len() && spec_is_extern_crate(items[i], name);
            assert(i != items.len() - 1);
            assert(front[i] == items[i]);
        }
        if spec_is_extern_crate(items.last(), name) {
            assert(spec_is_extern_crate(items[items.len() - 1], name));
        }
    }
}

/// Tells whether `location` is on the stack of files being expanded.
fn stack_contains(stack: &Vec<String>, location: &String) -> (r: bool)
    ensures
        r == stack_view(stack@).contains(location@),
{
    let mut i: usize = 0;
    while i < stack.len()
        invariant
            i <= stack.len(),
            forall|j: int| 0 <= j < i ==> stack@[j]@ != location@,
        decreases stack.len() - i,
    {
        if stack[i] == *location {
            assert(stack_view(stack@)[i as int] == location@);
            return true;
        }
        i = i + 1;
    }
    false
}

/// Once an item of a list cannot be bundled, the list cannot be bundled,
/// for the same reason.
pub proof fn lemma_visit_items_err(
    entries: Seq<SourceEntry>,
    name: Seq<char>,
    stack: Seq<Seq<char>>,
    base: Seq<char>,
    items: Seq<Item>,
    k: int,
)
    requires
        0 <= k <= items.len(),
        spec_visit_items(entries, name, stack, base, items.take(k)) is Err,
    ensures
        spec_visit_items(entries, name, stack, base, items) == spec_visit_items(
            entries,
            name,
            stack,
            base,
            items.take(k),
        ),
    decreases items.len(),
{
    if k == items.len() {
        assert(items.take(k) =~= items);
    } else {
        assert(items.drop_last().take(k) =~= items.take(k));
        lemma_visit_items_err(entries, name, stack, base, items.drop_last(), k);
    }
}

impl<'a> Expander<'a> {
    /// Tells whether some item is `extern crate` of this crate.
    fn any_extern_crate(&self, items: &Vec<&Item>) -> (r: bool)
        ensures
            r == has_extern_crate(refs_view(items@), self.crate_name@),
    {
        let mut i: usize = 0;
        while i < items.len()
            invariant
                i <= items.len(),
                forall|j: int|
                    0 <= j < i ==> !spec_is_extern_crate(
                        #[trigger] refs_view(items@)[j],
                        self.crate_name@,
                    ),
            decreases items.len() - i,
        {
            if is_extern_crate(items[i], self.crate_name.as_str()) {
                assert(refs_view(items@)[i as int] == *items@[i as int]);
                return true;
            }
            i = i + 1;
        }
        false
    }

    /// The items of the library's root in this directory.
    fn lib_items<'s>(&self, sources: &'s Sources) -> (r: Result<&'s SourceFile, Halt>)
        ensures
            match r {
                Ok(f) => lib_items(sources@, self.base_path@) == Ok::<Seq<Item>, HaltView>(
                    f.items@,
                ),
                Err(h) => lib_items(sources@, self.base_path@) == Err::<Seq<Item>, HaltView>(h@),
            },
    {
        let lib = lib_location(self.base_path);
        match sources.get(&lib) {
            None => Err(Halt::NeedFile(lib)),
            Some(SourceState::Unreadable) => Err(Halt::Failed(BundleError::LibUnreadable(lib))),
            Some(SourceState::Unparsable) => Err(Halt::Failed(BundleError::LibUnparsable(lib))),
            Some(SourceState::Parsed(f)) => Ok(f),
        }
    }

    /// Replaces each `extern crate` of this crate by the items of the
    /// library's root in this directory.
    pub fn expand_extern_crate<'s>(&self, sources: &'s Sources, items: &mut Vec<&'s Item>) -> (r:
        Result<(), Halt>)
        ensures
            match r {
                Ok(()) => spec_expand_extern_crate(
                    sources@,
                    self.crate_name@,
                    self.base_path@,
                    refs_view(old(items)@),
                ) == Ok::<Seq<Item>, HaltView>(refs_view(final(items)@)),
                Err(h) => spec_expand_extern_crate(
                    sources@,
                    self.crate_name@,
                    self.base_path@,
                    refs_view(old(items)@),
                ) == Err::<Seq<Item>, HaltView>(h@),
            },
    {
        if !self.any_extern_crate(items) {
            return Ok(());
        }
        let lib = match self.lib_items(sources) {
            Ok(f) => f,
            Err(h) => return Err(h),
        };
        let ghost old_items = refs_view(items@);
        let mut new_items: Vec<&'s Item> = Vec::new();
        let mut i: usize = 0;
        while i < items.len()
            invariant
                i <= items.len(),
                old_items == refs_view(items@),
                refs_view(new_items@) == splice_lib(
                    old_items.take(i as int),
                    self.crate_name@,
                    lib.items@,
                ),
            decreases items.len() - i,
        {
            let item = items[i];
            let ghost before = refs_view(new_items@);
            if is_extern_crate(item, self.crate_name.as_str()) {
                let mut j: usize = 0;
                while j < lib.items.len()
                    invariant
                        j <= lib.items.len(),
                        refs_view(new_items@) == before + lib.items@.take(j as int),
                    decreases lib.items.len() - j,
                {
                    let ghost mid = refs_view(new_items@);
                    let li = &lib.items[j];
                    assert(*li == lib.items@[j as int]);
                    new_items.push(li);
                    assert(refs_view(new_items@) =~= mid.push(lib.items@[j as int]));
                    assert(lib.items@.take(j + 1) =~= lib.items@.take(j as int).push(
                        lib.items@[j as int],
                    ));
                    j = j + 1;
                }
                assert(lib.items@.take(lib.items.len() as int) =~= lib.items@);
            } else {
                new_items.push(item);
                assert(refs_view(new_items@) =~= before + seq![*item]);
            }
            assert(old_items.take(i + 1).drop_last() =~= old_items.take(i as int));
            assert(old_items.take(i + 1).last() == *item);
            i = i + 1;
        }
        assert(old_items.take(items.len() as int) =~= old_items);
        *items = new_items;
        Ok(())
    }

    /// Removes each `use` whose path starts with this crate's name.
    pub fn expand_use_path<'s>(&self, items: &mut Vec<&'s Item>)
        ensures
            refs_view(final(items)@) == remove_uses(refs_view(old(items)@), self.crate_name@),
    {
        let ghost old_items = refs_view(items@);
        let mut new_items: Vec<&'s Item> = Vec::new();
        let mut i: usize = 0;
        while i < items.len()
            invariant
                i <= items.len(),
                old_items == refs_view(items@),
                refs_view(new_items@) == remove_uses(old_items.take(i as int), self.crate_name@),
            decreases items.len() - i,
        {
            let item = items[i];
            let ghost before = refs_view(new_items@);
            if !is_use_path(item, self.crate_name.as_str()) {
                new_items.push(item);
                assert(refs_view(new_items@) =~= before.push(*item));
            }
            assert(old_items.take(i + 1).drop_last() =~= old_items.take(i as int));
            assert(old_items.take(i + 1).last() == *item);
            i = i + 1;
        }
        assert(old_items.take(items.len() as int) =~= old_items);
        *items = new_items;
    }

    /// The item-level expansion of a file: the library's items replace each
    /// `extern crate` of this crate, then the `use` items of this crate go.
    pub fn expand_items<'s>(&self, sources: &'s Sources, items: &mut Vec<&'s Item>) -> (r: Result<
        (),
        Halt,
    >)
        ensures
            match r {
                Ok(()) => spec_expand_items(
                    sources@,
                    self.crate_name@,
                    self.base_path@,
                    refs_view(old(items)@),
                ) == Ok::<Seq<Item>, HaltView>(refs_view(final(items)@)),
                Err(h) => spec_expand_items(
                    sources@,
                    self.crate_name@,
                    self.base_path@,
                    refs_view(old(items)@),
                ) == Err::<Seq<Item>, HaltView>(h@),
            },
    {
        self.expand_extern_crate(sources, items)?;
        self.expand_use_path(items);
        Ok(())
    }

    /// The pieces of a file's items: the item-level expansion of the file,
    /// then each item in turn.  `stack` holds the files being expanded, the
    /// file itself last.
    pub fn visit_file_mut<'s>(
        &self,
        sources: &'s Sources,
        stack: &mut Vec<String>,
        file: &'s SourceFile,
    ) -> (r: Result<Vec<Piece>, Halt>)
        ensures
            final(stack)@ == old(stack)@,
            match r {
                Ok(p) => spec_visit_file(
                    sources@,
                    self.crate_name@,
                    stack_view(old(stack)@),
                    self.base_path@,
                    file.items@,
                ) == Ok::<Seq<Piece>, HaltView>(p@),
                Err(h) => spec_visit_file(
                    sources@,
                    self.crate_name@,
                    stack_view(old(stack)@),
                    self.base_path@,
                    file.items@,
                ) == Err::<Seq<Piece>, HaltView>(h@),
            },
        decreases count_outside(sources@, stack_view(old(stack)@)), 1nat, file.items@,
    {
        let count = self.count_extern_crate(&file.items);
        let mut items = item_refs(&file.items);
        self.expand_items(sources, &mut items)?;
        let pieces = self.visit_items(sources, stack, &items)?;
        let mut notes: Vec<Piece> = Vec::new();
        if count > 0 {
            proof {
                lemma_count_extern_crate(file.items@, self.crate_name@);
            }
            let lib = lib_location(self.base_path);
            let entry = match sources.position(&lib) {
                Some(i) => i,
                None => {
                    assert(false);
                    0
                },
            };
            let mut i: usize = 0;
            while i < count
                invariant
                    i <= count,
                    notes@ =~= Seq::new(
                        i as nat,
                        |j: int| Piece::LibInlined { entry },
                    ),
                decreases count - i,
            {
                notes.push(Piece::LibInlined { entry });
                i = i + 1;
            }
        }
        assert(notes@ =~= lib_notes(sources@, self.base_path@, count as nat));
        Ok(concat_pieces(notes, pieces))
    }

    /// How many items are `extern crate` of this crate.
    fn count_extern_crate(&self, items: &Vec<Item>) -> (r: usize)
        ensures
            r == count_extern_crate(items@, self.crate_name@),
    {
        let mut count: usize = 0;
        let mut i: usize = 0;
        while i < items.len()
            invariant
                i <= items.len(),
                count <= i,
                count == count_extern_crate(items@.take(i as int), self.crate_name@),
            decreases items.len() - i,
        {
            assert(items@.take(i + 1).drop_last() =~= items@.take(i as int));
            assert(items@.take(i + 1).last() == items@[i as int]);
            if is_extern_crate(&items[i], self.crate_name.as_str()) {
                count = count + 1;
            }
            i = i + 1;
        }
        assert(items@.take(items.len() as int) =~= items@);
        count
    }

    /// The pieces of the items, in order.
    fn visit_items<'s>(
        &self,
        sources: &'s Sources,
        stack: &mut Vec<String>,
        items: &Vec<&'s Item>,
    ) -> (r: Result<Vec<Piece>, Halt>)
        ensures
            final(stack)@ == old(stack)@,
            match r {
                Ok(p) => spec_visit_items(
                    sources@,
                    self.crate_name@,
                    stack_view(old(stack)@),
                    self.base_path@,
                    refs_view(items@),
                ) == Ok::<Seq<Piece>, HaltView>(p@),
                Err(h) => spec_visit_items(
                    sources@,
                    self.crate_name@,
                    stack_view(old(stack)@),
                    self.base_path@,
                    refs_view(items@),
                ) == Err::<Seq<Piece>, HaltView>(h@),
            },
        decreases count_outside(sources@, stack_view(old(stack)@)), 0nat, refs_view(items@),
    {
        let ghost all = refs_view(items@);
        let ghost st = stack_view(stack@);
        let ghost stack0 = stack@;
        let mut out: Vec<Piece> = Vec::new();
        let mut i: usize = 0;
        assert(all.take(0) =~= Seq::<Item>::empty());
        while i < items.len()
            invariant
                i <= items.len(),
                all == refs_view(items@),
                stack@ == stack0,
                stack0 == old(stack)@,
                st == stack_view(stack0),
                spec_visit_items(sources@, self.crate_name@, st, self.base_path@, all.take(i as int))
                    == Ok::<Seq<Piece>, HaltView>(out@),
            decreases items.len() - i,
        {
            let item = items[i];
            assert(all[i as int] == *item);
            assert(all.take(i + 1).drop_last() =~= all.take(i as int));
            assert(all.take(i + 1).last() == *item);
            let passes = stack.len();
            let mut p = match item {
                Item::Mod { .. } => {
                    assert(decreases_to!(all => all[i as int]));
                    assert(stack_view(stack@) == stack_view(old(stack)@));
                    match self.visit_item_mod_mut(sources, stack, item) {
                        Ok(p) => p,
                        Err(h) => {
                            proof {
                                lemma_visit_items_err(
                                    sources@,
                                    self.crate_name@,
                                    st,
                                    self.base_path@,
                                    all,
                                    i + 1,
                                );
                                assert(all.take(i + 1) =~= all.take((i + 1) as int));
                            }
                            return Err(h);
                        },
                    }
                },
                Item::ExternCrate { syntax, .. } => {
                    let mut v = Vec::new();
                    v.push(Piece::Item { syntax: *syntax, passes });
                    v
                },
                Item::Use { syntax, .. } => {
                    let mut v = Vec::new();
                    v.push(Piece::Item { syntax: *syntax, passes });
                    v
                },
                Item::Other { .. } => {
                    assert(decreases_to!(all => all[i as int]));
                    assert(stack_view(stack@) == stack_view(old(stack)@));
                    match self.visit_item_other(sources, stack, item) {
                        Ok(p) => p,
                        Err(h) => {
                            proof {
                                lemma_visit_items_err(
                                    sources@,
                                    self.crate_name@,
                                    st,
                                    self.base_path@,
                                    all,
                                    i + 1,
                                );
                                assert(all.take(i + 1) =~= all.take((i + 1) as int));
                            }
                            return Err(h);
                        },
                    }
                },
            };
            assert(spec_visit_item(sources@, self.crate_name@, st, self.base_path@, *item)
                == Ok::<Seq<Piece>, HaltView>(p@));
            let ghost front = out@;
            out.append(&mut p);
            assert(out@ =~= front + spec_visit_item(
                sources@,
                self.crate_name@,
                st,
                self.base_path@,
                *item,
            )->Ok_0);
            i = i + 1;
        }
        assert(all.take(items.len() as int) =~= all);
        Ok(out)
    }

    /// The pieces of a module item: the module opens, its content is
    /// expanded, and it closes.
    pub fn visit_item_mod_mut<'s>(
        &self,
        sources: &'s Sources,
        stack: &mut Vec<String>,
        item: &'s Item,
    ) -> (r: Result<Vec<Piece>, Halt>)
        requires
            item is Mod,
        ensures
            final(stack)@ == old(stack)@,
            match r {
                Ok(p) => spec_visit_item(
                    sources@,
                    self.crate_name@,
                    stack_view(old(stack)@),
                    self.base_path@,
                    *item,
                ) == Ok::<Seq<Piece>, HaltView>(p@),
                Err(h) => spec_visit_item(
                    sources@,
                    self.crate_name@,
                    stack_view(old(stack)@),
                    self.base_path@,
                    *item,
                ) == Err::<Seq<Piece>, HaltView>(h@),
            },
        decreases count_outside(sources@, stack_view(old(stack)@)), 0nat, *item,
    {
        match item {
            Item::Mod { name, syntax, content } => {
                let passes = stack.len();
                let read_in = self.expand_mods(sources, stack, name, content)?;
                let inner = match content {
                    Some(items) => {
                        let refs = item_refs(items);
                        assert(decreases_to!(*item => items@));
                        self.visit_items(sources, stack, &refs)?
                    },
                    None => match read_in {
                        Some(p) => p,
                        None => {
                            assert(false);
                            Vec::new()
                        },
                    },
                };
                Ok(enclose(Piece::OpenMod { syntax: *syntax, passes }, inner, Piece::CloseMod))
            },
            _ => {
                assert(false);
                Ok(Vec::new())
            },
        }
    }

    /// The pieces of an item that is not a module: the item itself, or, when
    /// items are declared inside it, the item enclosing their pieces.
    pub fn visit_item_other<'s>(
        &self,
        sources: &'s Sources,
        stack: &mut Vec<String>,
        item: &'s Item,
    ) -> (r: Result<Vec<Piece>, Halt>)
        requires
            item is Other,
        ensures
            final(stack)@ == old(stack)@,
            match r {
                Ok(p) => spec_visit_item(
                    sources@,
                    self.crate_name@,
                    stack_view(old(stack)@),
                    self.base_path@,
                    *item,
                ) == Ok::<Seq<Piece>, HaltView>(p@),
                Err(h) => spec_visit_item(
                    sources@,
                    self.crate_name@,
                    stack_view(old(stack)@),
                    self.base_path@,
                    *item,
                ) == Err::<Seq<Piece>, HaltView>(h@),
            },
        decreases count_outside(sources@, stack_view(old(stack)@)), 0nat, *item,
    {
        match item {
            Item::Other { syntax, nested } => {
                let passes = stack.len();
                if nested.len() == 0 {
                    let mut v = Vec::new();
                    v.push(Piece::Item { syntax: *syntax, passes });
                    Ok(v)
                } else {
                    let refs = item_refs(nested);
                    assert(decreases_to!(*item => nested@));
                    let inner = self.visit_items(sources, stack, &refs)?;
                    Ok(enclose(Piece::OpenItem { syntax: *syntax, passes }, inner, Piece::CloseItem))
                }
            },
            _ => {
                assert(false);
                Ok(Vec::new())
            },
        }
    }

    /// What module `name` reads in: nothing when it has its own items (they
    /// stay for the caller to visit, and no file is asked for), else the
    /// expansion of the first of `name.rs` and `name/mod.rs` in this
    /// directory that can be read, after a note naming that file.
    pub fn expand_mods<'s>(
        &self,
        sources: &'s Sources,
        stack: &mut Vec<String>,
        name: &String,
        content: &'s Option<Vec<Item>>,
    ) -> (r: Result<Option<Vec<Piece>>, Halt>)
        ensures
            final(stack)@ == old(stack)@,
            match r {
                Ok(Some(p)) => spec_expand_mods(
                    sources@,
                    self.crate_name@,
                    stack_view(old(stack)@),
                    self.base_path@,
                    name@,
                    *content,
                ) == Ok::<Option<Seq<Piece>>, HaltView>(Some(p@)),
                Ok(None) => spec_expand_mods(
                    sources@,
                    self.crate_name@,
                    stack_view(old(stack)@),
                    self.base_path@,
                    name@,
                    *content,
                ) == Ok::<Option<Seq<Piece>>, HaltView>(None),
                Err(h) => spec_expand_mods(
                    sources@,
                    self.crate_name@,
                    stack_view(old(stack)@),
                    self.base_path@,
                    name@,
                    *content,
                ) == Err::<Option<Seq<Piece>>, HaltView>(h@),
            },
        decreases count_outside(sources@, stack_view(old(stack)@)), 0nat, *content,
    {
        let ghost st = stack_view(stack@);
        match content {
            Some(_) => Ok(None),
            None => {
                let first = mod_file(self.base_path, name);
                match sources.get(&first) {
                    None => Err(Halt::NeedFile(first)),
                    Some(SourceState::Unparsable) => Err(
                        Halt::Failed(BundleError::Unparsable(first)),
                    ),
                    Some(SourceState::Parsed(f)) => {
                        if stack_contains(stack, &first) {
                            Err(Halt::Failed(BundleError::CyclicModule(first)))
                        } else {
                            proof {
                                lemma_count_outside_push(sources@, st, first@);
                            }
                            Ok(Some(self.expand_mod_file(sources, stack, first, self.base_path, f)?))
                        }
                    },
                    Some(SourceState::Unreadable) => {
                        let second = mod_dir_file(self.base_path, name);
                        match sources.get(&second) {
                            None => Err(Halt::NeedFile(second)),
                            Some(SourceState::Unreadable) => Err(
                                Halt::Failed(
                                    BundleError::ModNotFound {
                                        name: name.clone(),
                                        base: self.base_path.clone(),
                                    },
                                ),
                            ),
                            Some(SourceState::Unparsable) => Err(
                                Halt::Failed(BundleError::Unparsable(second)),
                            ),
                            Some(SourceState::Parsed(f)) => {
                                if stack_contains(stack, &second) {
                                    Err(Halt::Failed(BundleError::CyclicModule(second)))
                                } else {
                                    proof {
                                        lemma_count_outside_push(sources@, st, second@);
                                    }
                                    let dir = join_location(self.base_path, name.as_str());
                                    Ok(Some(self.expand_mod_file(sources, stack, second, &dir, f)?))
                                }
                            },
                        }
                    },
                }
            },
        }
    }

    /// Expands the module file at `location`, whose directory is `base`, as
    /// the innermost file being expanded; its pieces follow a note naming the
    /// file.
    fn expand_mod_file<'s>(
        &self,
        sources: &'s Sources,
        stack: &mut Vec<String>,
        location: String,
        base: &String,
        file: &'s SourceFile,
    ) -> (r: Result<Vec<Piece>, Halt>)
        requires
            source_at(sources@, location@) is Some,
        ensures
            final(stack)@ == old(stack)@,
            match r {
                Ok(p) => spec_visit_file(
                    sources@,
                    self.crate_name@,
                    stack_view(old(stack)@).push(location@),
                    base@,
                    file.items@,
                ) matches Ok(q) && p@ == seq![
                    Piece::ModFileInlined { entry: source_index(sources@, location@) as usize },
                ] + q,
                Err(h) => spec_visit_file(
                    sources@,
                    self.crate_name@,
                    stack_view(old(stack)@).push(location@),
                    base@,
                    file.items@,
                ) == Err::<Seq<Piece>, HaltView>(h@),
            },
        decreases count_outside(sources@, stack_view(old(stack)@).push(location@)), 2nat,
            file.items@,
    {
        let entry = match sources.position(&location) {
            Some(i) => i,
            None => {
                assert(false);
                0
            },
        };
        let ghost stack0 = stack@;
        let ghost loc = location@;
        stack.push(location);
        assert(stack_view(stack@) =~= stack_view(stack0).push(loc));
        let nested = Expander { base_path: base, crate_name: self.crate_name };
        let r = nested.visit_file_mut(sources, stack, file);
        stack.pop();
        assert(stack@ =~= stack0);
        let pieces = r?;
        let mut note: Vec<Piece> = Vec::new();
        note.push(Piece::ModFileInlined { entry });
        Ok(concat_pieces(note, pieces))
    }

    /// How many leading segments of a path the crate prefix takes after
    /// `passes` visits.
    pub fn expand_crate_path(&self, segments: &Vec<String>, passes: usize) -> (r: usize)
        ensures
            r == stripped(segments@, self.crate_name@, passes as nat),
    {
        crate_prefix_len(segments, self.crate_name.as_str(), passes)
    }
}

/// The bundled file: the expansion of `src/main.rs`.
pub open spec fn spec_bundle(entries: Seq<SourceEntry>, name: Seq<char>) -> Result<
    (u64, Seq<Piece>),
    HaltView,
> {
    let main = spec_main_location();
    match source_at(entries, main) {
        None => Err(HaltView::NeedFile(main)),
        Some(SourceState::Unreadable) => Err(HaltView::Failed(BundleErrorView::MainUnreadable)),
        Some(SourceState::Unparsable) => Err(HaltView::Failed(BundleErrorView::MainUnparsable)),
        Some(SourceState::Parsed(f)) => match spec_visit_file(
            entries,
            name,
            seq![main],
            spec_src_dir(),
            f.items@,
        ) {
            Ok(pieces) => Ok((f.attrs, pieces)),
            Err(h) => Err(h),
        },
    }
}

/// Bundles the package whose files read so far are `sources`, for the crate
/// name `crate_name`: the bundled file, a file that is needed and has not
/// been read yet, or why the package cannot be bundled.
pub fn bundle_step(sources: &Sources, crate_name: &String) -> (r: Result<Bundle, Halt>)
    ensures
        match r {
            Ok(b) => spec_bundle(sources@, crate_name@) == Ok::<(u64, Seq<Piece>), HaltView>(
                (b.attrs, b.pieces@),
            ),
            Err(h) => spec_bundle(sources@, crate_name@) == Err::<(u64, Seq<Piece>), HaltView>(
                h@,
            ),
        },
{
    let main = main_location();
    match sources.get(&main) {
        None => Err(Halt::NeedFile(main)),
        Some(SourceState::Unreadable) => Err(Halt::Failed(BundleError::MainUnreadable)),
        Some(SourceState::Unparsable) => Err(Halt::Failed(BundleError::MainUnparsable)),
        Some(SourceState::Parsed(f)) => {
            let base = src_dir();
            let ghost m = main@;
            let mut stack: Vec<String> = Vec::new();
            stack.push(main);
            assert(stack_view(stack@) =~= seq![m]);
            let expander = Expander { base_path: &base, crate_name };
            let pieces = expander.visit_file_mut(sources, &mut stack, f)?;
            Ok(Bundle { attrs: f.attrs, pieces })
        },
    }
}

/// The result asks for a file.
pub open spec fn asks_for_file<T>(r: Result<T, HaltView>) -> bool {
    r matches Err(HaltView::NeedFile(_))
}

/// A file that the result asks for has not been read.
pub open spec fn asks_only_for_missing<T>(entries: Seq<SourceEntry>, r: Result<T, HaltView>) -> bool {
    r matches Err(HaltView::NeedFile(l)) ==> source_at(entries, l) is None
}

proof fn lemma_expand_items_stable(
    entries: Seq<SourceEntry>,
    more: Seq<SourceEntry>,
    name: Seq<char>,
    base: Seq<char>,
    items: Seq<Item>,
)
    ensures
        asks_only_for_missing(entries, spec_expand_items(entries, name, base, items)),
        !asks_for_file(spec_expand_items(entries, name, base, items)) ==> spec_expand_items(
            entries + more,
            name,
            base,
            items,
        ) == spec_expand_items(entries, name, base, items),
{
    let lib = spec_lib_location(base);
    if source_at(entries, lib) is Some {
        lemma_source_at_append(entries, more, lib);
    }
}

proof fn lemma_visit_file_stable(
    entries: Seq<SourceEntry>,
    more: Seq<SourceEntry>,
    name: Seq<char>,
    stack: Seq<Seq<char>>,
    base: Seq<char>,
    items: Seq<Item>,
)
    ensures
        asks_only_for_missing(entries, spec_visit_file(entries, name, stack, base, items)),
        !asks_for_file(spec_visit_file(entries, name, stack, base, items)) ==> spec_visit_file(
            entries + more,
            name,
            stack,
            base,
            items,
        ) == spec_visit_file(entries, name, stack, base, items),
    decreases count_outside(entries, stack), 1nat, items,
{
    lemma_expand_items_stable(entries, more, name, base, items);
    lemma_count_extern_crate(items, name);
    let lib = spec_lib_location(base);
    if source_at(entries, lib) is Some {
        lemma_source_at_append(entries, more, lib);
    }
    let count = count_extern_crate(items, name);
    if !asks_for_file(spec_expand_items(entries, name, base, items)) {
        if count > 0 {
            assert(has_extern_crate(items, name));
            assert(source_at(entries, lib) is Some);
            assert(source_index(entries + more, lib) == source_index(entries, lib));
        }
        assert(lib_notes(entries + more, base, count) =~= lib_notes(entries, base, count));
    }
    match spec_expand_items(entries, name, base, items) {
        Ok(expanded) => lemma_visit_items_stable(entries, more, name, stack, base, expanded),
        Err(_) => {},
    }
}

proof fn lemma_visit_items_stable(
    entries: Seq<SourceEntry>,
    more: Seq<SourceEntry>,
    name: Seq<char>,
    stack: Seq<Seq<char>>,
    base: Seq<char>,
    items: Seq<Item>,
)
    ensures
        asks_only_for_missing(entries, spec_visit_items(entries, name, stack, base, items)),
        !asks_for_file(spec_visit_items(entries, name, stack, base, items)) ==> spec_visit_items(
            entries + more,
            name,
            stack,
            base,
            items,
        ) == spec_visit_items(entries, name, stack, base, items),
    decreases count_outside(entries, stack), 0nat, items,
{
    if items.len() > 0 {
        lemma_visit_items_stable(entries, more, name, stack, base, items.drop_last());
        match spec_visit_items(entries, name, stack, base, items.drop_last()) {
            Ok(_) => lemma_visit_item_stable(entries, more, name, stack, base, items.last()),
            Err(_) => {},
        }
    }
}

proof fn lemma_visit_item_stable(
    entries: Seq<SourceEntry>,
    more: Seq<SourceEntry>,
    name: Seq<char>,
    stack: Seq<Seq<char>>,
    base: Seq<char>,
    item: Item,
)
    ensures
        asks_only_for_missing(entries, spec_visit_item(entries, name, stack, base, item)),
        !asks_for_file(spec_visit_item(entries, name, stack, base, item)) ==> spec_visit_item(
            entries + more,
            name,
            stack,
            base,
            item,
        ) == spec_visit_item(entries, name, stack, base, item),
    decreases count_outside(entries, stack), 0nat, item,
{
    match item {
        Item::Mod { name: mod_name, syntax, content } => match content {
            Some(items) => lemma_visit_items_stable(entries, more, name, stack, base, items@),
            None => lemma_expand_mods_stable(entries, more, name, stack, base, mod_name@, content),
        },
        Item::Other { nested, .. } => {
            lemma_visit_items_stable(entries, more, name, stack, base, nested@);
        },
        _ => {},
    }
}

proof fn lemma_expand_mods_stable(
    entries: Seq<SourceEntry>,
    more: Seq<SourceEntry>,
    name: Seq<char>,
    stack: Seq<Seq<char>>,
    base: Seq<char>,
    mod_name: Seq<char>,
    content: Option<Vec<Item>>,
)
    ensures
        asks_only_for_missing(
            entries,
            spec_expand_mods(entries, name, stack, base, mod_name, content),
        ),
        !asks_for_file(spec_expand_mods(entries, name, stack, base, mod_name, content))
            ==> spec_expand_mods(entries + more, name, stack, base, mod_name, content)
            == spec_expand_mods(entries, name, stack, base, mod_name, content),
    decreases count_outside(entries, stack), 0nat, content,
{
    match content {
        Some(_) => {},
        None => {
            let first = spec_mod_file(base, mod_name);
            if source_at(entries, first) is Some {
                lemma_source_at_append(entries, more, first);
            }
            match source_at(entries, first) {
                Some(SourceState::Parsed(f)) => {
                    if !stack.contains(first) {
                        lemma_count_outside_push(entries, stack, first);
                        lemma_visit_file_stable(
                            entries,
                            more,
                            name,
                            stack.push(first),
                            base,
                            f.items@,
                        );
                    }
                },
                Some(SourceState::Unreadable) => {
                    let second = spec_mod_dir_file(base, mod_name);
                    if source_at(entries, second) is Some {
                        lemma_source_at_append(entries, more, second);
                    }
                    match source_at(entries, second) {
                        Some(SourceState::Parsed(f)) => {
                            if !stack.contains(second) {
                                lemma_count_outside_push(entries, stack, second);
                                lemma_visit_file_stable(
                                    entries,
                                    more,
                                    name,
                                    stack.push(second),
                                    join(base, mod_name),
                                    f.items@,
                                );
                            }
                        },
                        _ => {},
                    }
                },
                _ => {},
            }
        },
    }
}

/// Bundling only asks for a file that has not been read, and once it no
/// longer asks for one, reading more files changes nothing: the bundle, or
/// the reason that the package cannot be bundled, stays as it is.
pub proof fn lemma_bundle_stable(entries: Seq<SourceEntry>, more: Seq<SourceEntry>, name: Seq<char>)
    ensures
        asks_only_for_missing(entries, spec_bundle(entries, name)),
        !asks_for_file(spec_bundle(entries, name)) ==> spec_bundle(entries + more, name)
            == spec_bundle(entries, name),
{
    let main = spec_main_location();
    if source_at(entries, main) is Some {
        lemma_source_at_append(entries, more, main);
    }
    match source_at(entries, main) {
        Some(SourceState::Parsed(f)) => {
            lemma_visit_file_stable(entries, more, name, seq![main], spec_src_dir(), f.items@);
        },
        _ => {},
    }
}

/// How many modules and items are open after the pieces.
pub open spec fn depth(pieces: Seq<Piece>) -> int
    decreases pieces.len(),
{
    if pieces.len() == 0 {
        0
    } else {
        depth(pieces.drop_last()) + piece_depth(pieces.last())
    }
}

/// How a piece changes the number of modules and items open.
pub open spec fn piece_depth(piece: Piece) -> int {
    match piece {
        Piece::OpenMod { .. } => 1int,
        Piece::OpenItem { .. } => 1int,
        Piece::CloseMod => -1int,
        Piece::CloseItem => -1int,
        _ => 0int,
    }
}

/// Every module or item that the pieces open is closed, after its content,
/// and no piece closes one that is not open.
pub open spec fn well_nested(pieces: Seq<Piece>) -> bool {
    &&& depth(pieces) == 0
    &&& forall|k: int| 0 <= k <= pieces.len() ==> depth(#[trigger] pieces.take(k)) >= 0
}

proof fn lemma_depth_concat(a: Seq<Piece>, b: Seq<Piece>)
    ensures
        depth(a + b) == depth(a) + depth(b),
    decreases b.len(),
{
    if b.len() == 0 {
        assert(a + b =~= a);
    } else {
        assert((a + b).drop_last() =~= a + b.drop_last());
        lemma_depth_concat(a, b.drop_last());
    }
}

proof fn lemma_well_nested_concat(a: Seq<Piece>, b: Seq<Piece>)
    requires
        well_nested(a),
        well_nested(b),
    ensures
        well_nested(a + b),
{
    lemma_depth_concat(a, b);
    assert forall|k: int| 0 <= k <= (a + b).len() implies depth(#[trigger] (a + b).take(k)) >= 0 by {
        if k <= a.len() {
            assert((a + b).take(k) =~= a.take(k));
        } else {
            assert((a + b).take(k) =~= a + b.take(k - a.len()));
            lemma_depth_concat(a, b.take(k - a.len()));
            assert(depth(b.take(k - a.len())) >= 0);
        }
    }
}

proof fn lemma_well_nested_enclosed(open: Piece, inner: Seq<Piece>, close: Piece)
    requires
        well_nested(inner),
        piece_depth(open) == 1,
        piece_depth(close) == -1,
    ensures
        well_nested(seq![open] + inner + seq![close]),
{
    let o = seq![open];
    let c = seq![close];
    let all = o + inner + c;
    assert(o.drop_last() =~= Seq::<Piece>::empty());
    assert(c.drop_last() =~= Seq::<Piece>::empty());
    assert(depth(Seq::<Piece>::empty()) == 0);
    assert(o.last() == open);
    assert(c.last() == close);
    assert(depth(o) == 1);
    assert(depth(c) == -1);
    lemma_depth_concat(o, inner);
    lemma_depth_concat(o + inner, c);
    assert forall|k: int| 0 <= k <= all.len() implies depth(#[trigger] all.take(k)) >= 0 by {
        if k == 0 {
            assert(all.take(0) =~= Seq::<Piece>::empty());
        } else if k <= inner.len() + 1 {
            assert(all.take(k) =~= o + inner.take(k - 1));
            lemma_depth_concat(o, inner.take(k - 1));
            assert(depth(inner.take(k - 1)) >= 0);
        } else {
            assert(all.take(k) =~= all);
        }
    }
}

proof fn lemma_flat_well_nested(pieces: Seq<Piece>)
    requires
        forall|i: int| 0 <= i < pieces.len() ==> piece_depth(#[trigger] pieces[i]) == 0,
    ensures
        well_nested(pieces),
        forall|k: int| 0 <= k <= pieces.len() ==> depth(#[trigger] pieces.take(k)) == 0,
    decreases pieces.len(),
{
    if pieces.len() > 0 {
        lemma_flat_well_nested(pieces.drop_last());
        assert(pieces.last() == pieces[pieces.len() - 1]);
        assert forall|k: int| 0 <= k <= pieces.len() implies depth(#[trigger] pieces.take(k)) == 0 by {
            if k < pieces.len() {
                assert(pieces.take(k) =~= pieces.drop_last().take(k));
            } else {
                assert(pieces.take(k) =~= pieces);
                assert(pieces.drop_last().take(pieces.len() - 1) =~= pieces.drop_last());
            }
        }
    } else {
        assert forall|k: int| 0 <= k <= pieces.len() implies depth(#[trigger] pieces.take(k)) == 0 by {
            assert(pieces.take(k) =~= Seq::<Piece>::empty());
        }
    }
}

proof fn lemma_visit_file_nested(
    entries: Seq<SourceEntry>,
    name: Seq<char>,
    stack: Seq<Seq<char>>,
    base: Seq<char>,
    items: Seq<Item>,
)
    ensures
        spec_visit_file(entries, name, stack, base, items) matches Ok(p) ==> well_nested(p),
    decreases count_outside(entries, stack), 1nat, items,
{
    match spec_expand_items(entries, name, base, items) {
        Ok(expanded) => {
            lemma_visit_items_nested(entries, name, stack, base, expanded);
            let notes = lib_notes(entries, base, count_extern_crate(items, name));
            lemma_flat_well_nested(notes);
            match spec_visit_items(entries, name, stack, base, expanded) {
                Ok(p) => lemma_well_nested_concat(notes, p),
                Err(_) => {},
            }
        },
        Err(_) => {},
    }
}

proof fn lemma_visit_items_nested(
    entries: Seq<SourceEntry>,
    name: Seq<char>,
    stack: Seq<Seq<char>>,
    base: Seq<char>,
    items: Seq<Item>,
)
    ensures
        spec_visit_items(entries, name, stack, base, items) matches Ok(p) ==> well_nested(p),
    decreases count_outside(entries, stack), 0nat, items,
{
    if items.len() == 0 {
        assert forall|k: int| 0 <= k <= 0 implies depth(#[trigger] Seq::<Piece>::empty().take(
            k,
        )) >= 0 by {
            assert(Seq::<Piece>::empty().take(k) =~= Seq::<Piece>::empty());
        }
    } else {
        lemma_visit_items_nested(entries, name, stack, base, items.drop_last());
        lemma_visit_item_nested(entries, name, stack, base, items.last());
        match spec_visit_items(entries, name, stack, base, items.drop_last()) {
            Ok(front) => match spec_visit_item(entries, name, stack, base, items.last()) {
                Ok(back) => lemma_well_nested_concat(front, back),
                Err(_) => {},
            },
            Err(_) => {},
        }
    }
}

proof fn lemma_visit_item_nested(
    entries: Seq<SourceEntry>,
    name: Seq<char>,
    stack: Seq<Seq<char>>,
    base: Seq<char>,
    item: Item,
)
    ensures
        spec_visit_item(entries, name, stack, base, item) matches Ok(p) ==> well_nested(p),
    decreases count_outside(entries, stack), 0nat, item,
{
    let passes = stack.len() as usize;
    match item {
        Item::Mod { name: mod_name, syntax, content } => {
            let inner = match content {
                Some(items) => {
                    lemma_visit_items_nested(entries, name, stack, base, items@);
                    spec_visit_items(entries, name, stack, base, items@)
                },
                None => {
                    lemma_expand_mods_nested(entries, name, stack, base, mod_name@, content);
                    match spec_expand_mods(entries, name, stack, base, mod_name@, content) {
                        Ok(Some(p)) => Ok(p),
                        Ok(None) => Ok(Seq::empty()),
                        Err(h) => Err(h),
                    }
                },
            };
            match inner {
                Ok(inner) => {
                    if inner.len() == 0 {
                        lemma_flat_well_nested(inner);
                    }
                    lemma_well_nested_enclosed(
                        Piece::OpenMod { syntax, passes },
                        inner,
                        Piece::CloseMod,
                    )
                },
                Err(_) => {},
            }
        },
        Item::ExternCrate { syntax, .. } => lemma_flat_well_nested(
            seq![Piece::Item { syntax, passes }],
        ),
        Item::Use { syntax, .. } => lemma_flat_well_nested(seq![Piece::Item { syntax, passes }]),
        Item::Other { syntax, nested } => {
            if nested.len() == 0 {
                lemma_flat_well_nested(seq![Piece::Item { syntax, passes }]);
            } else {
                lemma_visit_items_nested(entries, name, stack, base, nested@);
                match spec_visit_items(entries, name, stack, base, nested@) {
                    Ok(inner) => lemma_well_nested_enclosed(
                        Piece::OpenItem { syntax, passes },
                        inner,
                        Piece::CloseItem,
                    ),
                    Err(_) => {},
                }
            }
        },
    }
}

proof fn lemma_expand_mods_nested(
    entries: Seq<SourceEntry>,
    name: Seq<char>,
    stack: Seq<Seq<char>>,
    base: Seq<char>,
    mod_name: Seq<char>,
    content: Option<Vec<Item>>,
)
    ensures
        spec_expand_mods(entries, name, stack, base, mod_name, content) matches Ok(Some(p))
            ==> well_nested(p),
    decreases count_outside(entries, stack), 0nat, content,
{
    match content {
        Some(_) => {},
        None => {
            let first = spec_mod_file(base, mod_name);
            match source_at(entries, first) {
                Some(SourceState::Parsed(f)) => {
                    if !stack.contains(first) {
                        lemma_count_outside_push(entries, stack, first);
                        lemma_visit_file_nested(entries, name, stack.push(first), base, f.items@);
                        let note = seq![
                            Piece::ModFileInlined { entry: source_index(entries, first) as usize },
                        ];
                        lemma_flat_well_nested(note);
                        match spec_visit_file(entries, name, stack.push(first), base, f.items@) {
                            Ok(p) => lemma_well_nested_concat(note, p),
                            Err(_) => {},
                        }
                    }
                },
                Some(SourceState::Unreadable) => {
                    let second = spec_mod_dir_file(base, mod_name);
                    match source_at(entries, second) {
                        Some(SourceState::Parsed(f)) => {
                            if !stack.contains(second) {
                                lemma_count_outside_push(entries, stack, second);
                                lemma_visit_file_nested(
                                    entries,
                                    name,
                                    stack.push(second),
                                    join(base, mod_name),
                                    f.items@,
                                );
                                let note = seq![
                                    Piece::ModFileInlined {
                                        entry: source_index(entries, second) as usize,
                                    },
                                ];
                                lemma_flat_well_nested(note);
                                match spec_visit_file(
                                    entries,
                                    name,
                                    stack.push(second),
                                    join(base, mod_name),
                                    f.items@,
                                ) {
                                    Ok(p) => lemma_well_nested_concat(note, p),
                                    Err(_) => {},
                                }
                            }
                        },
                        _ => {},
                    }
                },
                _ => {},
            }
        },
    }
}

/// The bundled file is one file: every module that it opens is closed,
/// after its content, and no piece closes a module that is not open.
pub proof fn lemma_bundle_well_nested(entries: Seq<SourceEntry>, name: Seq<char>)
    ensures
        spec_bundle(entries, name) matches Ok((_, pieces)) ==> well_nested(pieces),
{
    let main = spec_main_location();
    match source_at(entries, main) {
        Some(SourceState::Parsed(f)) => {
            lemma_visit_file_nested(entries, name, seq![main], spec_src_dir(), f.items@);
        },
        _ => {},
    }
}

/// Splicing the library in leaves a list without `extern crate` of the
/// crate unchanged, and leaves such an item only where the library itself
/// holds one.
pub proof fn lemma_splice_lib(items: Seq<Item>, name: Seq<char>, lib: Seq<Item>)
    ensures
        !has_extern_crate(items, name) ==> splice_lib(items, name, lib) == items,
        has_extern_crate(splice_lib(items, name, lib), name) ==> has_extern_crate(lib, name),
    decreases items.len(),
{
    if items.len() > 0 {
        let front = items.drop_last();
        lemma_splice_lib(front, name, lib);
        if !has_extern_crate(items, name) {
            assert(!has_extern_crate(front, name)) by {
                if has_extern_crate(front, name) {
                    let i = choose|i: int|
                        0 <= i < front.len() && spec_is_extern_crate(front[i], name);
                    assert(items[i] == front[i]);
                }
            }
            assert(!spec_is_extern_crate(items.last(), name)) by {
                assert(items[items.len() - 1] == items.last());
            }
            assert(front.push(items.last()) =~= items);
        }
        let spliced = splice_lib(items, name, lib);
        let sf = splice_lib(front, name, lib);
        let tail = if spec_is_extern_crate(items.last(), name) {
            lib
        } else {
            seq![items.last()]
        };
        assert(spliced == sf + tail);
        if has_extern_crate(spliced, name) {
            let i = choose|i: int| 0 <= i < spliced.len() && spec_is_extern_crate(spliced[i], name);
            if i < sf.len() {
                assert(spliced[i] == sf[i]);
            } else {
                assert(spliced[i] == tail[i - sf.len()]);
                if !spec_is_extern_crate(items.last(), name) {
                    assert(tail[i - sf.len()] == items.last());
                } else {
                    assert(lib[i - sf.len()] == spliced[i]);
                }
            }
        }
    }
}

/// Removing the `use` items of the crate keeps every other item, in order,
/// and leaves none of them.
pub proof fn lemma_remove_uses(items: Seq<Item>, name: Seq<char>)
    ensures
        remove_uses(items, name) == items.filter(|it: Item| !spec_is_use_path(it, name)),
        forall|i: int|
            0 <= i < remove_uses(items, name).len() ==> !spec_is_use_path(
                #[trigger] remove_uses(items, name)[i],
                name,
            ),
    decreases items.len(),
{
    reveal(Seq::filter);
    if items.len() > 0 {
        lemma_remove_uses(items.drop_last(), name);
    }
}


/// `base/lib.rs`, written out.
pub open spec fn lib_rs_in(base: Seq<char>) -> Seq<char> {
    base + seq!['/', 'l', 'i', 'b', '.', 'r', 's']
}

/// `base/m.rs`, written out.
pub open spec fn mod_rs_file_in(base: Seq<char>, m: Seq<char>) -> Seq<char> {
    base + seq!['/'] + m + seq!['.', 'r', 's']
}

/// `base/m/mod.rs`, written out.
pub open spec fn mod_dir_rs_in(base: Seq<char>, m: Seq<char>) -> Seq<char> {
    base + seq!['/'] + m + seq!['/', 'm', 'o', 'd', '.', 'r', 's']
}

/// With the library's root `base/lib.rs` parsed, an `extern crate` of the
/// crate expands to exactly the items of that file, all of them, in order.
pub proof fn lemma_extern_crate_becomes_lib_items(
    entries: Seq<SourceEntry>,
    name: Seq<char>,
    base: Seq<char>,
    item: Item,
    lib: SourceFile,
)
    requires
        source_at(entries, lib_rs_in(base)) == Some(SourceState::Parsed(lib)),
        item matches Item::ExternCrate { name: n, .. } && n@ == name,
    ensures
        spec_expand_extern_crate(entries, name, base, seq![item]) == Ok::<Seq<Item>, HaltView>(
            lib.items@,
        ),
{
    assert(spec_lib_location(base) =~= lib_rs_in(base));
    let one = seq![item];
    assert(spec_is_extern_crate(one[0], name));
    assert(has_extern_crate(one, name));
    assert(lib_items(entries, base) == Ok::<Seq<Item>, HaltView>(lib.items@));
    assert(one.drop_last() =~= Seq::<Item>::empty());
    assert(one.last() == item);
    assert(splice_lib(one.drop_last(), name, lib.items@) == Seq::<Item>::empty());
    assert(Seq::<Item>::empty() + lib.items@ =~= lib.items@);
    assert(splice_lib(one, name, lib.items@) == lib.items@);
}

/// An item that is not an `extern crate` of the crate stays as it is, and
/// no file is read for it.
pub proof fn lemma_other_item_is_kept(
    entries: Seq<SourceEntry>,
    name: Seq<char>,
    base: Seq<char>,
    item: Item,
)
    requires
        !(item matches Item::ExternCrate { name: n, .. } && n@ == name),
    ensures
        spec_expand_extern_crate(entries, name, base, seq![item]) == Ok::<Seq<Item>, HaltView>(
            seq![item],
        ),
{
    if has_extern_crate(seq![item], name) {
        let i = choose|i: int| 0 <= i < 1 && spec_is_extern_crate(seq![item][i], name);
        assert(seq![item][i] == item);
    }
}

/// Splicing works item by item: the splice of `a + b` is the splice of `a`
/// followed by the splice of `b`.
proof fn lemma_splice_lib_concat(a: Seq<Item>, b: Seq<Item>, name: Seq<char>, lib: Seq<Item>)
    ensures
        splice_lib(a + b, name, lib) == splice_lib(a, name, lib) + splice_lib(b, name, lib),
    decreases b.len(),
{
    if b.len() == 0 {
        assert(a + b =~= a);
        assert(splice_lib(a, name, lib) + Seq::<Item>::empty() =~= splice_lib(a, name, lib));
    } else {
        lemma_splice_lib_concat(a, b.drop_last(), name, lib);
        assert((a + b).drop_last() =~= a + b.drop_last());
        assert((a + b).last() == b.last());
        let tail = if spec_is_extern_crate(b.last(), name) {
            lib
        } else {
            seq![b.last()]
        };
        assert(splice_lib(a, name, lib) + splice_lib(b.drop_last(), name, lib) + tail
            =~= splice_lib(a, name, lib) + (splice_lib(b.drop_last(), name, lib) + tail));
    }
}

/// With the library's root parsed, expanding `a + b` gives the expansion of
/// `a` followed by that of `b`: each item is expanded where it stands.
pub proof fn lemma_expand_extern_crate_concat(
    entries: Seq<SourceEntry>,
    name: Seq<char>,
    base: Seq<char>,
    a: Seq<Item>,
    b: Seq<Item>,
    lib: SourceFile,
)
    requires
        source_at(entries, lib_rs_in(base)) == Some(SourceState::Parsed(lib)),
    ensures
        spec_expand_extern_crate(entries, name, base, a) is Ok,
        spec_expand_extern_crate(entries, name, base, b) is Ok,
        spec_expand_extern_crate(entries, name, base, a + b) == Ok::<Seq<Item>, HaltView>(
            spec_expand_extern_crate(entries, name, base, a)->Ok_0 + spec_expand_extern_crate(
                entries,
                name,
                base,
                b,
            )->Ok_0,
        ),
{
    assert(spec_lib_location(base) =~= lib_rs_in(base));
    let l = lib.items@;
    lemma_splice_lib(a, name, l);
    lemma_splice_lib(b, name, l);
    lemma_splice_lib(a + b, name, l);
    lemma_splice_lib_concat(a, b, name, l);
    if has_extern_crate(a, name) {
        let i = choose|i: int| 0 <= i < a.len() && spec_is_extern_crate(a[i], name);
        assert((a + b)[i] == a[i]);
    }
    if has_extern_crate(b, name) {
        let i = choose|i: int| 0 <= i < b.len() && spec_is_extern_crate(b[i], name);
        assert((a + b)[a.len() + i] == b[i]);
    }
    if has_extern_crate(a + b, name) {
        let i = choose|i: int| 0 <= i < (a + b).len() && spec_is_extern_crate((a + b)[i], name);
        if i < a.len() {
            assert(a[i] == (a + b)[i]);
        } else {
            assert(b[i - a.len()] == (a + b)[i]);
        }
    }
}

/// Removing the crate's `use` items keeps exactly the items that are not a
/// `use` whose path starts with the crate's name, in order.
pub proof fn lemma_remove_uses_keeps_other_items(items: Seq<Item>, name: Seq<char>)
    ensures
        remove_uses(items, name) == items.filter(
            |it: Item| !(it matches Item::Use { root: Some(r), .. } && r@ == name),
        ),
{
    lemma_remove_uses(items, name);
    let p1 = |it: Item| !spec_is_use_path(it, name);
    let p2 = |it: Item| !(it matches Item::Use { root: Some(r), .. } && r@ == name);
    assert(p1 =~= p2);
}

/// A module with content reads nothing: its items stay where they are.
pub proof fn lemma_inline_module_reads_nothing(
    entries: Seq<SourceEntry>,
    name: Seq<char>,
    stack: Seq<Seq<char>>,
    base: Seq<char>,
    m: Seq<char>,
    items: Vec<Item>,
)
    ensures
        spec_expand_mods(entries, name, stack, base, m, Some(items)) == Ok::<
            Option<Seq<Piece>>,
            HaltView,
        >(None),
{
}

/// `mod m;` declared in directory `base` is looked for first at `base/m.rs`,
/// then at `base/m/mod.rs`; it is not found when neither can be read.
pub proof fn lemma_module_lookup_order(
    entries: Seq<SourceEntry>,
    name: Seq<char>,
    stack: Seq<Seq<char>>,
    base: Seq<char>,
    m: Seq<char>,
)
    ensures
        source_at(entries, mod_rs_file_in(base, m)) is None ==> spec_expand_mods(
            entries,
            name,
            stack,
            base,
            m,
            None,
        ) == Err::<Option<Seq<Piece>>, HaltView>(HaltView::NeedFile(mod_rs_file_in(base, m))),
        source_at(entries, mod_rs_file_in(base, m)) == Some(SourceState::Unreadable) && source_at(
            entries,
            mod_dir_rs_in(base, m),
        ) is None ==> spec_expand_mods(entries, name, stack, base, m, None) == Err::<
            Option<Seq<Piece>>,
            HaltView,
        >(HaltView::NeedFile(mod_dir_rs_in(base, m))),
        source_at(entries, mod_rs_file_in(base, m)) == Some(SourceState::Unreadable) && source_at(
            entries,
            mod_dir_rs_in(base, m),
        ) == Some(SourceState::Unreadable) ==> spec_expand_mods(
            entries,
            name,
            stack,
            base,
            m,
            None,
        ) == Err::<Option<Seq<Piece>>, HaltView>(
            HaltView::Failed(BundleErrorView::ModNotFound { name: m, base }),
        ),
{
    assert(spec_mod_file(base, m) =~= mod_rs_file_in(base, m));
    assert(spec_mod_dir_file(base, m) =~= mod_dir_rs_in(base, m));
}

/// A module read from `base/m.rs` declares its own modules in `base`, the
/// directory of the file that declared it: its content is the expansion of
/// that file's items in `base`, after a note naming the file.
pub proof fn lemma_module_file_keeps_directory(
    entries: Seq<SourceEntry>,
    name: Seq<char>,
    stack: Seq<Seq<char>>,
    base: Seq<char>,
    m: Seq<char>,
    file: SourceFile,
)
    requires
        source_at(entries, mod_rs_file_in(base, m)) == Some(SourceState::Parsed(file)),
        !stack.contains(mod_rs_file_in(base, m)),
    ensures
        spec_expand_mods(entries, name, stack, base, m, None) == match spec_visit_file(
            entries,
            name,
            stack.push(mod_rs_file_in(base, m)),
            base,
            file.items@,
        ) {
            Ok(p) => Ok::<Option<Seq<Piece>>, HaltView>(
                Some(
                    seq![
                        Piece::ModFileInlined {
                            entry: source_index(entries, mod_rs_file_in(base, m)) as usize,
                        },
                    ] + p,
                ),
            ),
            Err(h) => Err::<Option<Seq<Piece>>, HaltView>(h),
        },
{
    assert(spec_mod_file(base, m) =~= mod_rs_file_in(base, m));
}

/// A module read from `base/m/mod.rs` declares its own modules in `base/m`,
/// for every directory `base`: its content is the expansion of that file's
/// items in `base/m`, after a note naming the file.
pub proof fn lemma_mod_rs_declares_in_its_directory(
    entries: Seq<SourceEntry>,
    name: Seq<char>,
    stack: Seq<Seq<char>>,
    base: Seq<char>,
    m: Seq<char>,
    file: SourceFile,
)
    requires
        source_at(entries, mod_rs_file_in(base, m)) == Some(SourceState::Unreadable),
        source_at(entries, mod_dir_rs_in(base, m)) == Some(SourceState::Parsed(file)),
        !stack.contains(mod_dir_rs_in(base, m)),
    ensures
        spec_expand_mods(entries, name, stack, base, m, None) == match spec_visit_file(
            entries,
            name,
            stack.push(mod_dir_rs_in(base, m)),
            base + seq!['/'] + m,
            file.items@,
        ) {
            Ok(p) => Ok::<Option<Seq<Piece>>, HaltView>(
                Some(
                    seq![
                        Piece::ModFileInlined {
                            entry: source_index(entries, mod_dir_rs_in(base, m)) as usize,
                        },
                    ] + p,
                ),
            ),
            Err(h) => Err::<Option<Seq<Piece>>, HaltView>(h),
        },
{
    assert(spec_mod_file(base, m) =~= mod_rs_file_in(base, m));
    assert(spec_mod_dir_file(base, m) =~= mod_dir_rs_in(base, m));
    assert(join(base, m) =~= base + seq!['/'] + m);
}


/// `src/main.rs`, written out.
pub open spec fn main_rs() -> Seq<char> {
    seq!['s', 'r', 'c', '/', 'm', 'a', 'i', 'n', '.', 'r', 's']
}

/// Bundling starts at `src/main.rs`: it asks for that file first, fails when
/// it cannot be read or parsed, and else gives the file's inner attributes
/// and the pieces of its items, visited once in directory `src` with
/// `src/main.rs` as the only file being expanded.
pub proof fn lemma_bundle_starts_at_main(entries: Seq<SourceEntry>, name: Seq<char>)
    ensures
        source_at(entries, main_rs()) is None ==> spec_bundle(entries, name) == Err::<
            (u64, Seq<Piece>),
            HaltView,
        >(HaltView::NeedFile(main_rs())),
        source_at(entries, main_rs()) == Some(SourceState::Unreadable) ==> spec_bundle(
            entries,
            name,
        ) == Err::<(u64, Seq<Piece>), HaltView>(HaltView::Failed(BundleErrorView::MainUnreadable)),
        source_at(entries, main_rs()) == Some(SourceState::Unparsable) ==> spec_bundle(
            entries,
            name,
        ) == Err::<(u64, Seq<Piece>), HaltView>(
            HaltView::Failed(BundleErrorView::MainUnparsable),
        ),
        source_at(entries, main_rs()) matches Some(SourceState::Parsed(f)) ==> spec_bundle(
            entries,
            name,
        ) == match spec_visit_file(
            entries,
            name,
            seq![main_rs()],
            seq!['s', 'r', 'c'],
            f.items@,
        ) {
            Ok(p) => Ok::<(u64, Seq<Piece>), HaltView>((f.attrs, p)),
            Err(h) => Err::<(u64, Seq<Piece>), HaltView>(h),
        },
{
    assert(spec_main_location() =~= main_rs());
}

/// The pieces of a list of items are those of its parts, in order; the
/// first part that cannot be bundled decides.
pub proof fn lemma_visit_items_concat(
    entries: Seq<SourceEntry>,
    name: Seq<char>,
    stack: Seq<Seq<char>>,
    base: Seq<char>,
    a: Seq<Item>,
    b: Seq<Item>,
)
    ensures
        spec_visit_items(entries, name, stack, base, a + b) == match spec_visit_items(
            entries,
            name,
            stack,
            base,
            a,
        ) {
            Ok(pa) => match spec_visit_items(entries, name, stack, base, b) {
                Ok(pb) => Ok::<Seq<Piece>, HaltView>(pa + pb),
                Err(h) => Err::<Seq<Piece>, HaltView>(h),
            },
            Err(h) => Err::<Seq<Piece>, HaltView>(h),
        },
    decreases b.len(),
{
    if b.len() == 0 {
        assert(a + b =~= a);
        match spec_visit_items(entries, name, stack, base, a) {
            Ok(pa) => assert(pa + Seq::<Piece>::empty() =~= pa),
            Err(_) => {},
        }
    } else {
        lemma_visit_items_concat(entries, name, stack, base, a, b.drop_last());
        assert((a + b).drop_last() =~= a + b.drop_last());
        assert((a + b).last() == b.last());
        match spec_visit_items(entries, name, stack, base, a) {
            Ok(pa) => match spec_visit_items(entries, name, stack, base, b.drop_last()) {
                Ok(pf) => match spec_visit_item(entries, name, stack, base, b.last()) {
                    Ok(pl) => assert(pa + pf + pl =~= pa + (pf + pl)),
                    Err(_) => {},
                },
                Err(_) => {},
            },
            Err(_) => {},
        }
    }
}

/// What each sort of item gives, visited with `stack.len()` passes: an
/// `extern crate`, a `use` and an item with nothing declared inside stand as
/// they are, with that many passes; a module with content opens, holds the
/// pieces of its items and closes; a module without content opens, holds
/// what its file gives and closes; an item with items declared inside opens,
/// holds their pieces and closes.
pub proof fn lemma_visit_item_shapes(
    entries: Seq<SourceEntry>,
    name: Seq<char>,
    stack: Seq<Seq<char>>,
    base: Seq<char>,
    item: Item,
)
    ensures
        item matches Item::ExternCrate { syntax, .. } ==> spec_visit_item(
            entries,
            name,
            stack,
            base,
            item,
        ) == Ok::<Seq<Piece>, HaltView>(seq![Piece::Item { syntax, passes: stack.len() as usize }]),
        item matches Item::Use { syntax, .. } ==> spec_visit_item(
            entries,
            name,
            stack,
            base,
            item,
        ) == Ok::<Seq<Piece>, HaltView>(seq![Piece::Item { syntax, passes: stack.len() as usize }]),
        item matches Item::Other { syntax, nested } ==> nested.len() == 0 ==> spec_visit_item(
            entries,
            name,
            stack,
            base,
            item,
        ) == Ok::<Seq<Piece>, HaltView>(seq![Piece::Item { syntax, passes: stack.len() as usize }]),
        item matches Item::Other { syntax, nested } ==> nested.len() > 0 ==> spec_visit_item(
            entries,
            name,
            stack,
            base,
            item,
        ) == match spec_visit_items(entries, name, stack, base, nested@) {
            Ok(p) => Ok::<Seq<Piece>, HaltView>(
                seq![Piece::OpenItem { syntax, passes: stack.len() as usize }] + p + seq![
                    Piece::CloseItem,
                ],
            ),
            Err(h) => Err::<Seq<Piece>, HaltView>(h),
        },
        item matches Item::Mod { syntax, content: Some(items), .. } ==> spec_visit_item(
            entries,
            name,
            stack,
            base,
            item,
        ) == match spec_visit_items(entries, name, stack, base, items@) {
            Ok(p) => Ok::<Seq<Piece>, HaltView>(
                seq![Piece::OpenMod { syntax, passes: stack.len() as usize }] + p + seq![
                    Piece::CloseMod,
                ],
            ),
            Err(h) => Err::<Seq<Piece>, HaltView>(h),
        },
        item matches Item::Mod { name: m, syntax, content: None } ==> match spec_expand_mods(
            entries,
            name,
            stack,
            base,
            m@,
            None,
        ) {
            Ok(Some(p)) => spec_visit_item(entries, name, stack, base, item) == Ok::<
                Seq<Piece>,
                HaltView,
            >(
                seq![Piece::OpenMod { syntax, passes: stack.len() as usize }] + p + seq![
                    Piece::CloseMod,
                ],
            ),
            Ok(None) => false,
            Err(h) => spec_visit_item(entries, name, stack, base, item) == Err::<
                Seq<Piece>,
                HaltView,
            >(h),
        },
{
}

/// The pieces of a file: one note for each `extern crate` of the crate
/// among its items, each naming `base/lib.rs`, then the pieces of its items
/// once the library is spliced in and the crate's `use` items are gone.
pub proof fn lemma_visit_file_shape(
    entries: Seq<SourceEntry>,
    name: Seq<char>,
    stack: Seq<Seq<char>>,
    base: Seq<char>,
    items: Seq<Item>,
)
    ensures
        spec_visit_file(entries, name, stack, base, items) == match spec_expand_items(
            entries,
            name,
            base,
            items,
        ) {
            Ok(expanded) => match spec_visit_items(entries, name, stack, base, expanded) {
                Ok(p) => Ok::<Seq<Piece>, HaltView>(
                    Seq::new(
                        items.filter(
                            |it: Item| it matches Item::ExternCrate { name: n, .. } && n@ == name,
                        ).len(),
                        |i: int|
                            Piece::LibInlined {
                                entry: source_index(entries, lib_rs_in(base)) as usize,
                            },
                    ) + p,
                ),
                Err(h) => Err::<Seq<Piece>, HaltView>(h),
            },
            Err(h) => Err::<Seq<Piece>, HaltView>(h),
        },
{
    assert(spec_lib_location(base) =~= lib_rs_in(base));
    lemma_count_extern_crate_filter(items, name);
}

proof fn lemma_count_extern_crate_filter(items: Seq<Item>, name: Seq<char>)
    ensures
        count_extern_crate(items, name) == items.filter(
            |it: Item| it matches Item::ExternCrate { name: n, .. } && n@ == name,
        ).len(),
    decreases items.len(),
{
    let pred = |it: Item| it matches Item::ExternCrate { name: n, .. } && n@ == name;
    if items.len() == 0 {
        assert(items.filter(pred) =~= Seq::<Item>::empty());
    } else {
        lemma_count_extern_crate_filter(items.drop_last(), name);
        assert(items.drop_last().push(items.last()) =~= items);
        items.drop_last().lemma_filter_push(items.last(), pred);
    }
}

/// With `base/lib.rs` not read yet, a list that holds an `extern crate` of
/// the crate asks for it; once it is recorded as unreadable or unparsable,
/// the list cannot be expanded, for that reason.
pub proof fn lemma_extern_crate_needs_lib(
    entries: Seq<SourceEntry>,
    name: Seq<char>,
    base: Seq<char>,
    items: Seq<Item>,
    i: int,
)
    requires
        0 <= i < items.len(),
        items[i] matches Item::ExternCrate { name: n, .. } && n@ == name,
    ensures
        source_at(entries, lib_rs_in(base)) is None ==> spec_expand_extern_crate(
            entries,
            name,
            base,
            items,
        ) == Err::<Seq<Item>, HaltView>(HaltView::NeedFile(lib_rs_in(base))),
        source_at(entries, lib_rs_in(base)) == Some(SourceState::Unreadable)
            ==> spec_expand_extern_crate(entries, name, base, items) == Err::<Seq<Item>, HaltView>(
            HaltView::Failed(BundleErrorView::LibUnreadable(lib_rs_in(base))),
        ),
        source_at(entries, lib_rs_in(base)) == Some(SourceState::Unparsable)
            ==> spec_expand_extern_crate(entries, name, base, items) == Err::<Seq<Item>, HaltView>(
            HaltView::Failed(BundleErrorView::LibUnparsable(lib_rs_in(base))),
        ),
{
    assert(spec_lib_location(base) =~= lib_rs_in(base));
    assert(spec_is_extern_crate(items[i], name));
}

} // verus!
