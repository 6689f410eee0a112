//! The items of a Rust source file, as far as bundling reads them, and the
//! tests that bundling makes of items and paths.
use vstd::prelude::*;
use vstd::string::*;

verus! {

/// An item of a source file.
///
/// `syntax` identifies the item's own syntax tree, which the caller keeps;
/// bundling decides where each tree goes and how often the crate prefix is
/// stripped from the paths in it, and never looks inside it.
#[derive(Debug)]
pub enum Item {
    /// `extern crate name;` (with any attributes, visibility or rename).
    ExternCrate { name: String, syntax: u64 },
    /// A `use` item; `root` is the first identifier when the tree is a path
    /// such as `a::...`, and absent for `use a;`, `use {..}` or `use *`.
    Use { root: Option<String>, syntax: u64 },
    /// `mod name;` (no content) or `mod name { .. }`; `syntax` is the module
    /// item without its content.
    Mod { name: String, syntax: u64, content: Option<Vec<Item>> },
    /// Any other item; `nested` are the items declared inside it (in the
    /// bodies of functions, constants and the like), in the order in which a
    /// visit of its syntax tree meets them, each without the items nested in
    /// it, which it holds itself.
    Other { syntax: u64, nested: Vec<Item> },
}

/// A parsed source file: its inner attributes and its items.
pub struct SourceFile {
    pub attrs: u64,
    pub items: Vec<Item>,
}

/// `item` is `extern crate crate_name`.
pub open spec fn spec_is_extern_crate(item: Item, crate_name: Seq<char>) -> bool {
    match item {
        Item::ExternCrate { name, .. } => name@ == crate_name,
        _ => false,
    }
}

/// `item` is a `use` whose tree is a path starting with `first_segment`.
pub open spec fn spec_is_use_path(item: Item, first_segment: Seq<char>) -> bool {
    match item {
        Item::Use { root: Some(root), .. } => root@ == first_segment,
        _ => false,
    }
}

/// The path with these segments starts with `segment`.
pub open spec fn spec_path_starts_with(segments: Seq<String>, segment: Seq<char>) -> bool {
    segments.len() > 0 && segments[0]@ == segment
}

/// How many leading segments equal `name`.
pub open spec fn leading_run(segments: Seq<String>, name: Seq<char>) -> nat
    decreases segments.len(),
{
    if spec_path_starts_with(segments, name) {
        1 + leading_run(segments.drop_first(), name)
    } else {
        0
    }
}

/// How many leading segments `passes` visits of the crate prefix remove:
/// each visit removes the first segment if it names the crate.
pub open spec fn stripped(segments: Seq<String>, name: Seq<char>, passes: nat) -> nat
    decreases passes,
{
    if passes > 0 && spec_path_starts_with(segments, name) {
        1 + stripped(segments.drop_first(), name, (passes - 1) as nat)
    } else {
        0
    }
}

/// Two strings are equal, character by character.
pub fn str_eq(a: &str, b: &str) -> (r: bool)
    ensures
        r == (a@ == b@),
{
    let n = a.unicode_len();
    let m = b.unicode_len();
    if n != m {
        return false;
    }
    let mut i: usize = 0;
    while i < n
        invariant
            n == a@.len(),
            m == b@.len(),
            n == m,
            i <= n,
            forall|j: int| 0 <= j < i ==> a@[j] == b@[j],
        decreases n - i,
    {
        if a.get_char(i) != b.get_char(i) {
            return false;
        }
        i = i + 1;
    }
    assert(a@ =~= b@);
    true
}

/// Tells whether `item` is `extern crate crate_name`.
pub fn is_extern_crate(item: &Item, crate_name: &str) -> (r: bool)
    ensures
        r == spec_is_extern_crate(*item, crate_name@),
        r <==> (item matches Item::ExternCrate { name, .. } && name@ == crate_name@),
{
    match item {
        Item::ExternCrate { name, .. } => str_eq(name.as_str(), crate_name),
        _ => false,
    }
}

/// Tells whether the path with these segments starts with `segment`.
pub fn path_starts_with(segments: &Vec<String>, segment: &str) -> (r: bool)
    ensures
        r == spec_path_starts_with(segments@, segment@),
        r <==> (segments.len() > 0 && segments@[0]@ == segment@),
{
    if segments.len() > 0 {
        str_eq(segments[0].as_str(), segment)
    } else {
        false
    }
}

/// Tells whether `item` is a `use` whose tree is a path starting with
/// `first_segment`.
pub fn is_use_path(item: &Item, first_segment: &str) -> (r: bool)
    ensures
        r == spec_is_use_path(*item, first_segment@),
        r <==> (item matches Item::Use { root: Some(root), .. } && root@ == first_segment@),
{
    match item {
        Item::Use { root: Some(root), .. } => str_eq(root.as_str(), first_segment),
        _ => false,
    }
}

/// `stripped` stops at the first segment that does not name the crate, and
/// after `passes` segments.
pub proof fn lemma_stripped_is_min(segments: Seq<String>, name: Seq<char>, passes: nat)
    ensures
        stripped(segments, name, passes) == if passes < leading_run(segments, name) {
            passes
        } else {
            leading_run(segments, name)
        },
        stripped(segments, name, passes) <= segments.len(),
    decreases passes,
{
    if passes > 0 && spec_path_starts_with(segments, name) {
        lemma_stripped_is_min(segments.drop_first(), name, (passes - 1) as nat);
    }
}

/// Stripping the crate prefix `p1` times and then `p2` times removes as
/// many segments as stripping it `p1 + p2` times.
pub proof fn lemma_stripped_compose(segments: Seq<String>, name: Seq<char>, p1: nat, p2: nat)
    ensures
        stripped(segments, name, p1) + stripped(
            segments.skip(stripped(segments, name, p1) as int),
            name,
            p2,
        ) == stripped(segments, name, p1 + p2),
    decreases p1,
{
    if p1 > 0 && spec_path_starts_with(segments, name) {
        lemma_stripped_compose(segments.drop_first(), name, (p1 - 1) as nat, p2);
        lemma_stripped_is_min(segments, name, p1);
        let k = stripped(segments.drop_first(), name, (p1 - 1) as nat);
        lemma_stripped_is_min(segments.drop_first(), name, (p1 - 1) as nat);
        assert(segments.drop_first().skip(k as int) =~= segments.skip((k + 1) as int));
    } else {
        assert(segments.skip(0) =~= segments);
    }
}

/// Once the crate prefix has been stripped with passes to spare, the path no
/// longer starts with the crate's name.
pub proof fn lemma_stripped_exhausts(segments: Seq<String>, name: Seq<char>, passes: nat)
    requires
        stripped(segments, name, passes) < passes,
    ensures
        !spec_path_starts_with(segments.skip(stripped(segments, name, passes) as int), name),
    decreases passes,
{
    if passes > 0 && spec_path_starts_with(segments, name) {
        lemma_stripped_exhausts(segments.drop_first(), name, (passes - 1) as nat);
        lemma_stripped_is_min(segments.drop_first(), name, (passes - 1) as nat);
        let k = stripped(segments.drop_first(), name, (passes - 1) as nat);
        assert(segments.drop_first().skip(k as int) =~= segments.skip((k + 1) as int));
    } else {
        assert(segments.skip(0) =~= segments);
    }
}

/// An item is `extern crate` of a crate exactly when it is an `extern crate`
/// item that names that crate; an `extern crate` of another crate is not.
pub proof fn lemma_extern_crate_names_the_crate(item: Item, crate_name: Seq<char>)
    ensures
        spec_is_extern_crate(item, crate_name) ==> item is ExternCrate,
        item matches Item::ExternCrate { name, .. } ==> (spec_is_extern_crate(item, crate_name)
            <==> name@ == crate_name),
{
}

/// A `use` is one of the crate exactly when its path starts with the crate's
/// name: a `use` of any other root (`self`, `super`, `std`, another crate),
/// a `use` that is not a path, and every item that is not a `use` are not.
pub proof fn lemma_use_path_names_the_crate(item: Item, crate_name: Seq<char>)
    ensures
        spec_is_use_path(item, crate_name) ==> item is Use,
        item matches Item::Use { root: None, .. } ==> !spec_is_use_path(item, crate_name),
        item matches Item::Use { root: Some(r), .. } ==> (spec_is_use_path(item, crate_name)
            <==> r@ == crate_name),
{
}

/// A path starts with a name exactly when it has a first segment and that
/// segment is the name.
pub proof fn lemma_path_starts_with_first_segment(segments: Seq<String>, name: Seq<char>)
    ensures
        spec_path_starts_with(segments, name) <==> (segments.len() > 0 && segments[0]@ == name),
{
}

/// Stripping the crate prefix `passes` times removes at most `passes`
/// segments, only segments that are the crate's name, and stops early only
/// at a segment that is not the crate's name (or at the end of the path).
pub proof fn lemma_stripped_only_crate_segments(segments: Seq<String>, name: Seq<char>, passes: nat)
    ensures
        stripped(segments, name, passes) <= passes,
        stripped(segments, name, passes) <= segments.len(),
        forall|k: int| 0 <= k < stripped(segments, name, passes) ==> #[trigger] segments[k]@ == name,
        stripped(segments, name, passes) < passes && stripped(segments, name, passes)
            < segments.len() ==> segments[stripped(segments, name, passes) as int]@ != name,
    decreases passes,
{
    if passes > 0 && segments.len() > 0 && segments[0]@ == name {
        let rest = segments.drop_first();
        lemma_stripped_only_crate_segments(rest, name, (passes - 1) as nat);
        let r = stripped(rest, name, (passes - 1) as nat);
        assert(stripped(segments, name, passes) == 1 + r);
        assert forall|k: int| 0 <= k < 1 + r implies #[trigger] segments[k]@ == name by {
            if k > 0 {
                assert(segments[k] == rest[k - 1]);
            }
        }
        if 1 + r < passes && 1 + r < segments.len() {
            assert(segments[1 + r as int] == rest[r as int]);
        }
    }
}

/// How many leading segments of a path are removed when the crate prefix is
/// stripped `passes` times: each time, a first segment that names the crate
/// is dropped.
pub fn crate_prefix_len(segments: &Vec<String>, crate_name: &str, passes: usize) -> (r: usize)
    ensures
        r == stripped(segments@, crate_name@, passes as nat),
        r <= passes,
        forall|k: int| 0 <= k < r ==> #[trigger] segments@[k]@ == crate_name@,
        r < passes && r < segments.len() ==> segments@[r as int]@ != crate_name@,
{
    let mut k: usize = 0;
    proof {
        lemma_stripped_only_crate_segments(segments@, crate_name@, passes as nat);
        lemma_stripped_is_min(segments@, crate_name@, passes as nat);
        assert(segments@.skip(0) =~= segments@);
    }
    while k < passes && k < segments.len() && str_eq(segments[k].as_str(), crate_name)
        invariant
            k <= passes,
            k <= segments.len(),
            stripped(segments@, crate_name@, passes as nat) == k + stripped(
                segments@.skip(k as int),
                crate_name@,
                (passes - k) as nat,
            ),
        decreases passes - k,
    {
        assert(segments@.skip(k as int).drop_first() =~= segments@.skip(k + 1));
        assert(segments@.skip(k as int)[0] == segments@[k as int]);
        k = k + 1;
    }
    proof {
        if k < segments.len() {
            assert(segments@.skip(k as int)[0] == segments@[k as int]);
        }
    }
    k
}

} // verus!
