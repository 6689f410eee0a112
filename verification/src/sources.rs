//! The files of a package that bundling has asked for, and where it looks
//! for them.
//!
//! A location is a path relative to the package's root directory, with `/`
//! between its components, such as `src/foo/mod.rs`.
use vstd::prelude::*;
use vstd::string::*;

use crate::syntax::SourceFile;

verus! {

/// What became of an attempt to read and parse a file.
pub enum SourceState {
    /// The file could not be opened or read.
    Unreadable,
    /// The file was read and is not a Rust source file.
    Unparsable,
    /// The file was read and parsed.
    Parsed(SourceFile),
}

/// A file at a location, and what reading it gave.
pub struct SourceEntry {
    pub location: String,
    pub state: SourceState,
}

/// The files read so far, in the order in which they were added.
pub struct Sources {
    pub entries: Vec<SourceEntry>,
}

impl View for Sources {
    type V = Seq<SourceEntry>;

    open spec fn view(&self) -> Seq<SourceEntry> {
        self.entries@
    }
}

/// What is known of the file at `location`: the first entry for it.
pub open spec fn source_at(entries: Seq<SourceEntry>, location: Seq<char>) -> Option<SourceState>
    decreases entries.len(),
{
    if entries.len() == 0 {
        None
    } else if entries[0].location@ == location {
        Some(entries[0].state)
    } else {
        source_at(entries.drop_first(), location)
    }
}

/// The place of the first entry for `location`, when there is one.
pub open spec fn source_index(entries: Seq<SourceEntry>, location: Seq<char>) -> int
    decreases entries.len(),
{
    if entries.len() == 0 {
        0
    } else if entries[0].location@ == location {
        0
    } else {
        1 + source_index(entries.drop_first(), location)
    }
}

/// How many entries are at a location outside `stack`.
pub open spec fn count_outside(entries: Seq<SourceEntry>, stack: Seq<Seq<char>>) -> nat
    decreases entries.len(),
{
    if entries.len() == 0 {
        0
    } else {
        (if stack.contains(entries[0].location@) {
            0nat
        } else {
            1nat
        }) + count_outside(entries.drop_first(), stack)
    }
}

/// Putting a location that has an entry on the stack leaves fewer entries
/// outside it.
pub proof fn lemma_count_outside_push(
    entries: Seq<SourceEntry>,
    stack: Seq<Seq<char>>,
    location: Seq<char>,
)
    requires
        source_at(entries, location) is Some,
        !stack.contains(location),
    ensures
        count_outside(entries, stack.push(location)) < count_outside(entries, stack),
    decreases entries.len(),
{
    lemma_count_outside_push_le(entries.drop_first(), stack, location);
    assert(stack.push(location).contains(location)) by {
        assert(stack.push(location)[stack.len() as int] == location);
    }
    let e = entries[0].location@;
    if e != location {
        lemma_count_outside_push(entries.drop_first(), stack, location);
        if stack.push(location).contains(e) {
            let j = choose|j: int| 0 <= j < stack.len() + 1 && stack.push(location)[j] == e;
            assert(j < stack.len());
            assert(stack[j] == e);
        }
        assert(stack.push(location).contains(e) == stack.contains(e)) by {
            if stack.contains(e) {
                let j = choose|j: int| 0 <= j < stack.len() && stack[j] == e;
                assert(stack.push(location)[j] == e);
            }
        }
        assert(count_outside(entries.drop_first(), stack.push(location)) < count_outside(entries.drop_first(), stack));
    } else {
        assert(!stack.contains(e));
        assert(count_outside(entries.drop_first(), stack.push(location)) <= count_outside(entries.drop_first(), stack));
    }
    assert(count_outside(entries, stack) == (if stack.contains(e) {
        0nat
    } else {
        1nat
    }) + count_outside(entries.drop_first(), stack));
    assert(count_outside(entries, stack.push(location)) == (if stack.push(location).contains(e) {
        0nat
    } else {
        1nat
    }) + count_outside(entries.drop_first(), stack.push(location)));
}

/// Putting any location on the stack leaves no more entries outside it.
pub proof fn lemma_count_outside_push_le(
    entries: Seq<SourceEntry>,
    stack: Seq<Seq<char>>,
    location: Seq<char>,
)
    ensures
        count_outside(entries, stack.push(location)) <= count_outside(entries, stack),
    decreases entries.len(),
{
    if entries.len() > 0 {
        lemma_count_outside_push_le(entries.drop_first(), stack, location);
        if stack.contains(entries[0].location@) {
            let j = choose|j: int| 0 <= j < stack.len() && stack[j] == entries[0].location@;
            assert(stack.push(location)[j] == entries[0].location@);
        }
    }
}

/// Entries added after the first entry for a location do not change what is
/// known of it.
pub proof fn lemma_source_at_append(
    entries: Seq<SourceEntry>,
    more: Seq<SourceEntry>,
    location: Seq<char>,
)
    requires
        source_at(entries, location) is Some,
    ensures
        source_at(entries + more, location) == source_at(entries, location),
        source_index(entries + more, location) == source_index(entries, location),
    decreases entries.len(),
{
    assert((entries + more)[0] == entries[0]);
    if entries[0].location@ != location {
        assert((entries + more).drop_first() =~= entries.drop_first() + more);
        lemma_source_at_append(entries.drop_first(), more, location);
    }
}

/// After recording a file, what is known of a location is what was known
/// before, if anything was; else what was recorded, if it is at that
/// location; else nothing.
pub proof fn lemma_source_at_push(entries: Seq<SourceEntry>, entry: SourceEntry, location: Seq<char>)
    ensures
        source_at(entries.push(entry), location) == if source_at(entries, location) is Some {
            source_at(entries, location)
        } else if entry.location@ == location {
            Some(entry.state)
        } else {
            None
        },
    decreases entries.len(),
{
    if entries.len() == 0 {
        assert(entries.push(entry).drop_first() =~= Seq::<SourceEntry>::empty());
        assert(source_at(Seq::<SourceEntry>::empty(), location) is None);
        assert(entries.push(entry)[0] == entry);
    } else {
        assert(entries.push(entry)[0] == entries[0]);
        assert(entries.push(entry).drop_first() =~= entries.drop_first().push(entry));
        lemma_source_at_push(entries.drop_first(), entry, location);
    }
}

impl Sources {
    /// No file read yet.
    pub fn new() -> (r: Sources)
        ensures
            r@ == Seq::<SourceEntry>::empty(),
    {
        Sources { entries: Vec::new() }
    }

    /// Records what reading the file at `location` gave.
    pub fn insert(&mut self, location: String, state: SourceState)
        ensures
            final(self)@ == old(self)@.push(SourceEntry { location, state }),
    {
        self.entries.push(SourceEntry { location, state });
    }

    /// The place of the first entry for `location`, if there is one.
    pub fn position(&self, location: &String) -> (r: Option<usize>)
        ensures
            match r {
                Some(i) => source_at(self@, location@) is Some && i == source_index(
                    self@,
                    location@,
                ) && i < self@.len() && self@[i as int].location@ == location@
                    && source_at(self@, location@) == Some(self@[i as int].state),
                None => source_at(self@, location@) is None,
            },
    {
        let mut i: usize = 0;
        assert(self@.skip(0) =~= self@);
        while i < self.entries.len()
            invariant
                i <= self.entries.len(),
                source_at(self@, location@) == source_at(self@.skip(i as int), location@),
                source_index(self@, location@) == i + source_index(self@.skip(i as int), location@),
            decreases self.entries.len() - i,
        {
            assert(self@.skip(i as int)[0] == self@[i as int]);
            if self.entries[i].location == *location {
                return Some(i);
            }
            assert(self@.skip(i as int).drop_first() =~= self@.skip(i + 1));
            i = i + 1;
        }
        None
    }

    /// What is known of the file at `location`.
    pub fn get(&self, location: &String) -> (r: Option<&SourceState>)
        ensures
            match r {
                Some(s) => source_at(self@, location@) == Some(*s),
                None => source_at(self@, location@) is None,
            },
    {
        let mut i: usize = 0;
        assert(self@.skip(0) =~= self@);
        while i < self.entries.len()
            invariant
                i <= self.entries.len(),
                source_at(self@, location@) == source_at(self@.skip(i as int), location@),
            decreases self.entries.len() - i,
        {
            assert(self@.skip(i as int)[0] == self@[i as int]);
            if self.entries[i].location == *location {
                return Some(&self.entries[i].state);
            }
            assert(self@.skip(i as int).drop_first() =~= self@.skip(i + 1));
            i = i + 1;
        }
        None
    }
}

/// `base/name`.
pub open spec fn join(base: Seq<char>, name: Seq<char>) -> Seq<char> {
    base + seq!['/'] + name
}

/// The source directory of a package: `src`.
pub open spec fn spec_src_dir() -> Seq<char> {
    seq!['s', 'r', 'c']
}

/// The binary's root file: `src/main.rs`.
pub open spec fn spec_main_location() -> Seq<char> {
    join(spec_src_dir(), seq!['m', 'a', 'i', 'n', '.', 'r', 's'])
}

/// The library's root file in a directory: `base/lib.rs`.
pub open spec fn spec_lib_location(base: Seq<char>) -> Seq<char> {
    join(base, seq!['l', 'i', 'b', '.', 'r', 's'])
}

/// The first file that holds `mod name;` declared in directory `base`:
/// `base/name.rs`.
pub open spec fn spec_mod_file(base: Seq<char>, name: Seq<char>) -> Seq<char> {
    join(base, name + seq!['.', 'r', 's'])
}

/// The second file that holds `mod name;` declared in directory `base`:
/// `base/name/mod.rs`.
pub open spec fn spec_mod_dir_file(base: Seq<char>, name: Seq<char>) -> Seq<char> {
    join(join(base, name), seq!['m', 'o', 'd', '.', 'r', 's'])
}

/// `base/name`.
pub fn join_location(base: &String, name: &str) -> (r: String)
    ensures
        r@ == join(base@, name@),
{
    let mut r = base.clone();
    proof {
        reveal_strlit("/");
    }
    r.append("/");
    r.append(name);
    r
}

/// The source directory of a package: `src`.
pub fn src_dir() -> (r: String)
    ensures
        r@ == spec_src_dir(),
{
    proof {
        reveal_strlit("src");
    }
    String::from_str("src")
}

/// The binary's root file: `src/main.rs`.
pub fn main_location() -> (r: String)
    ensures
        r@ == spec_main_location(),
{
    proof {
        reveal_strlit("main.rs");
    }
    join_location(&src_dir(), "main.rs")
}

/// The library's root file in directory `base`: `base/lib.rs`.
pub fn lib_location(base: &String) -> (r: String)
    ensures
        r@ == spec_lib_location(base@),
{
    proof {
        reveal_strlit("lib.rs");
    }
    join_location(base, "lib.rs")
}

/// `base/name.rs`.
pub fn mod_file(base: &String, name: &String) -> (r: String)
    ensures
        r@ == spec_mod_file(base@, name@),
{
    let mut file = name.clone();
    proof {
        reveal_strlit(".rs");
    }
    file.append(".rs");
    join_location(base, file.as_str())
}

/// `base/name/mod.rs`.
pub fn mod_dir_file(base: &String, name: &String) -> (r: String)
    ensures
        r@ == spec_mod_dir_file(base@, name@),
{
    proof {
        reveal_strlit("mod.rs");
    }
    join_location(&join_location(base, name.as_str()), "mod.rs")
}

} // verus!
