//! The discovery engine: the entries of a corpus directory, each under its
//! name, beside the chapter that was asked for.

use vstd::prelude::*;
use vstd::string::*;

use crate::args::Args;
use crate::strings::chars_of;
use crate::text::{root_ends_in_slash, Text};

verus! {

/// One entry of a corpus directory: its name and its full path.
#[derive(Debug)]
pub struct Entry {
    pub name: String,
    pub path: String,
}

/// The entries found in the directory of a corpus, in the order in which they
/// were listed, with the corpus and the chapter they were listed for.
#[derive(Debug)]
pub struct Engine {
    pub src: Text,
    pub chapter: i32,
    pub store: Vec<Entry>,
}

/// The names of a listing, each kept where it first occurs.
pub open spec fn distinct(names: Seq<Seq<char>>) -> Seq<Seq<char>>
    decreases names.len(),
{
    if names.len() == 0 {
        Seq::empty()
    } else {
        let before = distinct(names.drop_last());
        if before.contains(names.last()) {
            before
        } else {
            before.push(names.last())
        }
    }
}

/// Whether no name occurs twice.
pub open spec fn unique(names: Seq<Seq<char>>) -> bool {
    forall|i: int, j: int| 0 <= i < j < names.len() ==> names[i] != names[j]
}

/// The full path of the entry of a given name in the directory at a given
/// location: the location, a slash where the location is not empty and does
/// not end in one, and the name.
pub open spec fn joined(loc: Seq<char>, name: Seq<char>) -> Seq<char> {
    if loc.len() == 0 || loc.last() == '/' {
        loc + name
    } else {
        loc + seq!['/'] + name
    }
}

/// What the listing of the directory at a location comes to: each name that
/// is listed, with its full path.
pub open spec fn entries(loc: Seq<char>, listing: Seq<Seq<char>>) -> Map<Seq<char>, Seq<char>> {
    Map::new(|name: Seq<char>| listing.contains(name), |name: Seq<char>| joined(loc, name))
}

/// The names of the entries of a store, in order.
pub open spec fn names_of(store: Seq<Entry>) -> Seq<Seq<char>> {
    Seq::new(store.len(), |i: int| store[i].name@)
}

/// Whether each entry of a store has as its path the full path of its name in
/// the directory at the given location.
pub open spec fn rooted(store: Seq<Entry>, loc: Seq<char>) -> bool {
    forall|i: int|
        0 <= i < store.len() ==> (#[trigger] store[i]).path@ == joined(loc, store[i].name@)
}

/// The mapping that a store holds: from the name of each entry to the path
/// that is stored with it.
pub open spec fn map_of(store: Seq<Entry>) -> Map<Seq<char>, Seq<char>> {
    Map::new(
        |name: Seq<char>| names_of(store).contains(name),
        |name: Seq<char>| store[names_of(store).index_of(name)].path@,
    )
}

impl Engine {
    /// The names of the entries, in order.
    pub open spec fn names(&self) -> Seq<Seq<char>> {
        names_of(self.store@)
    }

    /// No name occurs twice, and the path of each entry is its full path in
    /// the directory of the corpus.
    pub open spec fn wf(&self) -> bool {
        &&& unique(self.names())
        &&& rooted(self.store@, self.src.root())
    }

    /// The mapping from the name of each entry to its full path.
    pub open spec fn lookup(&self) -> Map<Seq<char>, Seq<char>> {
        map_of(self.store@)
    }

    /// Builds the engine for a configuration from the names that the
    /// directory of its corpus lists. The entries stand in the order of the
    /// listing; a name that was listed before is passed over. An empty
    /// listing gives an empty store.
    pub fn new(a: &Args, listing: &Vec<String>) -> (e: Engine)
        ensures
            e.wf(),
            e.src == a.src,
            e.chapter == a.chapter,
            e.names() == distinct(listing.deep_view()),
            unique(listing.deep_view()) ==> e.names() == listing.deep_view(),
            forall|name: Seq<char>|
                e.names().contains(name) <==> listing.deep_view().contains(name),
            e.lookup() == entries(a.src.root(), listing.deep_view()),
            forall|name: Seq<char>|
                listing.deep_view().contains(name) ==> e.lookup()[name] == a.src.root() + name,
    {
        let store = read_available_files(a.src.location(), listing);
        proof {
            distinct_is_unique(listing.deep_view());
            distinct_of_unique(listing.deep_view());
            assert forall|name: Seq<char>|
                names_of(store@).contains(name) <==> listing.deep_view().contains(name) by {
                distinct_keeps_members(listing.deep_view(), name);
            }
        }
        Engine { src: a.src, chapter: a.chapter, store }
    }

    /// The full path of the entry of the given name, if there is one.
    pub fn path_of(&self, name: &str) -> (found: Option<&String>)
        requires
            self.wf(),
        ensures
            found is Some <==> self.names().contains(name@),
            found is Some ==> found.unwrap()@ == self.src.root() + name@,
            found is Some ==> self.lookup()[name@] == found.unwrap()@,
    {
        let wanted = name.to_owned();
        let mut i: usize = 0;
        while i < self.store.len()
            invariant
                i <= self.store.len(),
                self.wf(),
                wanted@ == name@,
                forall|k: int| 0 <= k < i ==> self.names()[k] != name@,
            decreases self.store.len() - i,
        {
            if self.store[i].name == wanted {
                proof {
                    root_ends_in_slash(self.src);
                    assert(self.names()[i as int] == name@);
                    map_of_unique(self.store@, i as int);
                }
                return Some(&self.store[i].path);
            }
            i += 1;
        }
        None
    }
}

/// Turns the listing of the directory at a location into a store: one entry
/// for each name, where the name first occurs, with its full path.
pub fn read_available_files(loc: &str, listing: &Vec<String>) -> (store: Vec<Entry>)
    ensures
        names_of(store@) == distinct(listing.deep_view()),
        rooted(store@, loc@),
        map_of(store@) == entries(loc@, listing.deep_view()),
{
    let needs_slash = !ends_in_slash(loc);
    let mut store: Vec<Entry> = Vec::new();
    let mut i: usize = 0;
    while i < listing.len()
        invariant
            i <= listing.len(),
            needs_slash == !(loc@.len() == 0 || loc@.last() == '/'),
            names_of(store@) == distinct(listing.deep_view().take(i as int)),
            rooted(store@, loc@),
        decreases listing.len() - i,
    {
        let name = &listing[i];
        proof {
            let upto = listing.deep_view().take(i + 1);
            assert(upto.drop_last() == listing.deep_view().take(i as int));
        }
        if !holds(&store, name) {
            let mut path = loc.to_owned();
            if needs_slash {
                proof {
                    reveal_strlit("/");
                }
                path.append("/");
                assert(path@ == loc@ + seq!['/']);
            }
            path.append(name.as_str());
            store.push(Entry { name: name.clone(), path });
        }
        i += 1;
    }
    proof {
        assert(listing.deep_view().take(listing.len() as int) == listing.deep_view());
        map_of_rooted(store@, loc@, listing.deep_view());
    }
    store
}

/// Whether a location is empty or ends in a slash, so that a name follows it
/// directly.
fn ends_in_slash(loc: &str) -> (b: bool)
    ensures
        b == (loc@.len() == 0 || loc@.last() == '/'),
{
    let chars = chars_of(loc);
    chars.len() == 0 || chars[chars.len() - 1] == '/'
}

/// Whether a store holds an entry of the given name.
fn holds(store: &Vec<Entry>, name: &String) -> (found: bool)
    ensures
        found == names_of(store@).contains(name@),
{
    let mut i: usize = 0;
    while i < store.len()
        invariant
            i <= store.len(),
            forall|k: int| 0 <= k < i ==> names_of(store@)[k] != name@,
        decreases store.len() - i,
    {
        if store[i].name == *name {
            assert(names_of(store@)[i as int] == name@);
            return true;
        }
        i += 1;
    }
    false
}

/// No name occurs twice among the names kept.
pub proof fn distinct_is_unique(names: Seq<Seq<char>>)
    ensures
        unique(distinct(names)),
    decreases names.len(),
{
    if names.len() > 0 {
        distinct_is_unique(names.drop_last());
    }
}

/// A name is kept exactly if it was listed.
pub proof fn distinct_keeps_members(names: Seq<Seq<char>>, name: Seq<char>)
    ensures
        distinct(names).contains(name) <==> names.contains(name),
    decreases names.len(),
{
    if names.len() > 0 {
        let front = names.drop_last();
        distinct_keeps_members(front, name);
        distinct_keeps_members(front, names.last());
        if names.contains(name) {
            let i = choose|i: int| 0 <= i < names.len() && names[i] == name;
            if i < names.len() - 1 {
                assert(front[i] == name);
            }
        }
        if !distinct(front).contains(names.last()) {
            let kept = distinct(front).push(names.last());
            assert(kept[kept.len() - 1] == names.last());
            if distinct(front).contains(name) {
                let i = choose|i: int| 0 <= i < distinct(front).len() && distinct(front)[i] == name;
                assert(kept[i] == name);
            }
        }
    }
}

/// A listing in which no name occurs twice is kept as it is.
pub proof fn distinct_of_unique(names: Seq<Seq<char>>)
    ensures
        unique(names) ==> distinct(names) == names,
    decreases names.len(),
{
    if names.len() > 0 && unique(names) {
        let front = names.drop_last();
        distinct_of_unique(front);
        distinct_keeps_members(front, names.last());
    }
}

/// In a store without a repeated name, the mapping gives for the name of
/// each entry the path stored with it.
proof fn map_of_unique(store: Seq<Entry>, i: int)
    requires
        unique(names_of(store)),
        0 <= i < store.len(),
    ensures
        map_of(store).dom().contains(store[i].name@),
        map_of(store)[store[i].name@] == store[i].path@,
{
    let names = names_of(store);
    assert(names[i] == store[i].name@);
    let k = names.index_of(store[i].name@);
    assert(names[k] == names[i]);
    if k < i {
        assert(names[k] != names[i]);
    }
    if i < k {
        assert(names[i] != names[k]);
    }
}

/// A store that holds the names of a listing, each once and with its full
/// path, holds the mapping that the listing comes to.
proof fn map_of_rooted(store: Seq<Entry>, loc: Seq<char>, listing: Seq<Seq<char>>)
    requires
        names_of(store) == distinct(listing),
        rooted(store, loc),
    ensures
        map_of(store) == entries(loc, listing),
{
    distinct_is_unique(listing);
    assert forall|name: Seq<char>|
        names_of(store).contains(name) <==> listing.contains(name) by {
        distinct_keeps_members(listing, name);
    }
    assert forall|name: Seq<char>| names_of(store).contains(name) implies map_of(store)[name]
        == joined(loc, name) by {
        let i = choose|i: int| 0 <= i < store.len() && names_of(store)[i] == name;
        map_of_unique(store, i);
    }
    assert(map_of(store) =~= entries(loc, listing));
}

/// The entries do not depend on the order of the listing: two listings of
/// the same names come to the same mapping from names to full paths, and to
/// stores of the same size.
pub proof fn entries_ignore_order(loc: Seq<char>, first: Seq<Seq<char>>, second: Seq<Seq<char>>)
    requires
        forall|name: Seq<char>| first.contains(name) <==> second.contains(name),
    ensures
        entries(loc, first) == entries(loc, second),
        distinct(first).len() == distinct(second).len(),
{
    assert(entries(loc, first) =~= entries(loc, second));
    let a = distinct(first);
    let b = distinct(second);
    distinct_is_unique(first);
    distinct_is_unique(second);
    assert(a.no_duplicates());
    assert(b.no_duplicates());
    a.unique_seq_to_set();
    b.unique_seq_to_set();
    assert forall|name: Seq<char>| a.to_set().contains(name) <==> b.to_set().contains(name) by {
        distinct_keeps_members(first, name);
        distinct_keeps_members(second, name);
    }
    assert(a.to_set() =~= b.to_set());
}

} // verus!
