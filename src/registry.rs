//! The registry: its configuration, the tracked entries, and the lookups over them.
use vstd::prelude::*;
use crate::paths::{absolute_of, get_true_path, home_view, join_path, joined, str_eq};

verus! {

/// One tracked file or directory.
#[derive(Debug, Clone)]
pub struct Entry {
    /// The entry's name, which is also its file name inside the store.
    pub name: String,
    /// Where the entry came from, in portable form.
    pub host_path: String,
    /// Tags for selecting entries in bulk.
    pub categories: Vec<String>,
}

/// What an entry holds, as plain values.
pub struct EntryView {
    pub name: Seq<char>,
    pub host_path: Seq<char>,
    pub categories: Seq<Seq<char>>,
}

pub open spec fn strings_view(v: Seq<String>) -> Seq<Seq<char>> {
    v.map_values(|s: String| s@)
}

pub open spec fn entries_view(v: Seq<Entry>) -> Seq<EntryView> {
    v.map_values(|e: Entry| e@)
}

impl View for Entry {
    type V = EntryView;

    open spec fn view(&self) -> EntryView {
        EntryView {
            name: self.name@,
            host_path: self.host_path@,
            categories: strings_view(self.categories@),
        }
    }
}

/// The registry's settings, both paths in portable form.
#[derive(Debug, Clone)]
pub struct TroveConfig {
    /// Where the registry file lives.
    pub path: String,
    /// The directory that holds the entries' contents.
    pub store_path: String,
}

/// The registry: its settings and the tracked entries.
#[derive(Debug, Clone)]
pub struct Trove {
    pub config: TroveConfig,
    pub entries: Vec<Entry>,
}

pub struct TroveView {
    pub path: Seq<char>,
    pub store_path: Seq<char>,
    pub entries: Seq<EntryView>,
}

impl View for Trove {
    type V = TroveView;

    open spec fn view(&self) -> TroveView {
        TroveView {
            path: self.config.path@,
            store_path: self.config.store_path@,
            entries: entries_view(self.entries@),
        }
    }
}

/// Why a command could not do its work.
#[derive(Debug, Clone, Copy, PartialEq, Eq, Structural)]
pub enum TroveError {
    /// No registry could be located.
    NotInitialized,
    /// The registry's contents cannot be read, or break its invariant.
    CorruptRegistry,
    /// A path given does not lead to anything.
    PathNotFound,
    /// An entry of that name is already tracked.
    DuplicateName,
    /// An entry at that path is already tracked.
    DuplicatePath,
    /// Selectors that exclude each other were given together, or none was given.
    AmbiguousSelector,
    /// No entry fits the name or path given.
    EntryNotFound,
    /// No entry carries the category given.
    NoMatchingEntries,
    /// A file system step failed after the checks had passed.
    SyncFailure,
}

/// Where an entry lives on the host, resolved under `home`.
pub open spec fn resolved_host(e: EntryView, home: Option<Seq<char>>) -> Seq<char> {
    absolute_of(e.host_path, home)
}

/// Where the entry `name` lives inside the store `store_path`, resolved under `home`.
pub open spec fn store_location(
    store_path: Seq<char>,
    name: Seq<char>,
    home: Option<Seq<char>>,
) -> Seq<char> {
    absolute_of(joined(store_path, name), home)
}

/// No two entries share a name.
pub open spec fn names_unique(s: Seq<EntryView>) -> bool {
    forall|i: int, j: int|
        #![trigger s[i], s[j]]
        0 <= i < j < s.len() ==> s[i].name != s[j].name
}

/// No two entries resolve to the same host path.
pub open spec fn hosts_unique(s: Seq<EntryView>, home: Option<Seq<char>>) -> bool {
    forall|i: int, j: int|
        #![trigger s[i], s[j]]
        0 <= i < j < s.len() ==> resolved_host(s[i], home) != resolved_host(s[j], home)
}

impl TroveView {
    /// The registry's invariant: names and resolved host paths are unique.
    pub open spec fn wf(self, home: Option<Seq<char>>) -> bool {
        names_unique(self.entries) && hosts_unique(self.entries, home)
    }
}

/// What an entry is looked up by.
pub enum Key {
    /// Its name.
    Name(Seq<char>),
    /// Its location inside the store.
    Stored { store_path: Seq<char>, location: Seq<char>, home: Option<Seq<char>> },
    /// All of its fields.
    Exact(EntryView),
}

pub open spec fn key_matches(e: EntryView, key: Key) -> bool {
    match key {
        Key::Name(n) => e.name == n,
        Key::Stored { store_path, location, home } => store_location(store_path, e.name, home)
            == location,
        Key::Exact(x) => e == x,
    }
}

/// The index of the first entry of `s` that `key` fits.
pub open spec fn first_index(s: Seq<EntryView>, key: Key) -> Option<int>
    decreases s.len(),
{
    if s.len() == 0 {
        None
    } else if key_matches(s[0], key) {
        Some(0)
    } else {
        match first_index(s.drop_first(), key) {
            Some(k) => Some(k + 1),
            None => None,
        }
    }
}

/// The first entry of `s` that `key` fits.
pub open spec fn first_match(s: Seq<EntryView>, key: Key) -> Option<EntryView> {
    match first_index(s, key) {
        Some(k) => Some(s[k]),
        None => None,
    }
}

pub open spec fn entry_opt_view(r: Option<Entry>) -> Option<EntryView> {
    match r {
        Some(e) => Some(e@),
        None => None,
    }
}

/// The entries of `s` that carry the category `c`, in their order.
pub open spec fn tagged(s: Seq<EntryView>, c: Seq<char>) -> Seq<EntryView>
    decreases s.len(),
{
    if s.len() == 0 {
        s
    } else if s.last().categories.contains(c) {
        tagged(s.drop_last(), c).push(s.last())
    } else {
        tagged(s.drop_last(), c)
    }
}

pub proof fn lemma_first_index(s: Seq<EntryView>, key: Key)
    ensures
        match first_index(s, key) {
            Some(k) => 0 <= k < s.len() && key_matches(s[k], key) && forall|j: int|
                0 <= j < k ==> !key_matches(#[trigger] s[j], key),
            None => forall|j: int| 0 <= j < s.len() ==> !key_matches(#[trigger] s[j], key),
        },
    decreases s.len(),
{
    if s.len() > 0 && !key_matches(s[0], key) {
        lemma_first_index(s.drop_first(), key);
        assert forall|j: int| 1 <= j < s.len() implies s[j] == s.drop_first()[j - 1] by {}
    }
}

/// `k` is the first index that `key` fits.
pub proof fn lemma_first_index_is(s: Seq<EntryView>, key: Key, k: int)
    requires
        0 <= k < s.len(),
        key_matches(s[k], key),
        forall|j: int| 0 <= j < k ==> !key_matches(#[trigger] s[j], key),
    ensures
        first_index(s, key) == Some(k),
{
    lemma_first_index(s, key);
}

/// A copy of `s`, character for character.
fn copy_string(s: &String) -> (r: String)
    ensures
        r@ == s@,
{
    s.clone()
}

impl Entry {
    /// A copy of this entry, field for field.
    pub fn copy(&self) -> (r: Entry)
        ensures
            r@ == self@,
    {
        let mut cats: Vec<String> = Vec::new();
        let mut i: usize = 0;
        while i < self.categories.len()
            invariant
                i <= self.categories.len(),
                cats@.len() == i,
                forall|j: int| 0 <= j < i ==> (#[trigger] cats@[j])@ == self.categories@[j]@,
            decreases self.categories.len() - i,
        {
            cats.push(copy_string(&self.categories[i]));
            i = i + 1;
        }
        assert(strings_view(cats@) =~= strings_view(self.categories@));
        Entry { name: copy_string(&self.name), host_path: copy_string(&self.host_path), categories: cats }
    }

    /// Whether this entry carries the category `category`.
    pub fn has_category(&self, category: &str) -> (r: bool)
        ensures
            r == self@.categories.contains(category@),
    {
        let mut i: usize = 0;
        while i < self.categories.len()
            invariant
                i <= self.categories.len(),
                forall|j: int| 0 <= j < i ==> self.categories@[j]@ != category@,
            decreases self.categories.len() - i,
        {
            if str_eq(self.categories[i].as_str(), category) {
                assert(self@.categories[i as int] == category@);
                return true;
            }
            i = i + 1;
        }
        assert forall|j: int| 0 <= j < self@.categories.len() implies self@.categories[j] != category@ by {
            assert(self@.categories[j] == self.categories@[j]@);
        }
        false
    }
}

impl Trove {
    /// The first entry named `name`.
    pub fn find_entry_by_name(&self, name: &str) -> (r: Option<Entry>)
        ensures
            entry_opt_view(r) == first_match(self@.entries, Key::Name(name@)),
    {
        match self.index_by_name(name) {
            Some(k) => Some(self.entries[k].copy()),
            None => None,
        }
    }

    /// The index of the first entry named `name`.
    pub(crate) fn index_by_name(&self, name: &str) -> (r: Option<usize>)
        ensures
            match r {
                Some(k) => k < self.entries.len() && first_index(self@.entries, Key::Name(name@))
                    == Some(k as int),
                None => first_index(self@.entries, Key::Name(name@)) is None,
            },
    {
        let ghost s = self@.entries;
        let ghost key = Key::Name(name@);
        let mut i: usize = 0;
        while i < self.entries.len()
            invariant
                s == self@.entries,
                key == Key::Name(name@),
                i <= self.entries.len(),
                forall|j: int| 0 <= j < i ==> !key_matches(#[trigger] s[j], key),
            decreases self.entries.len() - i,
        {
            if str_eq(self.entries[i].name.as_str(), name) {
                proof {
                    lemma_first_index_is(s, key, i as int);
                }
                return Some(i);
            }
            i = i + 1;
        }
        proof {
            lemma_first_index(s, key);
        }
        None
    }

    /// Where the entry `name` lives inside the store, resolved under `home`.
    pub fn store_location_of(&self, name: &str, home: Option<&str>) -> (r: String)
        ensures
            r@ == store_location(self@.store_path, name@, home_view(home)),
    {
        let joined = join_path(self.config.store_path.as_str(), name);
        get_true_path(joined.as_str(), home)
    }

    /// The index of the first entry whose location inside the store is `path`.
    pub(crate) fn index_by_path(&self, path: &str, home: Option<&str>) -> (r: Option<usize>)
        ensures
            match r {
                Some(k) => k < self.entries.len() && first_index(
                    self@.entries,
                    Key::Stored { store_path: self@.store_path, location: path@, home: home_view(home) },
                ) == Some(k as int),
                None => first_index(
                    self@.entries,
                    Key::Stored { store_path: self@.store_path, location: path@, home: home_view(home) },
                ) is None,
            },
    {
        let ghost s = self@.entries;
        let ghost key = Key::Stored { store_path: self@.store_path, location: path@, home: home_view(home) };
        let mut i: usize = 0;
        while i < self.entries.len()
            invariant
                s == self@.entries,
                key == (Key::Stored { store_path: self@.store_path, location: path@, home: home_view(home) }),
                i <= self.entries.len(),
                forall|j: int| 0 <= j < i ==> !key_matches(#[trigger] s[j], key),
            decreases self.entries.len() - i,
        {
            let loc = self.store_location_of(self.entries[i].name.as_str(), home);
            if str_eq(loc.as_str(), path) {
                proof {
                    lemma_first_index_is(s, key, i as int);
                }
                return Some(i);
            }
            i = i + 1;
        }
        proof {
            lemma_first_index(s, key);
        }
        None
    }

    /// The first entry whose location inside the store, resolved under `home`, is
    /// `path`: the entry that a link at its host path leads to.
    pub fn find_entry_by_path(&self, path: &str, home: Option<&str>) -> (r: Option<Entry>)
        ensures
            entry_opt_view(r) == first_match(
                self@.entries,
                Key::Stored { store_path: self@.store_path, location: path@, home: home_view(home) },
            ),
    {
        match self.index_by_path(path, home) {
            Some(k) => Some(self.entries[k].copy()),
            None => None,
        }
    }

    /// The entries that carry `category`, in their order; `None` where there are none.
    pub fn find_entry_by_category(&self, category: &str) -> (r: Option<Vec<Entry>>)
        ensures
            match r {
                Some(v) => entries_view(v@) == tagged(self@.entries, category@) && v@.len() > 0,
                None => tagged(self@.entries, category@).len() == 0,
            },
    {
        let ghost s = self@.entries;
        let mut out: Vec<Entry> = Vec::new();
        let mut i: usize = 0;
        while i < self.entries.len()
            invariant
                s == self@.entries,
                i <= self.entries.len(),
                entries_view(out@) == tagged(s.take(i as int), category@),
            decreases self.entries.len() - i,
        {
            assert(s.take(i + 1).drop_last() =~= s.take(i as int));
            if self.entries[i].has_category(category) {
                out.push(self.entries[i].copy());
            }
            assert(entries_view(out@) =~= tagged(s.take(i + 1), category@));
            i = i + 1;
        }
        assert(s.take(i as int) =~= s);
        if out.len() == 0 {
            None
        } else {
            Some(out)
        }
    }
}

} // verus!
