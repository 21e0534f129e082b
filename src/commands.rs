//! What each command decides: which entries it touches, how the registry changes,
//! and which file system steps it asks for.
use vstd::prelude::*;
use crate::paths::{get_relative_path, get_true_path, home_view, join_path, joined, portable_of};
use crate::registry::{
    entries_view, first_index, key_matches, lemma_first_index, resolved_host, store_location,
    strings_view, tagged, Entry, EntryView, Key, Trove, TroveConfig, TroveError, TroveView,
};
use crate::tags::{parse_categories, tags_of};

verus! {

/// The two places of one entry: where it sits on the host, and where its contents
/// sit inside the store. Both are resolved paths.
#[derive(Debug, Clone)]
pub struct Placement {
    pub host: String,
    pub stored: String,
}

pub struct PlacementView {
    pub host: Seq<char>,
    pub stored: Seq<char>,
}

impl View for Placement {
    type V = PlacementView;

    open spec fn view(&self) -> PlacementView {
        PlacementView { host: self.host@, stored: self.stored@ }
    }
}

pub open spec fn opt_str_view(o: Option<String>) -> Option<Seq<char>> {
    match o {
        Some(s) => Some(s@),
        None => None,
    }
}

pub open spec fn placements_view(v: Seq<Placement>) -> Seq<PlacementView> {
    v.map_values(|p: Placement| p@)
}

/// The places of the entry `e` of the registry `t`.
pub open spec fn placement_of(t: TroveView, e: EntryView, home: Option<Seq<char>>) -> PlacementView {
    PlacementView { host: resolved_host(e, home), stored: store_location(t.store_path, e.name, home) }
}

/// The places of each entry of `s`, in their order.
pub open spec fn placements(t: TroveView, s: Seq<EntryView>, home: Option<Seq<char>>) -> Seq<
    PlacementView,
> {
    s.map_values(|e: EntryView| placement_of(t, e, home))
}

/// A new registry rooted at the directory `root`: its file `trove.conf` and its
/// store `store` lie there, both paths in portable form; no entries.
pub open spec fn created(root: Seq<char>, home: Option<Seq<char>>) -> TroveView {
    TroveView {
        path: portable_of(joined(root, seq!['t', 'r', 'o', 'v', 'e', '.', 'c', 'o', 'n', 'f']), home),
        store_path: portable_of(joined(root, seq!['s', 't', 'o', 'r', 'e']), home),
        entries: Seq::empty(),
    }
}

/// The entry that adding `path` under `name` with the category text `cats` creates.
pub open spec fn new_entry(
    path: Seq<char>,
    name: Seq<char>,
    cats: Option<Seq<char>>,
    home: Option<Seq<char>>,
) -> EntryView {
    EntryView {
        name,
        host_path: portable_of(path, home),
        categories: match cats {
            Some(c) => tags_of(c),
            None => Seq::empty(),
        },
    }
}

/// Some entry of `t` resolves to the host path `resolved`, or lives in the store at `path`.
pub open spec fn path_taken(
    t: TroveView,
    path: Seq<char>,
    resolved: Seq<char>,
    home: Option<Seq<char>>,
) -> bool {
    exists|i: int|
        0 <= i < t.entries.len() && (resolved_host(#[trigger] t.entries[i], home) == resolved
            || store_location(t.store_path, t.entries[i].name, home) == path)
}

/// What adding the file at the absolute path `path` under `name` does to `t`: the
/// registry afterwards, and the places between which the file moves.
pub open spec fn added(
    t: TroveView,
    path: Seq<char>,
    name: Seq<char>,
    cats: Option<Seq<char>>,
    home: Option<Seq<char>>,
) -> Result<(TroveView, PlacementView), TroveError> {
    let e = new_entry(path, name, cats, home);
    if first_index(t.entries, Key::Name(name)) is Some {
        Err(TroveError::DuplicateName)
    } else if path_taken(t, path, resolved_host(e, home), home) {
        Err(TroveError::DuplicatePath)
    } else {
        Ok(
            (
                TroveView { path: t.path, store_path: t.store_path, entries: t.entries.push(e) },
                PlacementView { host: path, stored: store_location(t.store_path, name, home) },
            ),
        )
    }
}

/// The index of the entry that the selectors of `remove` pick out.
pub open spec fn removal_index(
    t: TroveView,
    path: Option<Seq<char>>,
    name: Option<Seq<char>>,
    home: Option<Seq<char>>,
) -> Option<int> {
    match (path, name) {
        (None, Some(n)) => first_index(t.entries, Key::Name(n)),
        (Some(p), None) => first_index(
            t.entries,
            Key::Stored { store_path: t.store_path, location: p, home },
        ),
        _ => None,
    }
}

/// What removing the entry named `name`, or the one whose store location is `path`,
/// does to `t`: the registry afterwards, and the places between which the file moves back.
pub open spec fn removed(
    t: TroveView,
    path: Option<Seq<char>>,
    name: Option<Seq<char>>,
    home: Option<Seq<char>>,
) -> Result<(TroveView, PlacementView), TroveError> {
    if path is Some == name is Some {
        Err(TroveError::AmbiguousSelector)
    } else {
        match removal_index(t, path, name, home) {
            Some(k) => Ok(
                (
                    TroveView {
                        path: t.path,
                        store_path: t.store_path,
                        entries: t.entries.remove(k),
                    },
                    placement_of(t, t.entries[k], home),
                ),
            ),
            None => Err(TroveError::EntryNotFound),
        }
    }
}

/// The entries that `deploy` and `pack` act on: all of them, the one named, or
/// those that carry the category.
pub open spec fn selection(
    t: TroveView,
    category: Option<Seq<char>>,
    name: Option<Seq<char>>,
) -> Result<Seq<EntryView>, TroveError> {
    match (category, name) {
        (None, None) => Ok(t.entries),
        (None, Some(n)) => match first_index(t.entries, Key::Name(n)) {
            Some(k) => Ok(seq![t.entries[k]]),
            None => Err(TroveError::EntryNotFound),
        },
        (Some(c), None) => if tagged(t.entries, c).len() > 0 {
            Ok(tagged(t.entries, c))
        } else {
            Err(TroveError::NoMatchingEntries)
        },
        (Some(_), Some(_)) => Err(TroveError::AmbiguousSelector),
    }
}

/// The places of the entries that the selectors pick out.
pub open spec fn plan(
    t: TroveView,
    category: Option<Seq<char>>,
    name: Option<Seq<char>>,
    home: Option<Seq<char>>,
) -> Result<Seq<PlacementView>, TroveError> {
    match selection(t, category, name) {
        Ok(s) => Ok(placements(t, s, home)),
        Err(e) => Err(e),
    }
}

pub open spec fn plan_view(r: Result<Vec<Placement>, TroveError>) -> Result<
    Seq<PlacementView>,
    TroveError,
> {
    match r {
        Ok(v) => Ok(placements_view(v@)),
        Err(e) => Err(e),
    }
}

/// Removing one entry keeps names and resolved host paths unique.
proof fn lemma_remove_keeps_wf(s: Seq<EntryView>, k: int, home: Option<Seq<char>>)
    requires
        0 <= k < s.len(),
        crate::registry::names_unique(s),
        crate::registry::hosts_unique(s, home),
    ensures
        crate::registry::names_unique(s.remove(k)),
        crate::registry::hosts_unique(s.remove(k), home),
{
    let r = s.remove(k);
    assert forall|i: int| 0 <= i < r.len() implies #[trigger] r[i] == (if i < k {
        s[i]
    } else {
        s[i + 1]
    }) by {}
}

/// Adding keeps names and resolved host paths unique: over any sequence of adds the
/// registry never holds two entries with one name or one resolved host path, and an
/// add that would bring such a pair is refused with the registry unchanged.
pub proof fn lemma_add_keeps_wf(
    t: TroveView,
    path: Seq<char>,
    name: Seq<char>,
    cats: Option<Seq<char>>,
    home: Option<Seq<char>>,
)
    requires
        t.wf(home),
    ensures
        match added(t, path, name, cats, home) {
            Ok((grown, _)) => grown.wf(home) && grown.entries.len() == t.entries.len() + 1,
            Err(e) => (e == TroveError::DuplicateName && first_index(t.entries, Key::Name(name))
                is Some) || (e == TroveError::DuplicatePath && path_taken(
                t,
                path,
                resolved_host(new_entry(path, name, cats, home), home),
                home,
            )),
        },
{
    lemma_first_index(t.entries, Key::Name(name));
    if let Ok((grown, _)) = added(t, path, name, cats, home) {
        let e = new_entry(path, name, cats, home);
        assert(grown.entries == t.entries.push(e));
        assert forall|i: int| 0 <= i < t.entries.len() implies #[trigger] grown.entries[i]
            == t.entries[i] && t.entries[i].name != name && resolved_host(t.entries[i], home)
            != resolved_host(e, home) by {
            assert(!key_matches(t.entries[i], Key::Name(name)));
        }
    }
}

/// Whether `a` and `b` name the same categories in the same order.
fn strings_eq(a: &Vec<String>, b: &Vec<String>) -> (r: bool)
    ensures
        r == (strings_view(a@) == strings_view(b@)),
{
    if a.len() != b.len() {
        assert(strings_view(a@).len() != strings_view(b@).len());
        return false;
    }
    let mut i: usize = 0;
    while i < a.len()
        invariant
            a.len() == b.len(),
            i <= a.len(),
            forall|j: int| 0 <= j < i ==> (#[trigger] a@[j])@ == b@[j]@,
        decreases a.len() - i,
    {
        if !crate::paths::str_eq(a[i].as_str(), b[i].as_str()) {
            assert(strings_view(a@)[i as int] != strings_view(b@)[i as int]);
            return false;
        }
        i = i + 1;
    }
    assert(strings_view(a@) =~= strings_view(b@));
    true
}

/// Whether `a` and `b` agree in every field.
fn entry_eq(a: &Entry, b: &Entry) -> (r: bool)
    ensures
        r == (a@ == b@),
{
    crate::paths::str_eq(a.name.as_str(), b.name.as_str()) && crate::paths::str_eq(
        a.host_path.as_str(),
        b.host_path.as_str(),
    ) && strings_eq(&a.categories, &b.categories)
}

impl Trove {
    /// A new, empty registry rooted at the directory `root`.
    pub fn create(root: &str, home: Option<&str>) -> (r: Trove)
        ensures
            r@ == created(root@, home_view(home)),
            r@.wf(home_view(home)),
    {
        proof {
            reveal_strlit("trove.conf");
            reveal_strlit("store");
            assert("trove.conf"@ == seq!['t', 'r', 'o', 'v', 'e', '.', 'c', 'o', 'n', 'f']);
            assert("store"@ == seq!['s', 't', 'o', 'r', 'e']);
        }
        let conf = join_path(root, "trove.conf");
        let store = join_path(root, "store");
        let t = Trove {
            config: TroveConfig {
                path: get_relative_path(conf.as_str(), home),
                store_path: get_relative_path(store.as_str(), home),
            },
            entries: Vec::new(),
        };
        assert(t@.entries =~= Seq::<EntryView>::empty());
        assert(t@ == created(root@, home_view(home)));
        t
    }

    /// The places of the entry `e` of this registry.
    pub fn placement(&self, e: &Entry, home: Option<&str>) -> (r: Placement)
        ensures
            r@ == placement_of(self@, e@, home_view(home)),
    {
        Placement {
            host: get_true_path(e.host_path.as_str(), home),
            stored: self.store_location_of(e.name.as_str(), home),
        }
    }

    /// Whether some entry resolves to the host path `resolved` or lives in the store
    /// at `path`.
    fn path_is_taken(&self, path: &str, resolved: &str, home: Option<&str>) -> (r: bool)
        ensures
            r == path_taken(self@, path@, resolved@, home_view(home)),
    {
        let mut i: usize = 0;
        while i < self.entries.len()
            invariant
                i <= self.entries.len(),
                forall|j: int|
                    0 <= j < i ==> !(resolved_host(#[trigger] self@.entries[j], home_view(home))
                        == resolved@ || store_location(
                        self@.store_path,
                        self@.entries[j].name,
                        home_view(home),
                    ) == path@),
            decreases self.entries.len() - i,
        {
            let e = &self.entries[i];
            let p = self.placement(e, home);
            if crate::paths::str_eq(p.host.as_str(), resolved) || crate::paths::str_eq(
                p.stored.as_str(),
                path,
            ) {
                assert(self@.entries[i as int] == e@);
                return true;
            }
            i = i + 1;
        }
        false
    }

    /// Checks that the file at the absolute path `path` may be tracked under `name`:
    /// neither the name nor the path is tracked yet.
    fn check_add(&self, path: &str, name: &str, categories: &Option<String>, home: Option<&str>) -> (r:
        Result<(), TroveError>)
        ensures
            match added(self@, path@, name@, opt_str_view(*categories), home_view(home)) {
                Ok(_) => r is Ok,
                Err(e) => r == Err::<(), TroveError>(e),
            },
    {
        if self.find_entry_by_name(name).is_some() {
            return Err(TroveError::DuplicateName);
        }
        let host_path = get_relative_path(path, home);
        let resolved = get_true_path(host_path.as_str(), home);
        if self.path_is_taken(path, resolved.as_str(), home) {
            return Err(TroveError::DuplicatePath);
        }
        proof {
            lemma_first_index(self@.entries, Key::Name(name@));
        }
        Ok(())
    }

    /// Starts tracking the file at the absolute path `path` under `name`, with the
    /// categories named by the comma-separated text `categories`. A name or a path
    /// that is already tracked is refused, and the registry is then left as it was.
    /// The file is to be in the store already: `add_command` says where it goes.
    pub fn add_entry(
        &mut self,
        path: &str,
        name: &str,
        categories: &Option<String>,
        home: Option<&str>,
    ) -> (r: Result<(), TroveError>)
        ensures
            old(self)@.wf(home_view(home)) ==> final(self)@.wf(home_view(home)),
            match added(old(self)@, path@, name@, opt_str_view(*categories), home_view(home)) {
                Ok((t, _)) => r is Ok && final(self)@ == t,
                Err(e) => r == Err::<(), TroveError>(e) && final(self)@ == old(self)@,
            },
    {
        if let Err(e) = self.check_add(path, name, categories, home) {
            return Err(e);
        }
        let cats = match categories {
            Some(c) => parse_categories(c.as_str()),
            None => Vec::new(),
        };
        let ghost cats_view = match categories {
            Some(c) => tags_of(c@),
            None => Seq::<Seq<char>>::empty(),
        };
        assert(strings_view(cats@) =~= cats_view);
        let host_path = get_relative_path(path, home);
        let entry = Entry { name: name.to_owned(), host_path, categories: cats };
        let ghost before = self@;
        proof {
            lemma_first_index(before.entries, Key::Name(name@));
        }
        self.entries.push(entry);
        assert(self@.entries =~= before.entries.push(entry@));
        Ok(())
    }

    /// The first step of `add`: checks that the file at the absolute path `path` may
    /// be tracked under `name`, and gives the places between which it is to move. The
    /// registry is not changed: the caller moves the file from the host place to the
    /// store place and links it back, and only once both steps succeed records the
    /// entry with `add_entry` and saves the registry.
    pub fn add_command(
        &self,
        path: &str,
        name: &str,
        categories: &Option<String>,
        home: Option<&str>,
    ) -> (r: Result<Placement, TroveError>)
        ensures
            match added(self@, path@, name@, opt_str_view(*categories), home_view(home)) {
                Ok((_, p)) => r is Ok && r->Ok_0@ == p,
                Err(e) => r == Err::<Placement, TroveError>(e),
            },
    {
        match self.check_add(path, name, categories, home) {
            Ok(()) => {
                let stored = self.store_location_of(name, home);
                Ok(Placement { host: path.to_owned(), stored })
            },
            Err(e) => Err(e),
        }
    }

    /// Stops tracking the first entry equal to `entry`, if there is one.
    pub fn remove_entry(&mut self, entry: &Entry)
        ensures
            final(self)@.path == old(self)@.path,
            final(self)@.store_path == old(self)@.store_path,
            match first_index(old(self)@.entries, Key::Exact(entry@)) {
                Some(k) => final(self)@.entries == old(self)@.entries.remove(k),
                None => final(self)@.entries == old(self)@.entries,
            },
            forall|h: Option<Seq<char>>| #[trigger] old(self)@.wf(h) ==> final(self)@.wf(h),
    {
        let ghost s = self@.entries;
        let ghost key = Key::Exact(entry@);
        let mut i: usize = 0;
        while i < self.entries.len()
            invariant
                s == self@.entries,
                self@ == old(self)@,
                key == Key::Exact(entry@),
                i <= self.entries.len(),
                forall|j: int| 0 <= j < i ==> !key_matches(#[trigger] s[j], key),
            decreases self.entries.len() - i,
        {
            if entry_eq(&self.entries[i], entry) {
                proof {
                    assert(s[i as int] == self.entries@[i as int]@);
                    crate::registry::lemma_first_index_is(s, key, i as int);
                    assert forall|h: Option<Seq<char>>| #[trigger] old(self)@.wf(h) implies (
                    TroveView {
                        path: old(self)@.path,
                        store_path: old(self)@.store_path,
                        entries: s.remove(i as int),
                    }).wf(h) by {
                        lemma_remove_keeps_wf(s, i as int, h);
                    }
                }
                self.entries.remove(i);
                assert(self@.entries =~= s.remove(i as int));
                return ;
            }
            i = i + 1;
        }
        proof {
            lemma_first_index(s, key);
        }
    }
}


/// Every pair of entries of `s` differs in name and in resolved host path.
fn entries_unique(entries: &Vec<Entry>, home: Option<&str>) -> (r: bool)
    ensures
        r == (crate::registry::names_unique(entries_view(entries@))
            && crate::registry::hosts_unique(entries_view(entries@), home_view(home))),
{
    let ghost s = entries_view(entries@);
    let ghost h = home_view(home);
    let mut i: usize = 0;
    while i < entries.len()
        invariant
            s == entries_view(entries@),
            h == home_view(home),
            i <= entries.len(),
            forall|a: int, b: int|
                #![trigger s[a], s[b]]
                0 <= a < b < i ==> s[a].name != s[b].name && resolved_host(s[a], h)
                    != resolved_host(s[b], h),
        decreases entries.len() - i,
    {
        let host_i = get_true_path(entries[i].host_path.as_str(), home);
        let mut j: usize = 0;
        while j < i
            invariant
                s == entries_view(entries@),
                h == home_view(home),
                i < entries.len(),
                j <= i,
                host_i@ == resolved_host(s[i as int], h),
                forall|a: int, b: int|
                    #![trigger s[a], s[b]]
                    0 <= a < b < i ==> s[a].name != s[b].name && resolved_host(s[a], h)
                        != resolved_host(s[b], h),
                forall|a: int|
                    0 <= a < j ==> (#[trigger] s[a]).name != s[i as int].name && resolved_host(
                        s[a],
                        h,
                    ) != resolved_host(s[i as int], h),
            decreases i - j,
        {
            let host_j = get_true_path(entries[j].host_path.as_str(), home);
            if crate::paths::str_eq(entries[j].name.as_str(), entries[i].name.as_str())
                || crate::paths::str_eq(host_j.as_str(), host_i.as_str()) {
                assert(s[j as int].name == s[i as int].name || resolved_host(s[j as int], h)
                    == resolved_host(s[i as int], h));
                return false;
            }
            j = j + 1;
        }
        i = i + 1;
    }
    true
}

impl Trove {
    /// A registry made of `config` and `entries`, as read back from its file. Entries
    /// that repeat a name or a resolved host path make it corrupt.
    pub fn from_parts(config: TroveConfig, entries: Vec<Entry>, home: Option<&str>) -> (r: Result<
        Trove,
        TroveError,
    >)
        ensures
            match r {
                Ok(t) => t@ == (TroveView {
                    path: config.path@,
                    store_path: config.store_path@,
                    entries: entries_view(entries@),
                }) && t@.wf(home_view(home)),
                Err(e) => e == TroveError::CorruptRegistry && !(TroveView {
                    path: config.path@,
                    store_path: config.store_path@,
                    entries: entries_view(entries@),
                }).wf(home_view(home)),
            },
    {
        if entries_unique(&entries, home) {
            Ok(Trove { config, entries })
        } else {
            Err(TroveError::CorruptRegistry)
        }
    }

    /// The places of each entry of `es`, in their order.
    fn placements_of(&self, es: &Vec<Entry>, home: Option<&str>) -> (r: Vec<Placement>)
        ensures
            placements_view(r@) == placements(self@, entries_view(es@), home_view(home)),
    {
        let mut out: Vec<Placement> = Vec::new();
        let mut i: usize = 0;
        while i < es.len()
            invariant
                i <= es.len(),
                out@.len() == i,
                forall|j: int|
                    0 <= j < i ==> (#[trigger] out@[j])@ == placement_of(
                        self@,
                        es@[j]@,
                        home_view(home),
                    ),
            decreases es.len() - i,
        {
            out.push(self.placement(&es[i], home));
            i = i + 1;
        }
        assert(placements_view(out@) =~= placements(self@, entries_view(es@), home_view(home)));
        out
    }

    /// The places of the entries that the selectors pick out.
    fn select_places(
        &self,
        category: &Option<String>,
        name: &Option<String>,
        home: Option<&str>,
    ) -> (r: Result<Vec<Placement>, TroveError>)
        ensures
            plan_view(r) == plan(self@, opt_str_view(*category), opt_str_view(*name), home_view(home)),
    {
        match (category, name) {
            (None, None) => {
                assert(entries_view(self.entries@) == self@.entries);
                Ok(self.placements_of(&self.entries, home))
            },
            (None, Some(n)) => match self.find_entry_by_name(n.as_str()) {
                Some(e) => {
                    proof {
                        lemma_first_index(self@.entries, Key::Name(n@));
                    }
                    let v = vec![e];
                    assert(entries_view(v@) =~= seq![e@]);
                    Ok(self.placements_of(&v, home))
                },
                None => Err(TroveError::EntryNotFound),
            },
            (Some(c), None) => match self.find_entry_by_category(c.as_str()) {
                Some(v) => Ok(self.placements_of(&v, home)),
                None => Err(TroveError::NoMatchingEntries),
            },
            (Some(_), Some(_)) => Err(TroveError::AmbiguousSelector),
        }
    }

    /// The links that `deploy` makes: for each selected entry, a link at its host place
    /// that leads to its store place. Making each link is left to the caller, who
    /// reports a link that cannot be made and goes on with the next.
    pub fn deploy_command(
        &self,
        category: &Option<String>,
        name: &Option<String>,
        home: Option<&str>,
    ) -> (r: Result<Vec<Placement>, TroveError>)
        ensures
            plan_view(r) == plan(self@, opt_str_view(*category), opt_str_view(*name), home_view(home)),
    {
        self.select_places(category, name, home)
    }

    /// The links that `pack` takes away: the one at the host place of each selected
    /// entry; the store is left as it is. A link that is already gone is no error.
    pub fn pack_command(
        &self,
        category: &Option<String>,
        name: &Option<String>,
        home: Option<&str>,
    ) -> (r: Result<Vec<Placement>, TroveError>)
        ensures
            plan_view(r) == plan(self@, opt_str_view(*category), opt_str_view(*name), home_view(home)),
    {
        self.select_places(category, name, home)
    }

    /// Stops tracking the entry named `name`, or the one whose store location is the
    /// resolved path `path`; exactly one of the two is given. The registry changes
    /// first; the caller then takes away the link at the returned host place and moves
    /// the file back there from the store place. On an error nothing changed.
    pub fn remove_command(
        &mut self,
        path: &Option<String>,
        name: &Option<String>,
        home: Option<&str>,
    ) -> (r: Result<Placement, TroveError>)
        ensures
            old(self)@.wf(home_view(home)) ==> final(self)@.wf(home_view(home)),
            match removed(old(self)@, opt_str_view(*path), opt_str_view(*name), home_view(home)) {
                Ok((t, p)) => r is Ok && r->Ok_0@ == p && final(self)@ == t,
                Err(e) => r == Err::<Placement, TroveError>(e) && final(self)@ == old(self)@,
            },
    {
        let ghost s = self@.entries;
        let ghost key = match (opt_str_view(*path), opt_str_view(*name)) {
            (Some(p), None) => Key::Stored {
                store_path: self@.store_path,
                location: p,
                home: home_view(home),
            },
            (_, Some(n)) => Key::Name(n),
            _ => Key::Name(Seq::empty()),
        };
        let found = match (path, name) {
            (None, Some(n)) => self.index_by_name(n.as_str()),
            (Some(p), None) => self.index_by_path(p.as_str(), home),
            _ => {
                return Err(TroveError::AmbiguousSelector);
            },
        };
        assert(removal_index(self@, opt_str_view(*path), opt_str_view(*name), home_view(home))
            == first_index(s, key));
        match found {
            None => Err(TroveError::EntryNotFound),
            Some(k) => {
                let e = self.entries[k].copy();
                let placement = self.placement(&e, home);
                proof {
                    lemma_first_index(s, key);
                    assert(s[k as int] == e@);
                    assert forall|j: int| 0 <= j < k implies !key_matches(
                        #[trigger] s[j],
                        Key::Exact(e@),
                    ) by {
                        if s[j] == e@ {
                            assert(key_matches(s[j], key));
                        }
                    }
                    crate::registry::lemma_first_index_is(s, Key::Exact(e@), k as int);
                }
                self.remove_entry(&e);
                Ok(placement)
            },
        }
    }
}

} // verus!
