//! A model of the host file system and of the steps that the commands ask of it:
//! moving a file, making a link, taking a link away. Each step that cannot be done
//! leaves the file system as it was, as the failing system call does.
use vstd::prelude::*;
use crate::commands::{added, placement_of, plan, removed, PlacementView};
use crate::paths::{home_token, lemma_portable_round_trip};
use crate::registry::{first_index, lemma_first_index, lemma_first_index_is, Key, TroveView};

verus! {

/// What stands at a path: a real file or directory (told apart by an identity), or
/// a link to another path.
pub enum Node {
    Real(int),
    Link(Seq<char>),
}

/// Moves what stands at `from` to `to`; nothing happens where `from` is empty.
pub open spec fn rename(fs: Map<Seq<char>, Node>, from: Seq<char>, to: Seq<char>) -> Map<
    Seq<char>,
    Node,
> {
    if fs.contains_key(from) {
        fs.remove(from).insert(to, fs[from])
    } else {
        fs
    }
}

/// Makes a link at `at` to `target`; nothing happens where `at` is taken.
pub open spec fn make_link(fs: Map<Seq<char>, Node>, at: Seq<char>, target: Seq<char>) -> Map<
    Seq<char>,
    Node,
> {
    if fs.contains_key(at) {
        fs
    } else {
        fs.insert(at, Node::Link(target))
    }
}

/// Takes away the link at `at`; nothing happens where no link stands there.
pub open spec fn drop_link(fs: Map<Seq<char>, Node>, at: Seq<char>) -> Map<Seq<char>, Node> {
    if fs.contains_key(at) && fs[at] is Link {
        fs.remove(at)
    } else {
        fs
    }
}

/// What `add` does on disk: the file moves into the store, then a link takes its place.
pub open spec fn bring_into_store(fs: Map<Seq<char>, Node>, p: PlacementView) -> Map<
    Seq<char>,
    Node,
> {
    make_link(rename(fs, p.host, p.stored), p.host, p.stored)
}

/// What `remove` does on disk: the link goes, then the file moves back from the store.
pub open spec fn restore_from_store(fs: Map<Seq<char>, Node>, p: PlacementView) -> Map<
    Seq<char>,
    Node,
> {
    rename(drop_link(fs, p.host), p.stored, p.host)
}

/// What `deploy` does on disk: a link for each place, one after the other.
pub open spec fn deploy_all(fs: Map<Seq<char>, Node>, ps: Seq<PlacementView>) -> Map<
    Seq<char>,
    Node,
>
    decreases ps.len(),
{
    if ps.len() == 0 {
        fs
    } else {
        make_link(deploy_all(fs, ps.drop_last()), ps.last().host, ps.last().stored)
    }
}

/// What `pack` does on disk: the link at each host place goes, one after the other.
pub open spec fn pack_all(fs: Map<Seq<char>, Node>, ps: Seq<PlacementView>) -> Map<
    Seq<char>,
    Node,
>
    decreases ps.len(),
{
    if ps.len() == 0 {
        fs
    } else {
        drop_link(pack_all(fs, ps.drop_last()), ps.last().host)
    }
}

/// After a deploy something stands at every host place it names, and nothing that
/// stood before is gone.
proof fn lemma_deploy_fills(fs: Map<Seq<char>, Node>, ps: Seq<PlacementView>)
    ensures
        forall|i: int| 0 <= i < ps.len() ==> deploy_all(fs, ps).contains_key(#[trigger] ps[i].host),
        forall|k: Seq<char>| fs.contains_key(k) ==> #[trigger] deploy_all(fs, ps).contains_key(k),
    decreases ps.len(),
{
    if ps.len() > 0 {
        lemma_deploy_fills(fs, ps.drop_last());
        assert forall|i: int| 0 <= i < ps.len() implies deploy_all(fs, ps).contains_key(
            #[trigger] ps[i].host,
        ) by {
            if i < ps.len() - 1 {
                assert(ps.drop_last()[i] == ps[i]);
            }
        }
        assert forall|k: Seq<char>| fs.contains_key(k) implies #[trigger] deploy_all(
            fs,
            ps,
        ).contains_key(k) by {
            assert(deploy_all(fs, ps.drop_last()).contains_key(k));
        }
    }
}

/// A deploy whose host places are all taken changes nothing.
proof fn lemma_deploy_on_taken(fs: Map<Seq<char>, Node>, ps: Seq<PlacementView>)
    requires
        forall|i: int| 0 <= i < ps.len() ==> fs.contains_key(#[trigger] ps[i].host),
    ensures
        deploy_all(fs, ps) == fs,
    decreases ps.len(),
{
    if ps.len() > 0 {
        assert forall|i: int| 0 <= i < ps.drop_last().len() implies fs.contains_key(
            #[trigger] ps.drop_last()[i].host,
        ) by {
            assert(ps.drop_last()[i] == ps[i]);
        }
        lemma_deploy_on_taken(fs, ps.drop_last());
        assert(fs.contains_key(ps[ps.len() - 1].host));
    }
}

/// Deploying a list of places twice leaves the file system as deploying it once:
/// on the second pass every link that would be made finds its place taken.
pub proof fn lemma_deploy_idempotent(fs: Map<Seq<char>, Node>, ps: Seq<PlacementView>)
    ensures
        deploy_all(deploy_all(fs, ps), ps) == deploy_all(fs, ps),
{
    lemma_deploy_fills(fs, ps);
    lemma_deploy_on_taken(deploy_all(fs, ps), ps);
}

/// Calling `deploy` twice with the same selectors leaves the file system as calling
/// it once: the registry is not changed by a deploy, so both calls plan the same links.
pub proof fn lemma_deploy_command_idempotent(
    t: TroveView,
    category: Option<Seq<char>>,
    name: Option<Seq<char>>,
    home: Option<Seq<char>>,
    fs: Map<Seq<char>, Node>,
)
    requires
        plan(t, category, name, home) is Ok,
    ensures
        ({
            let ps = plan(t, category, name, home)->Ok_0;
            deploy_all(deploy_all(fs, ps), ps) == deploy_all(fs, ps)
        }),
{
    lemma_deploy_idempotent(fs, plan(t, category, name, home)->Ok_0);
}

/// Packing the entry `name` and then deploying it puts back the link that a deploy
/// had made at its host place: the file system is as before.
pub proof fn lemma_pack_then_deploy(
    t: TroveView,
    name: Seq<char>,
    home: Option<Seq<char>>,
    fs: Map<Seq<char>, Node>,
)
    requires
        plan(t, None, Some(name), home) is Ok,
        ({
            let p = plan(t, None, Some(name), home)->Ok_0[0];
            fs.contains_key(p.host) && fs[p.host] == Node::Link(p.stored)
        }),
    ensures
        ({
            let ps = plan(t, None, Some(name), home)->Ok_0;
            &&& ps.len() == 1
            &&& deploy_all(pack_all(fs, ps), ps) == fs
            &&& deploy_all(pack_all(fs, ps), ps)[ps[0].host] == Node::Link(ps[0].stored)
        }),
{
    let ps = plan(t, None, Some(name), home)->Ok_0;
    let p = ps[0];
    assert(ps.len() == 1);
    assert(ps.drop_last() =~= Seq::<PlacementView>::empty());
    assert(ps.last() == p);
    assert(pack_all(fs, ps.drop_last()) == fs);
    assert(deploy_all(fs.remove(p.host), ps.drop_last()) == fs.remove(p.host));
    assert(pack_all(fs, ps) == fs.remove(p.host));
    assert(deploy_all(pack_all(fs, ps), ps) == fs.remove(p.host).insert(p.host, Node::Link(p.stored)));
    assert(fs.remove(p.host).insert(p.host, Node::Link(p.stored)) =~= fs);
}

/// Adding the file at the absolute path `path` under a fresh `name` (the checks, the
/// move into the store and the link, then the new entry) and then removing the entry
/// `name` gives back the registry and puts the very file back at `path`, no longer
/// behind a link. Where nothing stood at the store place before, the whole file
/// system is as it was.
pub proof fn lemma_add_then_remove(
    t: TroveView,
    path: Seq<char>,
    name: Seq<char>,
    cats: Option<Seq<char>>,
    home: Option<Seq<char>>,
    fs: Map<Seq<char>, Node>,
)
    requires
        path.len() > 0 && path[0] == '/',
        added(t, path, name, cats, home) is Ok,
        fs.contains_key(path) && fs[path] is Real,
    ensures
        ({
            let (grown, placed) = added(t, path, name, cats, home)->Ok_0;
            let back = removed(grown, None, Some(name), home);
            &&& back is Ok
            &&& back->Ok_0.0 == t
            &&& back->Ok_0.1 == placed
            &&& first_index(back->Ok_0.0.entries, Key::Name(name)) is None
            &&& restore_from_store(bring_into_store(fs, placed), back->Ok_0.1).contains_key(path)
            &&& restore_from_store(bring_into_store(fs, placed), back->Ok_0.1)[path] == fs[path]
            &&& !fs.contains_key(placed.stored) ==> restore_from_store(
                bring_into_store(fs, placed),
                back->Ok_0.1,
            ) == fs
        }),
{
    let (grown, placed) = added(t, path, name, cats, home)->Ok_0;
    let s = t.entries;
    let e = grown.entries.last();
    lemma_first_index(s, Key::Name(name));
    assert(grown.entries == s.push(e));
    assert forall|j: int| 0 <= j < s.len() implies !crate::registry::key_matches(
        #[trigger] grown.entries[j],
        Key::Name(name),
    ) by {
        assert(grown.entries[j] == s[j]);
    }
    lemma_first_index_is(grown.entries, Key::Name(name), s.len() as int);
    assert(grown.entries.remove(s.len() as int) =~= s);
    if let Some(h) = home {
        assert(!crate::paths::has_prefix(path, home_token())) by {
            if home_token().len() <= path.len() {
                assert(path.subrange(0, 5)[0] == path[0]);
            }
        }
    }
    lemma_portable_round_trip(path, home);
    assert(placement_of(grown, e, home) == placed);
    let fs1 = rename(fs, placed.host, placed.stored);
    let fs2 = make_link(fs1, placed.host, placed.stored);
    if placed.stored == path {
        assert(fs1 =~= fs);
        assert(drop_link(fs2, path) == fs);
        assert(rename(fs, path, path) =~= fs);
    } else {
        assert(fs2 == fs1.insert(path, Node::Link(placed.stored)));
        assert(drop_link(fs2, path) =~= fs1);
        assert(rename(fs1, placed.stored, path) =~= fs.remove(placed.stored).insert(path, fs[path]));
        if !fs.contains_key(placed.stored) {
            assert(fs.remove(placed.stored).insert(path, fs[path]) =~= fs);
        }
    }
}

} // verus!
