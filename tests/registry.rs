use trove::commands::Placement;
use trove::paths::{get_relative_path, get_true_path, join_path};
use trove::registry::{Entry, Trove, TroveConfig, TroveError};
use trove::tags::parse_categories;

fn home() -> Option<&'static str> {
    Some("/home/u")
}

fn home_trove() -> Trove {
    Trove::create("/home/u/trove", home())
}

fn some(s: &str) -> Option<String> {
    Some(s.to_string())
}

fn entry(name: &str, host: &str, cats: &[&str]) -> Entry {
    Entry {
        name: name.to_string(),
        host_path: host.to_string(),
        categories: cats.iter().map(|c| c.to_string()).collect(),
    }
}

/// Plans the add, then records the entry, as a caller does once the file has moved.
fn add(t: &mut Trove, path: &str, name: &str, cats: &Option<String>) -> Result<Placement, TroveError> {
    let p = t.add_command(path, name, cats, home())?;
    t.add_entry(path, name, cats, home())?;
    Ok(p)
}

fn hosts(v: &[Placement]) -> Vec<String> {
    v.iter().map(|p| p.host.clone()).collect()
}

#[test]
fn create_lays_out_registry_under_root() {
    let t = Trove::create("/tmp/store-root", home());
    assert_eq!(t.config.path, "/tmp/store-root/trove.conf");
    assert_eq!(t.config.store_path, "/tmp/store-root/store");
    assert!(t.entries.is_empty());
}

#[test]
fn create_under_home_is_portable() {
    let t = home_trove();
    assert_eq!(t.config.path, "$HOME/trove/trove.conf");
    assert_eq!(t.config.store_path, "$HOME/trove/store");
}

#[test]
fn relative_path_replaces_leading_home() {
    assert_eq!(get_relative_path("/home/u/.vimrc", home()), "$HOME/.vimrc");
    assert_eq!(get_relative_path("/home/u", home()), "$HOME");
}

#[test]
fn relative_path_keeps_other_paths() {
    assert_eq!(get_relative_path("/etc/hosts", home()), "/etc/hosts");
    assert_eq!(get_relative_path("/x/home/u/y", home()), "/x/home/u/y");
    assert_eq!(get_relative_path("/home/u/.vimrc", None), "/home/u/.vimrc");
}

#[test]
fn true_path_expands_placeholder() {
    assert_eq!(get_true_path("$HOME/.vimrc", home()), "/home/u/.vimrc");
    assert_eq!(get_true_path("/etc/hosts", home()), "/etc/hosts");
    assert_eq!(get_true_path("$HOME/.vimrc", None), "$HOME/.vimrc");
}

#[test]
fn portable_round_trip_gives_path_back() {
    for p in ["/home/u/.config/nvim", "/etc/hosts", "/home/user2/x", "/"] {
        let portable = get_relative_path(p, home());
        assert_eq!(get_true_path(&portable, home()), p);
        assert_eq!(get_relative_path(&portable, home()), portable);
    }
}

#[test]
fn join_path_puts_separator() {
    assert_eq!(join_path("/a/store", "vimrc"), "/a/store/vimrc");
}

#[test]
fn categories_drop_empty_fields() {
    assert_eq!(parse_categories("a,,b,"), vec!["a".to_string(), "b".to_string()]);
    assert_eq!(parse_categories("shell"), vec!["shell".to_string()]);
    assert!(parse_categories("").is_empty());
    assert!(parse_categories(",,,").is_empty());
}

#[test]
fn add_moves_vimrc_into_store() {
    let mut t = home_trove();
    let p = add(&mut t, "/home/u/.vimrc", "vimrc", &None).unwrap();
    assert_eq!(p.host, "/home/u/.vimrc");
    assert_eq!(p.stored, "/home/u/trove/store/vimrc");
    let e = t.find_entry_by_name("vimrc").unwrap();
    assert_eq!(e.name, "vimrc");
    assert_eq!(e.host_path, "$HOME/.vimrc");
    assert!(e.categories.is_empty());
}

#[test]
fn add_command_only_plans() {
    let t = home_trove();
    let p = t.add_command("/home/u/.vimrc", "vimrc", &None, home()).unwrap();
    assert_eq!(p.stored, "/home/u/trove/store/vimrc");
    assert!(t.entries.is_empty());
    assert!(t.find_entry_by_name("vimrc").is_none());
}

#[test]
fn add_entry_refuses_like_add_command() {
    let mut t = home_trove();
    add(&mut t, "/home/u/.vimrc", "vimrc", &None).unwrap();
    let r = t.add_entry("/home/u/.gvimrc", "vimrc", &None, home());
    assert_eq!(r.unwrap_err(), TroveError::DuplicateName);
    let r = t.add_entry("/home/u/.vimrc", "other", &None, home());
    assert_eq!(r.unwrap_err(), TroveError::DuplicatePath);
    assert_eq!(t.entries.len(), 1);
}

#[test]
fn add_records_categories() {
    let mut t = home_trove();
    add(&mut t, "/home/u/.zshrc", "zshrc", &some("shell,,dot")).unwrap();
    let e = t.find_entry_by_name("zshrc").unwrap();
    assert_eq!(e.categories, vec!["shell".to_string(), "dot".to_string()]);
}

#[test]
fn add_refuses_duplicate_name() {
    let mut t = home_trove();
    add(&mut t, "/home/u/.vimrc", "vimrc", &None).unwrap();
    let r = add(&mut t, "/home/u/.gvimrc", "vimrc", &None);
    assert_eq!(r.unwrap_err(), TroveError::DuplicateName);
    assert_eq!(t.entries.len(), 1);
    assert_eq!(t.entries[0].host_path, "$HOME/.vimrc");
}

#[test]
fn add_refuses_duplicate_path() {
    let mut t = home_trove();
    add(&mut t, "/home/u/.vimrc", "vimrc", &None).unwrap();
    let r = add(&mut t, "/home/u/.vimrc", "vim2", &None);
    assert_eq!(r.unwrap_err(), TroveError::DuplicatePath);
    let r = add(&mut t, "/home/u/trove/store/vimrc", "vim3", &None);
    assert_eq!(r.unwrap_err(), TroveError::DuplicatePath);
    assert_eq!(t.entries.len(), 1);
}

#[test]
fn remove_restores_vimrc() {
    let mut t = home_trove();
    let added = add(&mut t, "/home/u/.vimrc", "vimrc", &None).unwrap();
    let p = t.remove_command(&None, &some("vimrc"), home()).unwrap();
    assert_eq!(p.host, "/home/u/.vimrc");
    assert_eq!(p.stored, "/home/u/trove/store/vimrc");
    assert_eq!(p.host, added.host);
    assert_eq!(p.stored, added.stored);
    assert!(t.find_entry_by_name("vimrc").is_none());
    assert!(t.entries.is_empty());
}

#[test]
fn remove_by_store_location() {
    let mut t = home_trove();
    add(&mut t, "/home/u/.vimrc", "vimrc", &None).unwrap();
    add(&mut t, "/home/u/.zshrc", "zshrc", &None).unwrap();
    let p = t.remove_command(&some("/home/u/trove/store/zshrc"), &None, home()).unwrap();
    assert_eq!(p.host, "/home/u/.zshrc");
    assert!(t.find_entry_by_name("zshrc").is_none());
    assert!(t.find_entry_by_name("vimrc").is_some());
}

#[test]
fn remove_needs_exactly_one_selector() {
    let mut t = home_trove();
    add(&mut t, "/home/u/.vimrc", "vimrc", &None).unwrap();
    let r = t.remove_command(&None, &None, home());
    assert_eq!(r.unwrap_err(), TroveError::AmbiguousSelector);
    let r = t.remove_command(&some("/home/u/trove/store/vimrc"), &some("vimrc"), home());
    assert_eq!(r.unwrap_err(), TroveError::AmbiguousSelector);
    assert_eq!(t.entries.len(), 1);
}

#[test]
fn remove_unknown_entry() {
    let mut t = home_trove();
    add(&mut t, "/home/u/.vimrc", "vimrc", &None).unwrap();
    let r = t.remove_command(&None, &some("emacs"), home());
    assert_eq!(r.unwrap_err(), TroveError::EntryNotFound);
    let r = t.remove_command(&some("/home/u/.vimrc"), &None, home());
    assert_eq!(r.unwrap_err(), TroveError::EntryNotFound);
    assert_eq!(t.entries.len(), 1);
}

#[test]
fn remove_entry_drops_equal_entry() {
    let mut t = home_trove();
    add(&mut t, "/home/u/.vimrc", "vimrc", &None).unwrap();
    t.remove_entry(&entry("vimrc", "$HOME/.vimrc", &["x"]));
    assert_eq!(t.entries.len(), 1);
    t.remove_entry(&entry("vimrc", "$HOME/.vimrc", &[]));
    assert!(t.entries.is_empty());
}

fn three_entries() -> Trove {
    let mut t = home_trove();
    add(&mut t, "/home/u/.vimrc", "vimrc", &some("editor")).unwrap();
    add(&mut t, "/home/u/.zshrc", "zshrc", &some("shell,dot")).unwrap();
    add(&mut t, "/home/u/.bashrc", "bashrc", &some("shell")).unwrap();
    t
}

#[test]
fn find_by_category_lists_tagged_entries() {
    let t = three_entries();
    let v = t.find_entry_by_category("shell").unwrap();
    let names: Vec<String> = v.iter().map(|e| e.name.clone()).collect();
    assert_eq!(names, vec!["zshrc".to_string(), "bashrc".to_string()]);
    assert!(t.find_entry_by_category("games").is_none());
}

#[test]
fn find_by_path_uses_store_location() {
    let t = three_entries();
    let e = t.find_entry_by_path("/home/u/trove/store/zshrc", home()).unwrap();
    assert_eq!(e.name, "zshrc");
    assert!(t.find_entry_by_path("/home/u/.zshrc", home()).is_none());
}

#[test]
fn deploy_all_entries() {
    let t = three_entries();
    let v = t.deploy_command(&None, &None, home()).unwrap();
    assert_eq!(hosts(&v), vec!["/home/u/.vimrc", "/home/u/.zshrc", "/home/u/.bashrc"]);
    assert_eq!(v[1].stored, "/home/u/trove/store/zshrc");
}

#[test]
fn deploy_by_name_and_category() {
    let t = three_entries();
    let v = t.deploy_command(&None, &some("bashrc"), home()).unwrap();
    assert_eq!(hosts(&v), vec!["/home/u/.bashrc"]);
    assert_eq!(v[0].stored, "/home/u/trove/store/bashrc");
    let v = t.deploy_command(&some("shell"), &None, home()).unwrap();
    assert_eq!(hosts(&v), vec!["/home/u/.zshrc", "/home/u/.bashrc"]);
}

#[test]
fn deploy_selector_errors() {
    let t = three_entries();
    let r = t.deploy_command(&some("games"), &None, home());
    assert_eq!(r.unwrap_err(), TroveError::NoMatchingEntries);
    let r = t.deploy_command(&None, &some("emacs"), home());
    assert_eq!(r.unwrap_err(), TroveError::EntryNotFound);
    let r = t.deploy_command(&some("shell"), &some("zshrc"), home());
    assert_eq!(r.unwrap_err(), TroveError::AmbiguousSelector);
}

#[test]
fn deploy_twice_plans_same_links() {
    let t = three_entries();
    let a = t.deploy_command(&some("shell"), &None, home()).unwrap();
    let b = t.deploy_command(&some("shell"), &None, home()).unwrap();
    assert_eq!(hosts(&a), hosts(&b));
    assert_eq!(a[0].stored, b[0].stored);
}

#[test]
fn pack_then_deploy_same_entry() {
    let t = three_entries();
    let packed = t.pack_command(&None, &some("vimrc"), home()).unwrap();
    let deployed = t.deploy_command(&None, &some("vimrc"), home()).unwrap();
    assert_eq!(hosts(&packed), vec!["/home/u/.vimrc"]);
    assert_eq!(hosts(&packed), hosts(&deployed));
    assert_eq!(deployed[0].stored, "/home/u/trove/store/vimrc");
}

#[test]
fn pack_selector_errors() {
    let t = three_entries();
    let r = t.pack_command(&some("games"), &None, home());
    assert_eq!(r.unwrap_err(), TroveError::NoMatchingEntries);
    let r = t.pack_command(&None, &some("emacs"), home());
    assert_eq!(r.unwrap_err(), TroveError::EntryNotFound);
    let r = t.pack_command(&some("a"), &some("b"), home());
    assert_eq!(r.unwrap_err(), TroveError::AmbiguousSelector);
}

#[test]
fn from_parts_keeps_well_formed_registry() {
    let t = three_entries();
    let back = Trove::from_parts(t.config.clone(), t.entries.clone(), home()).unwrap();
    assert_eq!(back.config.path, t.config.path);
    assert_eq!(back.config.store_path, t.config.store_path);
    assert_eq!(back.entries.len(), 3);
    assert_eq!(back.entries[2].name, "bashrc");
}

#[test]
fn from_parts_refuses_repeated_name() {
    let config = TroveConfig {
        path: "$HOME/trove/trove.conf".to_string(),
        store_path: "$HOME/trove/store".to_string(),
    };
    let entries = vec![entry("a", "$HOME/.a", &[]), entry("a", "$HOME/.b", &[])];
    let r = Trove::from_parts(config, entries, home());
    assert_eq!(r.unwrap_err(), TroveError::CorruptRegistry);
}

#[test]
fn from_parts_refuses_repeated_resolved_host() {
    let config = TroveConfig {
        path: "/r/trove.conf".to_string(),
        store_path: "/r/store".to_string(),
    };
    let entries = vec![entry("a", "$HOME/.a", &[]), entry("b", "/home/u/.a", &[])];
    let r = Trove::from_parts(config.clone(), entries.clone(), home());
    assert_eq!(r.unwrap_err(), TroveError::CorruptRegistry);
    assert!(Trove::from_parts(config, entries, Some("/home/v")).is_ok());
}
