//! Portable paths: the home directory written as a placeholder.
use vstd::prelude::*;

verus! {

/// The placeholder that stands for the home directory in a portable path.
pub open spec fn home_token() -> Seq<char> {
    seq!['$', 'H', 'O', 'M', 'E']
}

/// `p` is a leading part of `s`.
pub open spec fn has_prefix(s: Seq<char>, p: Seq<char>) -> bool {
    p.len() <= s.len() && s.subrange(0, p.len() as int) == p
}

/// The home directory as the contracts see it.
pub open spec fn home_view(home: Option<&str>) -> Option<Seq<char>> {
    match home {
        Some(h) => Some(h@),
        None => None,
    }
}

/// The portable form of `path`: a leading home directory becomes the placeholder.
pub open spec fn portable_of(path: Seq<char>, home: Option<Seq<char>>) -> Seq<char> {
    match home {
        Some(h) => if has_prefix(path, h) {
            home_token() + path.skip(h.len() as int)
        } else {
            path
        },
        None => path,
    }
}

/// The absolute form of `path`: a leading placeholder becomes the home directory.
pub open spec fn absolute_of(path: Seq<char>, home: Option<Seq<char>>) -> Seq<char> {
    match home {
        Some(h) => if has_prefix(path, home_token()) {
            h + path.skip(home_token().len() as int)
        } else {
            path
        },
        None => path,
    }
}

/// `dir` and `name` joined by a separator.
pub open spec fn joined(dir: Seq<char>, name: Seq<char>) -> Seq<char> {
    dir + seq!['/'] + name
}

/// Whether `a` and `b` hold the same characters.
pub fn str_eq(a: &str, b: &str) -> (r: bool)
    ensures
        r == (a@ == b@),
{
    let n = a.unicode_len();
    let m = b.unicode_len();
    if n != m {
        return false;
    }
    let mut i: usize = 0;
    while i < n
        invariant
            n == a@.len(),
            m == b@.len(),
            n == m,
            i <= n,
            a@.subrange(0, i as int) == b@.subrange(0, i as int),
        decreases n - i,
    {
        if a.get_char(i) != b.get_char(i) {
            return false;
        }
        assert(a@.subrange(0, i + 1) == a@.subrange(0, i as int).push(a@[i as int]));
        assert(b@.subrange(0, i + 1) == b@.subrange(0, i as int).push(b@[i as int]));
        i = i + 1;
    }
    assert(a@ == a@.subrange(0, n as int));
    assert(b@ == b@.subrange(0, n as int));
    true
}

/// Whether `prefix` is a leading part of `s`.
pub fn starts_with(s: &str, prefix: &str) -> (r: bool)
    ensures
        r == has_prefix(s@, prefix@),
{
    let n = s.unicode_len();
    let m = prefix.unicode_len();
    if m > n {
        return false;
    }
    let head = s.substring_char(0, m);
    str_eq(head, prefix)
}

/// `dir` and `name` joined by a separator.
pub fn join_path(dir: &str, name: &str) -> (r: String)
    ensures
        r@ == joined(dir@, name@),
{
    let mut r = dir.to_owned();
    proof {
        reveal_strlit("/");
    }
    r.append("/");
    r.append(name);
    r
}

/// Replaces a leading `from` in `s` by `to`; `s` is returned unchanged otherwise.
fn replace_prefix(s: &str, from: &str, to: &str) -> (r: String)
    ensures
        has_prefix(s@, from@) ==> r@ == to@ + s@.skip(from@.len() as int),
        !has_prefix(s@, from@) ==> r@ == s@,
{
    if starts_with(s, from) {
        let n = s.unicode_len();
        let m = from.unicode_len();
        let rest = s.substring_char(m, n);
        let mut r = to.to_owned();
        r.append(rest);
        r
    } else {
        s.to_owned()
    }
}

/// The portable form of `path` under the home directory `home`; with no known home
/// directory the path comes back unchanged.
pub fn get_relative_path(path: &str, home: Option<&str>) -> (r: String)
    ensures
        r@ == portable_of(path@, home_view(home)),
{
    match home {
        Some(h) => {
            proof {
                reveal_strlit("$HOME");
                assert("$HOME"@ == home_token());
            }
            replace_prefix(path, h, "$HOME")
        },
        None => path.to_owned(),
    }
}

/// The absolute form of the portable path `path` under the home directory `home`.
pub fn get_true_path(path: &str, home: Option<&str>) -> (r: String)
    ensures
        r@ == absolute_of(path@, home_view(home)),
{
    match home {
        Some(h) => {
            proof {
                reveal_strlit("$HOME");
                assert("$HOME"@ == home_token());
            }
            replace_prefix(path, "$HOME", h)
        },
        None => path.to_owned(),
    }
}

/// Resolving the portable form of a path gives the path back, unless the path
/// already starts with the placeholder without starting with the home directory.
pub proof fn lemma_portable_round_trip(path: Seq<char>, home: Option<Seq<char>>)
    requires
        home is Some ==> (has_prefix(path, home->0) || !has_prefix(path, home_token())),
    ensures
        absolute_of(portable_of(path, home), home) == path,
{
    if let Some(h) = home {
        if has_prefix(path, h) {
            let p = home_token() + path.skip(h.len() as int);
            assert(p.subrange(0, home_token().len() as int) == home_token());
            assert(p.skip(home_token().len() as int) == path.skip(h.len() as int));
            assert(h + path.skip(h.len() as int) == path);
        }
    }
}

/// Writing the resolved form of a portable path in portable form gives it back,
/// unless the path starts with the home directory without starting with the
/// placeholder.
pub proof fn lemma_absolute_round_trip(path: Seq<char>, home: Option<Seq<char>>)
    requires
        home is Some ==> (has_prefix(path, home_token()) || !has_prefix(path, home->0)),
    ensures
        portable_of(absolute_of(path, home), home) == path,
{
    if let Some(h) = home {
        if has_prefix(path, home_token()) {
            let a = h + path.skip(home_token().len() as int);
            assert(a.subrange(0, h.len() as int) == h);
            assert(a.skip(h.len() as int) == path.skip(home_token().len() as int));
            assert(home_token() + path.skip(home_token().len() as int) == path);
        }
    }
}

/// For a home directory that does not begin with `$`, putting a path in portable
/// form twice is putting it in portable form once, and resolving twice is resolving
/// once.
pub proof fn lemma_normalize_stable(path: Seq<char>, home: Option<Seq<char>>)
    requires
        home is Some ==> home->0.len() > 0 && home->0[0] != '$',
    ensures
        portable_of(portable_of(path, home), home) == portable_of(path, home),
        absolute_of(absolute_of(path, home), home) == absolute_of(path, home),
{
    if let Some(h) = home {
        let p = portable_of(path, home);
        if has_prefix(path, h) {
            assert(p[0] == '$');
            if h.len() <= p.len() {
                assert(p.subrange(0, h.len() as int)[0] == p[0]);
            }
        }
        let a = absolute_of(path, home);
        if has_prefix(path, home_token()) {
            assert(a[0] == h[0]);
            if 5 <= a.len() {
                assert(a.subrange(0, 5)[0] == a[0]);
            }
        }
    }
}

} // verus!
