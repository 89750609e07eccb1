//! Where the `pi` executable and its tools are looked for.

use vstd::prelude::*;

use crate::paths::{join, joined};
use crate::text::{has_char, same, split, split_on};

verus! {

broadcast use crate::model::group_views;

/// `bin` in each directory of `dirs` whose name is not empty.
pub open spec fn below_each(dirs: Seq<Seq<char>>, bin: Seq<char>) -> Seq<Seq<char>>
    decreases dirs.len(),
{
    if dirs.len() == 0 {
        Seq::empty()
    } else {
        let before = below_each(dirs.drop_last(), bin);
        if dirs.last().len() > 0 {
            before.push(joined(dirs.last(), bin))
        } else {
            before
        }
    }
}

/// The usual install locations, in the order in which they are tried.
pub open spec fn install_dirs(home: Seq<char>) -> Seq<Seq<char>> {
    seq![
        home + "/.local/bin"@,
        home + "/.npm-global/bin"@,
        home + "/.cargo/bin"@,
        home + "/bin"@,
        "/usr/local/bin"@,
        "/usr/bin"@,
    ]
}

/// Where an executable given by its bare name may be: on the search path, then
/// in the usual install locations.
pub open spec fn candidates(bin: Seq<char>, path: Option<Seq<char>>, home: Seq<char>) -> Seq<
    Seq<char>,
> {
    if bin.contains('/') {
        Seq::empty()
    } else {
        (match path {
            Some(p) => below_each(split_on(p, ':'), bin),
            None => Seq::empty(),
        }) + below_each(install_dirs(home), bin)
    }
}

/// The first of `places` that is also in `found`, or `default`.
pub open spec fn first_found(
    places: Seq<Seq<char>>,
    found: Seq<Seq<char>>,
    default: Seq<char>,
) -> Seq<char>
    decreases places.len(),
{
    if places.len() == 0 {
        default
    } else if found.contains(places[0]) {
        places[0]
    } else {
        first_found(places.drop_first(), found, default)
    }
}

fn push_below(out: &mut Vec<String>, dirs: &Vec<String>, bin: &str)
    ensures
        final(out).deep_view() == old(out).deep_view() + below_each(dirs.deep_view(), bin@),
{
    let ghost all = dirs.deep_view();
    let ghost start = out.deep_view();
    assert(all.take(0) =~= Seq::empty());
    assert(start + Seq::<Seq<char>>::empty() =~= start);
    let mut i: usize = 0;
    while i < dirs.len()
        invariant
            i <= dirs@.len(),
            all == dirs.deep_view(),
            out.deep_view() == start + below_each(all.take(i as int), bin@),
        decreases dirs@.len() - i,
    {
        assert(all.take(i + 1).drop_last() =~= all.take(i as int));
        assert(all.take(i + 1).last() == dirs@[i as int]@);
        if !dirs[i].as_str().is_empty() {
            out.push(join(dirs[i].as_str(), bin));
        }
        assert(out.deep_view() =~= start + below_each(all.take(i + 1), bin@));
        i += 1;
    }
    assert(all.take(i as int) =~= all);
}

fn under(home: &str, rest: &str) -> (out: String)
    ensures
        out@ == home@ + rest@,
{
    let mut out = home.to_owned();
    out.append(rest);
    out
}

/// Where the executable `bin` may be. An explicit path is not searched for.
pub fn bin_candidates(bin: &str, path: Option<&str>, home: &str) -> (out: Vec<String>)
    ensures
        out.deep_view() == candidates(bin@, path.deep_view(), home@),
{
    let mut out: Vec<String> = Vec::new();
    if has_char(bin, '/') {
        return out;
    }
    if let Some(p) = path {
        let dirs = split(p, ':');
        push_below(&mut out, &dirs, bin);
    }
    assert(Seq::<Seq<char>>::empty() + below_each(split_on(path->0@, ':'), bin@) =~= below_each(
        split_on(path->0@, ':'),
        bin@,
    ));
    let mut dirs: Vec<String> = Vec::new();
    dirs.push(under(home, "/.local/bin"));
    dirs.push(under(home, "/.npm-global/bin"));
    dirs.push(under(home, "/.cargo/bin"));
    dirs.push(under(home, "/bin"));
    dirs.push("/usr/local/bin".to_owned());
    dirs.push("/usr/bin".to_owned());
    assert(dirs.deep_view() =~= install_dirs(home@));
    push_below(&mut out, &dirs, bin);
    out
}

fn listed(found: &Vec<String>, place: &str) -> (r: bool)
    ensures
        r == found.deep_view().contains(place@),
{
    let ghost all = found.deep_view();
    let mut i: usize = 0;
    while i < found.len()
        invariant
            i <= found@.len(),
            all == found.deep_view(),
            forall|k: int| 0 <= k < i ==> all[k] != place@,
        decreases found@.len() - i,
    {
        assert(all[i as int] == found@[i as int]@);
        if same(found[i].as_str(), place) {
            return true;
        }
        i += 1;
    }
    false
}

/// Resolves the `pi` executable: an explicit path stands for itself, then the
/// search path and the usual install locations are tried. `installed` are the
/// candidates that are files; without one the name stays as it is.
pub fn resolve_bin(bin: &str, path: Option<&str>, home: &str, installed: &Vec<String>) -> (out:
    String)
    ensures
        out@ == first_found(candidates(bin@, path.deep_view(), home@), installed.deep_view(), bin@),
        bin@.contains('/') ==> out@ == bin@,
{
    let places = bin_candidates(bin, path, home);
    let ghost all = places.deep_view();
    assert(all.skip(0) =~= all);
    let mut i: usize = 0;
    while i < places.len()
        invariant
            i <= places@.len(),
            all == places.deep_view(),
            all == candidates(bin@, path.deep_view(), home@),
            first_found(all, installed.deep_view(), bin@) == first_found(
                all.skip(i as int),
                installed.deep_view(),
                bin@,
            ),
        decreases places@.len() - i,
    {
        assert(all.skip(i as int)[0] == places@[i as int]@);
        if listed(installed, places[i].as_str()) {
            return places[i].clone();
        }
        assert(all.skip(i as int).drop_first() =~= all.skip(i + 1));
        i += 1;
    }
    bin.to_owned()
}

/// `path` with `dir` in front, unless it is on it already.
pub open spec fn with_dir(path: Seq<char>, dir: Seq<char>) -> Seq<char> {
    if split_on(path, ':').contains(dir) {
        path
    } else {
        dir + seq![':'] + path
    }
}

/// The search path of the child process.
pub open spec fn tool_path(path: Seq<char>, home: Seq<char>) -> Seq<char> {
    with_dir(
        with_dir(
            with_dir(with_dir(path, home + "/.local/bin"@), home + "/.npm-global/bin"@),
            home + "/.cargo/bin"@,
        ),
        "/usr/local/bin"@,
    )
}

fn add_dir(path: String, dir: &str) -> (out: String)
    ensures
        out@ == with_dir(path@, dir@),
{
    let parts = split(path.as_str(), ':');
    if listed(&parts, dir) {
        path
    } else {
        let mut out = dir.to_owned();
        out.push(':');
        out.append(path.as_str());
        assert(out@ =~= with_dir(path@, dir@));
        out
    }
}

/// The search path of the child process: the program's own, with the usual user
/// tool directories in front where they are missing.
pub fn child_path(path: &str, home: &str) -> (out: String)
    ensures
        out@ == tool_path(path@, home@),
{
    let out = add_dir(path.to_owned(), under(home, "/.local/bin").as_str());
    let out = add_dir(out, under(home, "/.npm-global/bin").as_str());
    let out = add_dir(out, under(home, "/.cargo/bin").as_str());
    add_dir(out, "/usr/local/bin")
}

// ── Laws ────────────────────────────────────────────────────────────────────

proof fn lemma_split_front(dir: Seq<char>, path: Seq<char>)
    requires
        !dir.contains(':'),
    ensures
        split_on(dir + seq![':'] + path, ':') == seq![dir] + split_on(path, ':'),
{
    let s = dir + seq![':'] + path;
    crate::text::lemma_find_bounds(s, ':');
    let at = crate::text::find(s, ':');
    assert(s[dir.len() as int] == ':');
    assert forall|i: int| 0 <= i < dir.len() implies s[i] != ':' by {
        assert(s[i] == dir[i]);
    }
    assert(at == dir.len());
    assert(s.take(at) =~= dir);
    assert(s.skip(at + 1) =~= path);
}

/// A directory put in front of a search path is searched first, and the rest of
/// the path stays as it was.
pub proof fn law_path_keeps_entries(path: Seq<char>, dir: Seq<char>)
    requires
        !dir.contains(':'),
    ensures
        split_on(with_dir(path, dir), ':') == (if split_on(path, ':').contains(dir) {
            split_on(path, ':')
        } else {
            seq![dir] + split_on(path, ':')
        }),
{
    lemma_split_front(dir, path);
}

/// Extending a search path twice changes nothing more.
pub proof fn law_path_is_extended_once(path: Seq<char>, dir: Seq<char>)
    requires
        !dir.contains(':'),
    ensures
        with_dir(with_dir(path, dir), dir) == with_dir(path, dir),
{
    lemma_split_front(dir, path);
    let s = seq![dir] + split_on(path, ':');
    assert(s[0] == dir);
}

/// The first place where the executable is installed is taken, whatever comes behind it;
/// if it is installed nowhere, its name stays as it is.
pub proof fn law_first_installed_place_wins(
    front: Seq<Seq<char>>,
    place: Seq<char>,
    rest: Seq<Seq<char>>,
    found: Seq<Seq<char>>,
    default: Seq<char>,
)
    requires
        forall|i: int| 0 <= i < front.len() ==> !found.contains(#[trigger] front[i]),
    ensures
        found.contains(place) ==> first_found(front + seq![place] + rest, found, default) == place,
        first_found(front, found, default) == default,
    decreases front.len(),
{
    let all = front + seq![place] + rest;
    if front.len() > 0 {
        let less = front.drop_first();
        assert(!found.contains(front[0]));
        assert(all[0] == front[0]);
        assert(all.drop_first() =~= less + seq![place] + rest);
        assert forall|i: int| 0 <= i < less.len() implies !found.contains(#[trigger] less[i]) by {
            assert(less[i] == front[i + 1]);
        }
        law_first_installed_place_wins(less, place, rest, found, default);
    } else {
        assert(all[0] == place);
    }
}

/// A bare name is looked for in every directory of the search path, in order, and then in
/// the usual places; empty names are passed over, and a path is not looked for at all.
pub proof fn law_search_path_is_tried_first(
    bin: Seq<char>,
    path: Seq<char>,
    home: Seq<char>,
    dirs: Seq<Seq<char>>,
    dir: Seq<char>,
)
    ensures
        bin.contains('/') ==> candidates(bin, Some(path), home).len() == 0,
        !bin.contains('/') ==> candidates(bin, Some(path), home) == below_each(
            split_on(path, ':'),
            bin,
        ) + candidates(bin, None, home),
        !bin.contains('/') ==> candidates(bin, None, home) == below_each(
            seq![
                home + "/.local/bin"@,
                home + "/.npm-global/bin"@,
                home + "/.cargo/bin"@,
                home + "/bin"@,
                "/usr/local/bin"@,
                "/usr/bin"@,
            ],
            bin,
        ),
        below_each(dirs.push(dir), bin) == (if dir.len() > 0 {
            below_each(dirs, bin).push(joined(dir, bin))
        } else {
            below_each(dirs, bin)
        }),
        below_each(Seq::empty(), bin).len() == 0,
{
    assert(dirs.push(dir).drop_last() =~= dirs);
    let none = Seq::<Seq<char>>::empty();
    assert(none + below_each(install_dirs(home), bin) =~= below_each(install_dirs(home), bin));
}

proof fn lemma_with_dir_keeps(path: Seq<char>, dir: Seq<char>, x: Seq<char>)
    requires
        !dir.contains(':'),
    ensures
        split_on(path, ':').contains(x) ==> split_on(with_dir(path, dir), ':').contains(x),
        split_on(with_dir(path, dir), ':').contains(dir),
{
    law_path_keeps_entries(path, dir);
    let old = split_on(path, ':');
    let new = split_on(with_dir(path, dir), ':');
    if !old.contains(dir) {
        assert(new[0] == dir);
        if old.contains(x) {
            let i = old.index_of(x);
            assert(new[i + 1] == x);
        }
    }
}

/// The child finds everything that the program itself finds, and the user's tool
/// directories besides.
pub proof fn law_child_finds_tools(path: Seq<char>, home: Seq<char>, x: Seq<char>)
    requires
        !home.contains(':'),
    ensures
        ({
            let dirs = split_on(tool_path(path, home), ':');
            &&& split_on(path, ':').contains(x) ==> dirs.contains(x)
            &&& dirs.contains(home + "/.local/bin"@)
            &&& dirs.contains(home + "/.npm-global/bin"@)
            &&& dirs.contains(home + "/.cargo/bin"@)
            &&& dirs.contains("/usr/local/bin"@)
        }),
{
    reveal_strlit("/.local/bin");
    reveal_strlit("/.npm-global/bin");
    reveal_strlit("/.cargo/bin");
    reveal_strlit("/usr/local/bin");
    let a = home + "/.local/bin"@;
    let b = home + "/.npm-global/bin"@;
    let c = home + "/.cargo/bin"@;
    let d = "/usr/local/bin"@;
    lemma_no_colon(home, "/.local/bin"@);
    lemma_no_colon(home, "/.npm-global/bin"@);
    lemma_no_colon(home, "/.cargo/bin"@);
    assert(!d.contains(':'));
    let p1 = with_dir(path, a);
    let p2 = with_dir(p1, b);
    let p3 = with_dir(p2, c);
    lemma_with_dir_keeps(path, a, x);
    lemma_with_dir_keeps(p1, b, x);
    lemma_with_dir_keeps(p1, b, a);
    lemma_with_dir_keeps(p2, c, x);
    lemma_with_dir_keeps(p2, c, a);
    lemma_with_dir_keeps(p2, c, b);
    lemma_with_dir_keeps(p3, d, x);
    lemma_with_dir_keeps(p3, d, a);
    lemma_with_dir_keeps(p3, d, b);
    lemma_with_dir_keeps(p3, d, c);
}

proof fn lemma_no_colon(a: Seq<char>, b: Seq<char>)
    requires
        !a.contains(':'),
        !b.contains(':'),
    ensures
        !(a + b).contains(':'),
{
    assert forall|i: int| 0 <= i < (a + b).len() implies (a + b)[i] != ':' by {
        if i < a.len() {
            assert(a.contains(a[i]));
        } else {
            assert(b.contains(b[i - a.len()]));
        }
    }
}

} // verus!
