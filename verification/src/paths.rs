//! Unix paths as text.

use vstd::prelude::*;

use crate::text::{chars_of, piece};

verus! {

/// An absolute path.
pub open spec fn absolute(p: Seq<char>) -> bool {
    p.len() > 0 && p[0] == '/'
}

/// `name` below `base`; an absolute `name` stands for itself.
pub open spec fn joined(base: Seq<char>, name: Seq<char>) -> Seq<char> {
    if absolute(name) || base.len() == 0 {
        name
    } else if base.last() == '/' {
        base + name
    } else {
        base + seq!['/'] + name
    }
}

/// `p` without trailing separators and trailing `.` components.
pub open spec fn settled(p: Seq<char>) -> Seq<char>
    decreases p.len(),
{
    if p.len() > 1 && p.last() == '/' {
        settled(p.drop_last())
    } else if p.len() > 1 && p.last() == '.' && p[p.len() - 2] == '/' {
        settled(p.drop_last())
    } else {
        p
    }
}

/// The last component of `p`, if it is a name.
pub open spec fn final_name(p: Seq<char>) -> Option<Seq<char>> {
    let name = crate::text::after_last(settled(p), '/');
    if name.len() == 0 || name == "."@ || name == ".."@ {
        None
    } else {
        Some(name)
    }
}

/// Index of the last `c` in `s`, or -1.
pub open spec fn last_index(s: Seq<char>, c: char) -> int
    decreases s.len(),
{
    if s.len() == 0 {
        -1
    } else if s.last() == c {
        s.len() - 1
    } else {
        last_index(s.drop_last(), c)
    }
}

/// What follows the last dot of the final name; nothing if that dot begins the
/// name or there is none.
pub open spec fn suffix(p: Seq<char>) -> Option<Seq<char>> {
    match final_name(p) {
        Some(name) => {
            let dot = last_index(name, '.');
            if dot > 0 {
                Some(name.skip(dot + 1))
            } else {
                None
            }
        },
        None => None,
    }
}

/// The final name without its suffix and the dot before it.
pub open spec fn stem(p: Seq<char>) -> Option<Seq<char>> {
    match final_name(p) {
        Some(name) => {
            let dot = last_index(name, '.');
            if dot > 0 {
                Some(name.take(dot))
            } else {
                Some(name)
            }
        },
        None => None,
    }
}

/// The path without its last component; nothing for the root and the empty
/// path.
pub open spec fn above(p: Seq<char>) -> Option<Seq<char>> {
    let q = settled(p);
    let cut = last_index(q, '/');
    if q.len() == 0 || q == seq!['/'] {
        None
    } else if cut < 0 {
        Some(Seq::empty())
    } else {
        Some(settled(q.take(cut + 1)))
    }
}

pub fn is_absolute(p: &str) -> (r: bool)
    ensures
        r == absolute(p@),
{
    let v = chars_of(p);
    v.len() > 0 && v[0] == '/'
}

/// `Path::join` on text.
pub fn join(base: &str, name: &str) -> (out: String)
    ensures
        out@ == joined(base@, name@),
{
    let v = chars_of(base);
    if is_absolute(name) || v.len() == 0 {
        name.to_owned()
    } else {
        let mut out = base.to_owned();
        if v[v.len() - 1] != '/' {
            out.push('/');
        }
        out.append(name);
        assert(out@ =~= joined(base@, name@));
        out
    }
}

/// `p` without trailing separators and trailing `.` components.
pub fn settle(p: &str) -> (out: String)
    ensures
        out@ == settled(p@),
{
    let v = chars_of(p);
    let mut n: usize = v.len();
    assert(v@.take(n as int) =~= v@);
    while n > 1 && (v[n - 1] == '/' || (v[n - 1] == '.' && v[n - 2] == '/'))
        invariant
            v@ == p@,
            n <= v@.len(),
            settled(v@.take(n as int)) == settled(p@),
        decreases n,
    {
        assert(v@.take(n as int).drop_last() =~= v@.take(n - 1));
        n -= 1;
    }
    let out = piece(&v, 0, n);
    assert(out@ =~= v@.take(n as int));
    out
}

/// Index of the last `c`, if there is one.
pub fn find_last(v: &Vec<char>, c: char) -> (out: Option<usize>)
    ensures
        match out {
            Some(at) => at < v@.len() && at == last_index(v@, c),
            None => last_index(v@, c) == -1,
        },
{
    let mut n: usize = v.len();
    assert(v@.take(n as int) =~= v@);
    while n > 0
        invariant
            n <= v@.len(),
            last_index(v@.take(n as int), c) == last_index(v@, c),
        decreases n,
    {
        if v[n - 1] == c {
            return Some(n - 1);
        }
        assert(v@.take(n as int).drop_last() =~= v@.take(n - 1));
        n -= 1;
    }
    None
}

/// The last component of `p`, if it is a name.
pub fn file_name(p: &str) -> (out: Option<String>)
    ensures
        out.deep_view() == final_name(p@),
{
    let name = crate::text::tail_after(settle(p).as_str(), '/');
    if name.as_str().is_empty() || crate::text::same(name.as_str(), ".") || crate::text::same(
        name.as_str(),
        "..",
    ) {
        None
    } else {
        Some(name)
    }
}

/// `Path::extension` on text.
pub fn extension(p: &str) -> (out: Option<String>)
    ensures
        out.deep_view() == suffix(p@),
{
    match file_name(p) {
        Some(name) => {
            let v = chars_of(name.as_str());
            match find_last(&v, '.') {
                Some(dot) => if dot > 0 {
                    let ext = piece(&v, dot + 1, v.len());
                    assert(ext@ =~= v@.skip(dot + 1));
                    Some(ext)
                } else {
                    None
                },
                None => None,
            }
        },
        None => None,
    }
}

/// `Path::file_stem` on text.
pub fn file_stem(p: &str) -> (out: Option<String>)
    ensures
        out.deep_view() == stem(p@),
{
    match file_name(p) {
        Some(name) => {
            let v = chars_of(name.as_str());
            match find_last(&v, '.') {
                Some(dot) => if dot > 0 {
                    let base = piece(&v, 0, dot);
                    assert(base@ =~= v@.take(dot as int));
                    Some(base)
                } else {
                    Some(name)
                },
                None => Some(name),
            }
        },
        None => None,
    }
}

/// `Path::parent` on text.
pub fn parent(p: &str) -> (out: Option<String>)
    ensures
        out.deep_view() == above(p@),
{
    let q = settle(p);
    let v = chars_of(q.as_str());
    if v.len() == 0 {
        return None;
    }
    if v.len() == 1 && v[0] == '/' {
        assert(v@ =~= seq!['/']);
        return None;
    }
    match find_last(&v, '/') {
        Some(cut) => {
            let base = piece(&v, 0, cut + 1);
            assert(base@ =~= q@.take(cut + 1));
            Some(settle(base.as_str()))
        },
        None => {
            let none = String::new();
            assert(none@ =~= Seq::empty());
            Some(none)
        },
    }
}

// ── Laws ────────────────────────────────────────────────────────────────────

proof fn lemma_settled(p: Seq<char>)
    requires
        p.len() > 0,
        p.last() != '/',
        p.last() != '.',
    ensures
        settled(p) == p,
{
}

proof fn lemma_last_index(front: Seq<char>, c: char, back: Seq<char>)
    requires
        !back.contains(c),
    ensures
        last_index(front + seq![c] + back, c) == front.len(),
    decreases back.len(),
{
    let s = front + seq![c] + back;
    if back.len() > 0 {
        assert(s.last() == back.last());
        assert(back.contains(back.last()));
        let less = back.drop_last();
        assert(s.drop_last() =~= front + seq![c] + less);
        assert(!less.contains(c)) by {
            assert forall|k: int| 0 <= k < less.len() implies less[k] != c by {
                assert(back.contains(back[k]));
            }
        }
        lemma_last_index(front, c, less);
    }
}

proof fn lemma_after_last_is(front: Seq<char>, name: Seq<char>)
    requires
        front.len() > 0 ==> front.last() == '/',
        !name.contains('/'),
    ensures
        crate::text::after_last(front + name, '/') == name,
{
    let s = front + name;
    let at = crate::text::lemma_after_last(s, '/');
    if at < front.len() {
        assert(s[front.len() - 1] == front.last());
    } else if at > front.len() {
        assert(s[at - 1] == name[at - 1 - front.len()]);
        assert(name.contains(name[at - 1 - front.len()]));
    }
    assert(s.skip(front.len() as int) =~= name);
}

/// The extension of a path is what stands behind the last dot of its last name, and the
/// stem is what stands before it.
pub proof fn law_extension_is_behind_last_dot(front: Seq<char>, name: Seq<char>, ext: Seq<char>)
    requires
        front.len() > 0 ==> front.last() == '/',
        name.len() > 0,
        !name.contains('/'),
        ext.len() > 0,
        !ext.contains('/'),
        !ext.contains('.'),
    ensures
        suffix(front + name + seq!['.'] + ext) == Some(ext),
        stem(front + name + seq!['.'] + ext) == Some(name),
        final_name(front + name + seq!['.'] + ext) == Some(name + seq!['.'] + ext),
{
    reveal_strlit(".");
    reveal_strlit("..");
    let last = name + seq!['.'] + ext;
    let p = front + name + seq!['.'] + ext;
    assert(p =~= front + last);
    assert(p.last() == ext.last());
    assert(ext.contains(ext.last()));
    lemma_settled(p);
    assert(!last.contains('/')) by {
        assert forall|k: int| 0 <= k < last.len() implies last[k] != '/' by {
            if k < name.len() {
                assert(name.contains(name[k]));
            } else if k > name.len() {
                assert(ext.contains(ext[k - name.len() - 1]));
            }
        }
    }
    lemma_after_last_is(front, last);
    lemma_last_index(name, '.', ext);
    assert(last.skip(name.len() as int + 1) =~= ext);
    assert(last.take(name.len() as int) =~= name);
}

/// A name is put below a directory with one separator between them; an absolute one
/// stands for itself.
pub proof fn law_join_separates_once(base: Seq<char>, name: Seq<char>)
    requires
        base.len() > 0,
    ensures
        name.len() > 0 && name[0] == '/' ==> joined(base, name) == name,
        !(name.len() > 0 && name[0] == '/') && base.last() != '/' ==> joined(base, name) == base
            + seq!['/'] + name,
        !(name.len() > 0 && name[0] == '/') && base.last() == '/' ==> joined(base, name) == base
            + name,
{
}

/// What lies above a name in a directory is that directory; above the root there is
/// nothing.
pub proof fn law_parent_of_joined(base: Seq<char>, name: Seq<char>)
    requires
        base.len() > 0,
        base.last() != '/',
        base.last() != '.',
        name.len() > 0,
        !name.contains('/'),
        name.last() != '.',
    ensures
        above(joined(base, name)) == Some(base),
        above(seq!['/']) is None,
{
    assert(name.contains(name[0]));
    assert(name.contains(name.last()));
    let p = base + seq!['/'] + name;
    assert(p.last() == name.last());
    lemma_settled(p);
    lemma_last_index(base, '/', name);
    let cut = p.take(base.len() as int + 1);
    assert(cut =~= base.push('/'));
    assert(cut.drop_last() =~= base);
    lemma_settled(base);
    assert(p.len() > 1);
    assert(settled(cut) == settled(base));
    assert(settled(seq!['/']) == seq!['/']);
}

} // verus!
