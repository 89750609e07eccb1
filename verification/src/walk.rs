//! What a whole walk of a project directory finds.

use vstd::multiset::Multiset;
use vstd::prelude::*;

use crate::files::{
    law_walk_is_breadth_first, rel_path, skipped_dir, sorted_texts, text_rows, DirEntryV, EntryKind,
    PendingV, WalkV, MAX_DEPTH, MAX_INDEX_FILES,
};
use crate::order::{law_sorted_rows, sorted_rows, RowV};
use crate::text::text_less;

verus! {

// ── The walk ────────────────────────────────────────────────────────────────

/// The directories that can be listed, with their entries.
pub type Tree = Map<Seq<char>, Seq<DirEntryV>>;

/// A walk of `root` that has not begun.
pub open spec fn begun(root: Seq<char>) -> WalkV {
    WalkV {
        files: Seq::empty(),
        queue: seq![PendingV { dir: root, rel: Seq::empty(), depth: 0 }],
    }
}

/// The walk after its next directory, which is passed over if it cannot be listed.
pub open spec fn stepped(walk: WalkV, tree: Tree) -> WalkV {
    let at = walk.queue[0];
    let rest = WalkV { queue: walk.queue.remove(0), ..walk };
    if tree.contains_key(at.dir) {
        rest.with_entries(at, tree[at.dir])
    } else {
        rest
    }
}

/// The walk when it is over.
pub open spec fn walked(walk: WalkV, tree: Tree) -> WalkV
    decreases dirs_queued(tree, walk.queue),
{
    if walk.over() {
        walk
    } else {
        proof {
            lemma_step_lists_one(walk, tree);
        }
        walked(stepped(walk, tree), tree)
    }
}

/// The sub-directory that an entry makes the walk enter, if it is one.
pub open spec fn child(at: PendingV, e: DirEntryV) -> Option<PendingV> {
    if e.kind == EntryKind::Dir && !skipped_dir(e.name) {
        Some(
            PendingV {
                dir: e.path,
                rel: rel_path(at.rel, e.name),
                depth: (at.depth + 1) as usize,
            },
        )
    } else {
        None
    }
}

/// How many directories are listed at `at` and below.
pub open spec fn dirs_at(tree: Tree, at: PendingV) -> nat
    decreases MAX_DEPTH - at.depth, 1nat, 0nat,
{
    if at.depth > MAX_DEPTH {
        0
    } else if tree.contains_key(at.dir) {
        1 + dirs_among(tree, at, tree[at.dir])
    } else {
        1
    }
}

/// How many directories are listed below the entries of `at`.
pub open spec fn dirs_among(tree: Tree, at: PendingV, entries: Seq<DirEntryV>) -> nat
    decreases MAX_DEPTH - at.depth, 0nat, entries.len(),
{
    if at.depth > MAX_DEPTH || entries.len() == 0 {
        0
    } else {
        (match child(at, entries[0]) {
            Some(c) => if c.depth > MAX_DEPTH {
                0
            } else {
                dirs_at(tree, c)
            },
            None => 0,
        }) + dirs_among(tree, at, entries.drop_first())
    }
}

/// How many directories are listed for a queue.
pub open spec fn dirs_queued(tree: Tree, queue: Seq<PendingV>) -> nat
    decreases queue.len(),
{
    if queue.len() == 0 {
        0
    } else {
        dirs_at(tree, queue[0]) + dirs_queued(tree, queue.drop_first())
    }
}

proof fn lemma_dirs_push(tree: Tree, queue: Seq<PendingV>, at: PendingV)
    ensures
        dirs_queued(tree, queue.push(at)) == dirs_queued(tree, queue) + dirs_at(tree, at),
    decreases queue.len(),
{
    let longer = queue.push(at);
    if queue.len() == 0 {
        assert(longer[0] == at);
        assert(dirs_queued(tree, longer.drop_first()) == 0);
    } else {
        assert(longer[0] == queue[0]);
        assert(longer.drop_first() =~= queue.drop_first().push(at));
        lemma_dirs_push(tree, queue.drop_first(), at);
    }
}

proof fn lemma_dirs_of_entries(walk: WalkV, tree: Tree, at: PendingV, entries: Seq<DirEntryV>)
    requires
        at.depth <= MAX_DEPTH,
    ensures
        dirs_queued(tree, walk.with_entries(at, entries).queue) <= dirs_queued(tree, walk.queue)
            + dirs_among(tree, at, entries),
    decreases entries.len(),
{
    if entries.len() > 0 {
        let next = walk.with_entry(at, entries[0]);
        if let Some(c) = child(at, entries[0]) {
            lemma_dirs_push(tree, walk.queue, c);
        }
        lemma_dirs_of_entries(next, tree, at, entries.drop_first());
    }
}

/// Each step lists one directory, so that the walk comes to its end.
pub proof fn lemma_step_lists_one(walk: WalkV, tree: Tree)
    requires
        !walk.over(),
    ensures
        dirs_queued(tree, stepped(walk, tree).queue) < dirs_queued(tree, walk.queue),
{
    let at = walk.queue[0];
    let rest = WalkV { queue: walk.queue.remove(0), ..walk };
    assert(walk.queue.remove(0) =~= walk.queue.drop_first());
    if tree.contains_key(at.dir) {
        lemma_dirs_of_entries(rest, tree, at, tree[at.dir]);
    }
}

// ── What there is to find ───────────────────────────────────────────────────

/// From `dir`, the last of `names` is a file that is reached through the others,
/// none of which is ignored.
pub open spec fn is_file(tree: Tree, dir: Seq<char>, names: Seq<Seq<char>>) -> bool
    decreases names.len(),
{
    names.len() > 0 && tree.contains_key(dir) && exists|k: int|
        #![trigger tree[dir][k]]
        0 <= k < tree[dir].len() && leads_to(tree, tree[dir][k], names)
}

/// An entry leads to the file with these names.
pub open spec fn leads_to(tree: Tree, e: DirEntryV, names: Seq<Seq<char>>) -> bool
    decreases names.len(), 0nat,
    when names.len() > 0
{
    e.name == names[0] && if names.len() == 1 {
        e.kind == EntryKind::File
    } else {
        e.kind == EntryKind::Dir && !skipped_dir(e.name) && is_file(
            tree,
            e.path,
            names.drop_first(),
        )
    }
}

/// The names below `rel`, with separators between them.
pub open spec fn under(rel: Seq<char>, names: Seq<Seq<char>>) -> Seq<char>
    decreases names.len(),
{
    if names.len() == 0 {
        rel
    } else {
        under(rel_path(rel, names[0]), names.drop_first())
    }
}

/// A file that the walk reaches from `at`, as `path`.
pub open spec fn reached(tree: Tree, at: PendingV, names: Seq<Seq<char>>, path: Seq<char>) -> bool {
    &&& is_file(tree, at.dir, names)
    &&& at.depth + names.len() <= MAX_DEPTH + 1
    &&& path == under(at.rel, names)
}

/// A directory listing as file systems give it: no name is empty, has a separator
/// or stands there twice.
pub open spec fn proper_names(entries: Seq<DirEntryV>) -> bool {
    &&& forall|i: int|
        0 <= i < entries.len() ==> (#[trigger] entries[i]).name.len() > 0
            && !entries[i].name.contains('/')
    &&& forall|i: int, j: int|
        0 <= i < j < entries.len() ==> (#[trigger] entries[i]).name != (#[trigger] entries[j]).name
}

/// Every listing is a proper one.
pub open spec fn proper_tree(tree: Tree) -> bool {
    forall|dir: Seq<char>| #[trigger] tree.contains_key(dir) ==> proper_names(tree[dir])
}

/// The files at `at` and below, as often as they are found.
pub open spec fn found_at(tree: Tree, at: PendingV) -> Multiset<Seq<char>>
    decreases MAX_DEPTH - at.depth, 1nat, 0nat,
{
    if at.depth > MAX_DEPTH || !tree.contains_key(at.dir) {
        Multiset::empty()
    } else {
        found_among(tree, at, tree[at.dir])
    }
}

/// The files among the entries of `at` and below.
pub open spec fn found_among(tree: Tree, at: PendingV, entries: Seq<DirEntryV>) -> Multiset<
    Seq<char>,
>
    decreases MAX_DEPTH - at.depth, 0nat, entries.len(),
{
    if at.depth > MAX_DEPTH || entries.len() == 0 {
        Multiset::empty()
    } else {
        let e = entries[0];
        (if e.kind == EntryKind::File {
            Multiset::singleton(rel_path(at.rel, e.name))
        } else {
            match child(at, e) {
                Some(c) => if c.depth > MAX_DEPTH {
                    Multiset::empty()
                } else {
                    found_at(tree, c)
                },
                None => Multiset::empty(),
            }
        }).add(found_among(tree, at, entries.drop_first()))
    }
}

/// The files that a queue leads to.
pub open spec fn found_queued(tree: Tree, queue: Seq<PendingV>) -> Multiset<Seq<char>>
    decreases queue.len(),
{
    if queue.len() == 0 {
        Multiset::empty()
    } else {
        found_at(tree, queue[0]).add(found_queued(tree, queue.drop_first()))
    }
}

// ── The walk finds what there is ────────────────────────────────────────────

proof fn lemma_found_push(tree: Tree, queue: Seq<PendingV>, at: PendingV)
    ensures
        found_queued(tree, queue.push(at)) == found_queued(tree, queue).add(found_at(tree, at)),
    decreases queue.len(),
{
    broadcast use vstd::multiset::group_multiset_axioms;

    let longer = queue.push(at);
    if queue.len() == 0 {
        assert(longer[0] == at);
        assert(found_queued(tree, longer.drop_first()) =~= Multiset::empty());
        assert(found_queued(tree, longer) =~= found_queued(tree, queue).add(found_at(tree, at)));
    } else {
        assert(longer.drop_first() =~= queue.drop_first().push(at));
        lemma_found_push(tree, queue.drop_first(), at);
        assert(found_queued(tree, longer) =~= found_queued(tree, queue).add(found_at(tree, at)));
    }
}

/// What a walk has found, and what it still will.
pub open spec fn total(walk: WalkV, tree: Tree) -> Multiset<Seq<char>> {
    walk.files.to_multiset().add(found_queued(tree, walk.queue))
}

proof fn lemma_entries_keep_total(walk: WalkV, tree: Tree, at: PendingV, entries: Seq<DirEntryV>)
    requires
        at.depth <= MAX_DEPTH,
        walk.with_entries(at, entries).files.len() < MAX_INDEX_FILES,
    ensures
        total(walk.with_entries(at, entries), tree) == total(walk, tree).add(
            found_among(tree, at, entries),
        ),
    decreases entries.len(),
{
    broadcast use vstd::multiset::group_multiset_axioms;
    broadcast use vstd::seq_lib::group_to_multiset_ensures;

    if entries.len() > 0 {
        let e = entries[0];
        let next = walk.with_entry(at, e);
        lemma_entries_keep_total(next, tree, at, entries.drop_first());
        if e.kind == EntryKind::File {
            assert(next.files == walk.files.push(rel_path(at.rel, e.name)));
            assert(next.files.to_multiset() =~= walk.files.to_multiset().insert(
                rel_path(at.rel, e.name),
            ));
        } else if let Some(c) = child(at, e) {
            assert(next.queue == walk.queue.push(c));
            lemma_found_push(tree, walk.queue, c);
        }
    }
    assert(total(walk.with_entries(at, entries), tree) =~= total(walk, tree).add(
        found_among(tree, at, entries),
    ));
}

proof fn lemma_step_keeps_total(walk: WalkV, tree: Tree)
    requires
        !walk.over(),
        stepped(walk, tree).files.len() < MAX_INDEX_FILES,
    ensures
        total(stepped(walk, tree), tree) == total(walk, tree),
{
    broadcast use vstd::multiset::group_multiset_axioms;

    let at = walk.queue[0];
    let rest = WalkV { queue: walk.queue.remove(0), ..walk };
    assert(walk.queue.remove(0) =~= walk.queue.drop_first());
    if tree.contains_key(at.dir) {
        lemma_entries_keep_total(rest, tree, at, tree[at.dir]);
    }
    assert(total(stepped(walk, tree), tree) =~= total(walk, tree));
}

proof fn lemma_step_keeps_levels(walk: WalkV, tree: Tree)
    requires
        !walk.over(),
        walk.level_by_level(),
    ensures
        stepped(walk, tree).level_by_level(),
{
    let at = walk.queue[0];
    let rest = WalkV { queue: walk.queue.remove(0), ..walk };
    assert forall|i: int, j: int| 0 <= i < j < rest.queue.len() implies (
    #[trigger] rest.queue[i]).depth <= (#[trigger] rest.queue[j]).depth <= rest.queue[i].depth
        + 1 by {
        assert(rest.queue[i] == walk.queue[i + 1]);
        assert(rest.queue[j] == walk.queue[j + 1]);
    }
    assert forall|i: int| 0 <= i < rest.queue.len() implies at.depth <= (
    #[trigger] rest.queue[i]).depth <= at.depth + 1 by {
        assert(rest.queue[i] == walk.queue[i + 1]);
    }
    if tree.contains_key(at.dir) {
        law_walk_is_breadth_first(rest, at, tree[at.dir]);
    }
}

proof fn lemma_deep_queue(tree: Tree, queue: Seq<PendingV>)
    requires
        forall|i: int| 0 <= i < queue.len() ==> (#[trigger] queue[i]).depth > MAX_DEPTH,
    ensures
        found_queued(tree, queue) == Multiset::<Seq<char>>::empty(),
    decreases queue.len(),
{
    broadcast use vstd::multiset::group_multiset_axioms;

    if queue.len() > 0 {
        let rest = queue.drop_first();
        assert forall|i: int| 0 <= i < rest.len() implies (#[trigger] rest[i]).depth > MAX_DEPTH by {
            assert(rest[i] == queue[i + 1]);
        }
        lemma_deep_queue(tree, rest);
        assert(queue[0].depth > MAX_DEPTH);
    }
    assert(found_queued(tree, queue) =~= Multiset::<Seq<char>>::empty());
}

/// A walk below the limit ends with exactly what there was to find.
pub proof fn lemma_walk_finds_total(walk: WalkV, tree: Tree)
    requires
        walk.level_by_level(),
        walked(walk, tree).files.len() < MAX_INDEX_FILES,
    ensures
        walked(walk, tree).files.to_multiset() == total(walk, tree),
    decreases dirs_queued(tree, walk.queue),
{
    broadcast use vstd::multiset::group_multiset_axioms;

    if walk.over() {
        assert forall|i: int| 0 <= i < walk.queue.len() implies (
        #[trigger] walk.queue[i]).depth > MAX_DEPTH by {
            if i > 0 {
                assert(walk.queue[0].depth <= walk.queue[i].depth);
            }
        }
        lemma_deep_queue(tree, walk.queue);
        assert(walk.files.to_multiset() =~= total(walk, tree));
    } else {
        let next = stepped(walk, tree);
        lemma_step_lists_one(walk, tree);
        lemma_step_keeps_levels(walk, tree);
        assert(next.files.len() < MAX_INDEX_FILES) by {
            if next.files.len() >= MAX_INDEX_FILES {
                assert(walked(next, tree) == next);
            }
        }
        lemma_step_keeps_total(walk, tree);
        lemma_walk_finds_total(next, tree);
    }
}

// ── Each file once ──────────────────────────────────────────────────────────

/// A path below `rel` goes on behind it with a separator, or ends there.
proof fn lemma_under_front(rel: Seq<char>, names: Seq<Seq<char>>) -> (tail: Seq<char>)
    requires
        rel.len() > 0,
    ensures
        under(rel, names) == rel + tail,
        tail.len() > 0 ==> tail[0] == '/',
    decreases names.len(),
{
    reveal_strlit("/");
    if names.len() == 0 {
        assert(rel + Seq::<char>::empty() =~= rel);
        Seq::empty()
    } else {
        let more = lemma_under_front(rel_path(rel, names[0]), names.drop_first());
        let tail = "/"@ + names[0] + more;
        assert(under(rel, names) =~= rel + tail);
        tail
    }
}

/// Two paths below `rel` that are the same begin with the same name.
proof fn lemma_same_first_name(rel: Seq<char>, a: Seq<Seq<char>>, b: Seq<Seq<char>>)
    requires
        a.len() > 0,
        b.len() > 0,
        a[0].len() > 0,
        b[0].len() > 0,
        !a[0].contains('/'),
        !b[0].contains('/'),
        under(rel, a) == under(rel, b),
    ensures
        a[0] == b[0],
{
    reveal_strlit("/");
    let s = lemma_under_front(rel_path(rel, a[0]), a.drop_first());
    let t = lemma_under_front(rel_path(rel, b[0]), b.drop_first());
    let front = if rel.len() == 0 {
        Seq::empty()
    } else {
        rel + "/"@
    };
    let path = under(rel, a);
    assert(path =~= front + (a[0] + s));
    assert(path =~= front + (b[0] + t));
    let x = a[0] + s;
    let y = b[0] + t;
    assert(x =~= path.skip(front.len() as int));
    assert(y =~= path.skip(front.len() as int));
    assert(x == y);
    if a[0].len() < b[0].len() {
        let n = a[0].len() as int;
        assert(y[n] == b[0][n]);
        assert(b[0].contains(b[0][n]));
        assert(x[n] == s[0]);
    } else if b[0].len() < a[0].len() {
        let n = b[0].len() as int;
        assert(x[n] == a[0][n]);
        assert(a[0].contains(a[0][n]));
        assert(y[n] == t[0]);
    }
    assert(a[0] =~= x.take(a[0].len() as int));
    assert(b[0] =~= y.take(b[0].len() as int));
}

proof fn lemma_found_is_reached(tree: Tree, at: PendingV, path: Seq<char>) -> (names: Seq<Seq<char>>)
    requires
        found_at(tree, at).count(path) > 0,
    ensures
        reached(tree, at, names, path),
    decreases MAX_DEPTH - at.depth, 1nat, 0nat,
{
    broadcast use vstd::multiset::group_multiset_axioms;

    let (k, names) = lemma_among_is_reached(tree, at, tree[at.dir], path);
    assert(leads_to(tree, tree[at.dir][k], names));
    names
}

proof fn lemma_among_is_reached(
    tree: Tree,
    at: PendingV,
    entries: Seq<DirEntryV>,
    path: Seq<char>,
) -> (out: (int, Seq<Seq<char>>))
    requires
        found_among(tree, at, entries).count(path) > 0,
    ensures
        0 <= out.0 < entries.len(),
        out.1.len() > 0,
        leads_to(tree, entries[out.0], out.1),
        at.depth + out.1.len() <= MAX_DEPTH + 1,
        path == under(at.rel, out.1),
    decreases MAX_DEPTH - at.depth, 0nat, entries.len(),
{
    broadcast use vstd::multiset::group_multiset_axioms;

    let e = entries[0];
    let rest = entries.drop_first();
    if found_among(tree, at, rest).count(path) > 0 {
        let (k, names) = lemma_among_is_reached(tree, at, rest, path);
        assert(rest[k] == entries[k + 1]);
        (k + 1, names)
    } else if e.kind == EntryKind::File {
        let names = seq![e.name];
        reveal_with_fuel(under, 2);
        assert(names.drop_first() =~= Seq::empty());
        assert(path == rel_path(at.rel, e.name));
        (0, names)
    } else {
        let c = child(at, e)->0;
        let below = lemma_found_is_reached(tree, c, path);
        let names = seq![e.name] + below;
        assert(names.drop_first() =~= below);
        (0, names)
    }
}

proof fn lemma_reached_is_found(tree: Tree, at: PendingV, names: Seq<Seq<char>>, path: Seq<char>)
    requires
        reached(tree, at, names, path),
    ensures
        found_at(tree, at).count(path) > 0,
    decreases names.len(), 1nat, 0nat,
{
    let k = choose|k: int|
        #![trigger tree[at.dir][k]]
        0 <= k < tree[at.dir].len() && leads_to(tree, tree[at.dir][k], names);
    lemma_reached_is_among(tree, at, tree[at.dir], k, names, path);
}

proof fn lemma_reached_is_among(
    tree: Tree,
    at: PendingV,
    entries: Seq<DirEntryV>,
    k: int,
    names: Seq<Seq<char>>,
    path: Seq<char>,
)
    requires
        names.len() > 0,
        0 <= k < entries.len(),
        leads_to(tree, entries[k], names),
        at.depth + names.len() <= MAX_DEPTH + 1,
        path == under(at.rel, names),
    ensures
        found_among(tree, at, entries).count(path) > 0,
    decreases names.len(), 0nat, entries.len(),
{
    broadcast use vstd::multiset::group_multiset_axioms;

    if k > 0 {
        let rest = entries.drop_first();
        assert(rest[k - 1] == entries[k]);
        lemma_reached_is_among(tree, at, rest, k - 1, names, path);
    } else {
        let e = entries[0];
        let below = names.drop_first();
        if names.len() == 1 {
            reveal_with_fuel(under, 2);
            assert(below =~= Seq::empty());
        } else {
            let c = child(at, e)->0;
            lemma_reached_is_found(tree, c, below, path);
        }
    }
}

proof fn lemma_found_once(tree: Tree, at: PendingV, path: Seq<char>)
    requires
        proper_tree(tree),
    ensures
        found_at(tree, at).count(path) <= 1,
    decreases MAX_DEPTH - at.depth, 1nat, 0nat,
{
    broadcast use vstd::multiset::group_multiset_axioms;

    if at.depth <= MAX_DEPTH && tree.contains_key(at.dir) {
        lemma_among_once(tree, at, tree[at.dir], path);
    }
}

proof fn lemma_among_once(tree: Tree, at: PendingV, entries: Seq<DirEntryV>, path: Seq<char>)
    requires
        proper_tree(tree),
        proper_names(entries),
        at.depth <= MAX_DEPTH,
    ensures
        found_among(tree, at, entries).count(path) <= 1,
    decreases MAX_DEPTH - at.depth, 0nat, entries.len(),
{
    broadcast use vstd::multiset::group_multiset_axioms;

    if entries.len() > 0 {
        let e = entries[0];
        let rest = entries.drop_first();
        assert(proper_names(rest)) by {
            assert forall|i: int| 0 <= i < rest.len() implies (#[trigger] rest[i]).name.len() > 0
                && !rest[i].name.contains('/') by {
                assert(rest[i] == entries[i + 1]);
            }
            assert forall|i: int, j: int| 0 <= i < j < rest.len() implies (
            #[trigger] rest[i]).name != (#[trigger] rest[j]).name by {
                assert(rest[i] == entries[i + 1]);
                assert(rest[j] == entries[j + 1]);
            }
        }
        lemma_among_once(tree, at, rest, path);
        if let Some(c) = child(at, e) {
            if c.depth <= MAX_DEPTH {
                lemma_found_once(tree, c, path);
            }
        }
        let one = seq![e];
        assert(one.drop_first() =~= Seq::empty());
        let first = found_among(tree, at, one).count(path);
        assert(found_among(tree, at, one.drop_first()).count(path) == 0);
        assert(first <= 1);
        assert(found_among(tree, at, entries).count(path) == first + found_among(
            tree,
            at,
            rest,
        ).count(path));
        if first > 0 && found_among(tree, at, rest).count(path) > 0 {
            let (i, a) = lemma_among_is_reached(tree, at, one, path);
            let (j, b) = lemma_among_is_reached(tree, at, rest, path);
            assert(one[i] == entries[0]);
            assert(rest[j] == entries[j + 1]);
            lemma_same_first_name(at.rel, a, b);
            assert(entries[0].name != entries[j + 1].name);
        }
    }
}

// ── Sorted ──────────────────────────────────────────────────────────────────

/// The row of a text.
spec fn text_row(text: Seq<char>) -> RowV {
    RowV { rank: 0, text, index: 0 }
}

proof fn lemma_row_counts(rows: Seq<RowV>, text: Seq<char>)
    requires
        forall|i: int| 0 <= i < rows.len() ==> #[trigger] rows[i] == text_row(rows[i].text),
    ensures
        rows.map_values(|r: RowV| r.text).to_multiset().count(text) == rows.to_multiset().count(
            text_row(text),
        ),
    decreases rows.len(),
{
    broadcast use vstd::multiset::group_multiset_axioms;
    broadcast use vstd::seq_lib::group_to_multiset_ensures;

    let texts = rows.map_values(|r: RowV| r.text);
    if rows.len() == 0 {
        assert(texts =~= Seq::empty());
        assert(rows =~= Seq::empty());
    } else {
        let less = rows.drop_last();
        assert forall|i: int| 0 <= i < less.len() implies #[trigger] less[i] == text_row(
            less[i].text,
        ) by {
            assert(less[i] == rows[i]);
        }
        lemma_row_counts(less, text);
        assert(rows =~= less.push(rows.last()));
        assert(texts =~= less.map_values(|r: RowV| r.text).push(rows.last().text));
        assert(rows[rows.len() - 1] == text_row(rows.last().text));
    }
}

/// Sorting texts keeps each as often as it occurs.
pub proof fn lemma_sorted_texts(texts: Seq<Seq<char>>)
    ensures
        sorted_texts(texts).to_multiset() == texts.to_multiset(),
        forall|i: int, j: int|
            0 <= i < j < sorted_texts(texts).len() ==> text_less(
                #[trigger] sorted_texts(texts)[i],
                #[trigger] sorted_texts(texts)[j],
            ) || sorted_texts(texts)[i] == sorted_texts(texts)[j],
{
    broadcast use vstd::multiset::group_multiset_axioms;

    let rows = text_rows(texts);
    let sorted = sorted_rows(rows);
    law_sorted_rows(rows);
    rows.to_multiset_ensures();
    sorted.to_multiset_ensures();
    assert forall|i: int| 0 <= i < rows.len() implies #[trigger] rows[i] == text_row(
        rows[i].text,
    ) by {}
    assert forall|i: int| 0 <= i < sorted.len() implies #[trigger] sorted[i] == text_row(
        sorted[i].text,
    ) by {
        assert(sorted.contains(sorted[i]));
        assert(sorted.to_multiset().count(sorted[i]) > 0);
        assert(rows.contains(sorted[i]));
    }
    assert(rows.map_values(|r: RowV| r.text) =~= texts);
    assert forall|t: Seq<char>| sorted_texts(texts).to_multiset().count(t)
        == texts.to_multiset().count(t) by {
        lemma_row_counts(rows, t);
        lemma_row_counts(sorted, t);
    }
    assert(sorted_texts(texts).to_multiset() =~= texts.to_multiset());
    assert forall|i: int, j: int| 0 <= i < j < sorted_texts(texts).len() implies text_less(
        #[trigger] sorted_texts(texts)[i],
        #[trigger] sorted_texts(texts)[j],
    ) || sorted_texts(texts)[i] == sorted_texts(texts)[j] by {
        assert(crate::order::row_leq(sorted[i], sorted[j]));
        assert(sorted[i] == text_row(sorted[i].text));
        assert(sorted[j] == text_row(sorted[j].text));
    }
}

// ── Laws ────────────────────────────────────────────────────────────────────

/// What a whole walk of `root` gives.
pub open spec fn walk_result(root: Seq<char>, tree: Tree) -> Seq<Seq<char>> {
    sorted_texts(walked(begun(root), tree).files)
}

/// The names lead to a file through at most [`MAX_DEPTH`] directories below `root`,
/// none of them ignored.
pub open spec fn in_reach(tree: Tree, root: Seq<char>, names: Seq<Seq<char>>) -> bool {
    is_file(tree, root, names) && names.len() <= MAX_DEPTH + 1
}

/// Below the limit, a whole walk gives every file in reach, by its path from the
/// root; it gives nothing else, and each file once, in order.
pub proof fn law_walk_finds_every_file(root: Seq<char>, tree: Tree)
    requires
        proper_tree(tree),
        walk_result(root, tree).len() < MAX_INDEX_FILES,
    ensures
        forall|names: Seq<Seq<char>>| #[trigger]
            in_reach(tree, root, names) ==> walk_result(root, tree).contains(
                under(Seq::empty(), names),
            ),
        forall|path: Seq<char>| #[trigger]
            walk_result(root, tree).contains(path) ==> exists|names: Seq<Seq<char>>| #[trigger]
                in_reach(tree, root, names) && path == under(Seq::empty(), names),
        forall|i: int, j: int|
            0 <= i < j < walk_result(root, tree).len() ==> text_less(
                #[trigger] walk_result(root, tree)[i],
                #[trigger] walk_result(root, tree)[j],
            ),
{
    broadcast use vstd::multiset::group_multiset_axioms;

    let at = PendingV { dir: root, rel: Seq::empty(), depth: 0 };
    let start = begun(root);
    let files = walked(start, tree).files;
    let out = walk_result(root, tree);
    assert(start.level_by_level());
    lemma_sorted_texts(files);
    out.to_multiset_ensures();
    files.to_multiset_ensures();
    lemma_walk_finds_total(start, tree);
    assert(found_queued(tree, start.queue.drop_first()) =~= Multiset::empty());
    start.files.to_multiset_ensures();
    assert(start.files.to_multiset() =~= Multiset::empty());
    assert(total(start, tree) =~= found_at(tree, at));
    assert forall|names: Seq<Seq<char>>| #[trigger]
        in_reach(tree, root, names) implies out.contains(under(Seq::empty(), names)) by {
        lemma_reached_is_found(tree, at, names, under(Seq::empty(), names));
    }
    assert forall|path: Seq<char>| #[trigger] out.contains(path) implies exists|
        names: Seq<Seq<char>>,
    | #[trigger] in_reach(tree, root, names) && path == under(Seq::empty(), names) by {
        let names = lemma_found_is_reached(tree, at, path);
        assert(in_reach(tree, root, names));
    }
    assert forall|x: Seq<char>| out.to_multiset().contains(x) implies out.to_multiset().count(x)
        == 1 by {
        lemma_found_once(tree, at, x);
    }
    out.lemma_multiset_has_no_duplicates_conv();
    assert forall|i: int, j: int| 0 <= i < j < out.len() implies text_less(
        #[trigger] out[i],
        #[trigger] out[j],
    ) by {
        assert(out[i] != out[j]);
    }
}

/// A whole walk never gives more files than the index holds.
pub proof fn law_walk_keeps_limit(walk: WalkV, tree: Tree)
    requires
        walk.files.len() <= MAX_INDEX_FILES,
    ensures
        walked(walk, tree).files.len() <= MAX_INDEX_FILES,
    decreases dirs_queued(tree, walk.queue),
{
    if !walk.over() {
        let at = walk.queue[0];
        let rest = WalkV { queue: walk.queue.remove(0), ..walk };
        lemma_step_lists_one(walk, tree);
        if tree.contains_key(at.dir) {
            crate::files::law_walk_is_bounded(rest, at, tree[at.dir]);
        }
        law_walk_keeps_limit(stepped(walk, tree), tree);
    }
}

/// Hidden directories, and those that hold no project files by their name, are not
/// entered; any other is.
pub proof fn law_ignored_directories_are_named(name: Seq<char>)
    ensures
        name.len() > 0 && name[0] == '.' ==> skipped_dir(name),
        name == "node_modules"@ || name == "target"@ || name == "dist"@ || name == "build"@ || name
            == "vendor"@ || name == "coverage"@ || name == "__pycache__"@ ==> skipped_dir(name),
        name.len() > 0 && name[0] != '.' && name != "node_modules"@ && name != "target"@ && name
            != "dist"@ && name != "build"@ && name != "vendor"@ && name != "coverage"@ && name
            != "__pycache__"@ ==> !skipped_dir(name),
{
    reveal_strlit(".");
    reveal_strlit(".git");
    reveal_strlit(".next");
    reveal_strlit(".turbo");
    reveal_strlit(".cache");
    reveal_strlit(".pytest_cache");
    reveal_strlit(".mypy_cache");
    reveal_strlit(".svn");
    let all = crate::files::ignored_dirs();
    assert("."@ =~= seq!['.']);
    assert(".git"@[0] == '.' && ".next"@[0] == '.' && ".turbo"@[0] == '.' && ".cache"@[0] == '.'
        && ".pytest_cache"@[0] == '.' && ".mypy_cache"@[0] == '.' && ".svn"@[0] == '.');
    if name.len() > 0 && name[0] == '.' {
        assert(name.take(1) =~= "."@);
    } else if name.len() > 0 {
        assert(name.take(1)[0] == name[0]);
        assert("."@[0] == '.');
    }
    assert(all[0] == "node_modules"@ && all[3] == "dist"@ && all[4] == "build"@ && all[5]
        == "__pycache__"@ && all[8] == "coverage"@ && all[11] == "target"@ && all[12]
        == "vendor"@);
    assert(all[1] == ".git"@ && all[2] == ".next"@ && all[6] == ".turbo"@ && all[7] == ".cache"@
        && all[9] == ".pytest_cache"@ && all[10] == ".mypy_cache"@ && all[13] == ".svn"@);
}

/// A whole walk starts at its root, takes one directory after the other, and lists each
/// that can be listed.
pub proof fn law_walk_takes_directories_in_order(walk: WalkV, tree: Tree, at: PendingV)
    requires
        !walk.over(),
        walk.queue[0] == at,
    ensures
        walked(walk, tree) == walked(
            if tree.contains_key(at.dir) {
                (WalkV { queue: walk.queue.drop_first(), ..walk }).with_entries(at, tree[at.dir])
            } else {
                WalkV { queue: walk.queue.drop_first(), ..walk }
            },
            tree,
        ),
{
    assert(walk.queue.remove(0) =~= walk.queue.drop_first());
}

} // verus!
