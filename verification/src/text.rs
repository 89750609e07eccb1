//! Text as a sequence of characters: what the string operations of this crate
//! mean, and the operations themselves.

use vstd::prelude::*;
use vstd::string::*;
use vstd::utf8::{decode_utf8, valid_utf8};

verus! {

/// `String::push`: appends one character.
pub assume_specification[ String::push ](s: &mut String, c: char)
    ensures
        final(s)@ == old(s)@.push(c),
;

/// The text that bytes encode; nothing if they are no UTF-8.
pub open spec fn text_of(bytes: Seq<u8>) -> Option<Seq<char>> {
    if valid_utf8(bytes) {
        Some(decode_utf8(bytes))
    } else {
        None
    }
}

/// `String::from_utf8`: the text of valid UTF-8, and an error for any other
/// bytes. What the error tells of them is dropped.
#[verifier::external_body]
pub(crate) fn utf8_text(bytes: Vec<u8>) -> (out: Option<String>)
    ensures
        out.deep_view() == text_of(bytes@),
{
    String::from_utf8(bytes).ok()
}

/// Where `b` first occurs in `s`; the length of `s` if it does not.
pub open spec fn find_byte(s: Seq<u8>, b: u8) -> int
    decreases s.len(),
{
    if s.len() == 0 || s[0] == b {
        0
    } else {
        1 + find_byte(s.drop_first(), b)
    }
}

/// `s` up to and with the last `b`; nothing if it has none.
pub open spec fn up_to_last(s: Seq<u8>, b: u8) -> Seq<u8>
    decreases s.len(),
{
    if s.len() == 0 || s.last() == b {
        s
    } else {
        up_to_last(s.drop_last(), b)
    }
}

/// Unicode `White_Space`.
pub open spec fn is_white(c: char) -> bool {
    let u = c as u32;
    ||| 0x9 <= u <= 0xd
    ||| u == 0x20
    ||| u == 0x85
    ||| u == 0xa0
    ||| u == 0x1680
    ||| 0x2000 <= u <= 0x200a
    ||| u == 0x2028
    ||| u == 0x2029
    ||| u == 0x202f
    ||| u == 0x205f
    ||| u == 0x3000
}

/// ASCII white space: space, tab, line feed, form feed, carriage return.
pub open spec fn is_ascii_white(c: char) -> bool {
    c == ' ' || c == '\t' || c == '\n' || c == '\x0c' || c == '\r'
}

/// `s` without its leading white space.
pub open spec fn trim_start(s: Seq<char>) -> Seq<char>
    decreases s.len(),
{
    if s.len() > 0 && is_white(s[0]) {
        trim_start(s.drop_first())
    } else {
        s
    }
}

/// `s` without its trailing white space.
pub open spec fn trim_end(s: Seq<char>) -> Seq<char>
    decreases s.len(),
{
    if s.len() > 0 && is_white(s.last()) {
        trim_end(s.drop_last())
    } else {
        s
    }
}

/// `s` without the white space around it.
pub open spec fn trimmed(s: Seq<char>) -> Seq<char> {
    trim_end(trim_start(s))
}

/// `s` without leading `c`s.
pub open spec fn trim_start_char(s: Seq<char>, c: char) -> Seq<char>
    decreases s.len(),
{
    if s.len() > 0 && s[0] == c {
        trim_start_char(s.drop_first(), c)
    } else {
        s
    }
}

/// `s` without trailing `c`s.
pub open spec fn trim_end_char(s: Seq<char>, c: char) -> Seq<char>
    decreases s.len(),
{
    if s.len() > 0 && s.last() == c {
        trim_end_char(s.drop_last(), c)
    } else {
        s
    }
}

/// Where `c` first occurs in `s`; the length of `s` if it does not.
pub open spec fn find(s: Seq<char>, c: char) -> int
    decreases s.len(),
{
    if s.len() == 0 || s[0] == c {
        0
    } else {
        1 + find(s.drop_first(), c)
    }
}

pub proof fn lemma_find_bounds(s: Seq<char>, c: char)
    ensures
        0 <= find(s, c) <= s.len(),
        find(s, c) < s.len() ==> s[find(s, c)] == c,
        forall|i: int| 0 <= i < find(s, c) ==> s[i] != c,
        find(s, c) < s.len() <==> s.contains(c),
    decreases s.len(),
{
    if s.len() > 0 && s[0] != c {
        lemma_find_bounds(s.drop_first(), c);
        assert forall|i: int| 0 <= i < find(s, c) implies s[i] != c by {
            if i > 0 {
                assert(s[i] == s.drop_first()[i - 1]);
            }
        }
        if s.contains(c) {
            let k = choose|k: int| 0 <= k < s.len() && s[k] == c;
            assert(s.drop_first()[k - 1] == c);
        }
    }
}

/// The first index from `from` on that holds `c` is `find`'s answer.
proof fn lemma_find_is(s: Seq<char>, c: char, at: int)
    requires
        0 <= at <= s.len(),
        forall|i: int| 0 <= i < at ==> s[i] != c,
        at < s.len() ==> s[at] == c,
    ensures
        find(s, c) == at,
{
    lemma_find_bounds(s, c);
}

/// The pieces of `s` between the `c`s.
pub open spec fn split_on(s: Seq<char>, c: char) -> Seq<Seq<char>>
    decreases s.len(),
{
    let at = find(s, c);
    if 0 <= at < s.len() {
        seq![s.take(at)] + split_on(s.skip(at + 1), c)
    } else {
        seq![s]
    }
}

/// What follows the last `c` of `s`; all of `s` if it has none.
pub open spec fn after_last(s: Seq<char>, c: char) -> Seq<char>
    decreases s.len(),
{
    let at = find(s, c);
    if 0 <= at < s.len() {
        after_last(s.skip(at + 1), c)
    } else {
        s
    }
}

/// `line` without a final carriage return.
pub open spec fn without_cr(line: Seq<char>) -> Seq<char> {
    if line.len() > 0 && line.last() == '\r' {
        line.drop_last()
    } else {
        line
    }
}

/// The lines of `s`: ended by a line feed, with a carriage return before it
/// left out; the last one may lack the ending.
pub open spec fn lines_of(s: Seq<char>) -> Seq<Seq<char>>
    decreases s.len(),
{
    let at = find(s, '\n');
    if s.len() == 0 {
        Seq::empty()
    } else if 0 <= at < s.len() {
        seq![without_cr(s.take(at))] + lines_of(s.skip(at + 1))
    } else {
        seq![s]
    }
}

/// The first line of `s`, or nothing.
pub open spec fn first_line(s: Seq<char>) -> Seq<char> {
    let at = find(s, '\n');
    if at < s.len() {
        without_cr(s.take(at))
    } else {
        s
    }
}

/// How many leading characters of `s` are not white space.
pub open spec fn word_len(s: Seq<char>) -> int
    decreases s.len(),
{
    if s.len() == 0 || is_white(s[0]) {
        0
    } else {
        1 + word_len(s.drop_first())
    }
}

pub proof fn lemma_word_len_bounds(s: Seq<char>)
    ensures
        0 <= word_len(s) <= s.len(),
        forall|i: int| 0 <= i < word_len(s) ==> !is_white(s[i]),
        word_len(s) < s.len() ==> is_white(s[word_len(s)]),
    decreases s.len(),
{
    if s.len() > 0 && !is_white(s[0]) {
        lemma_word_len_bounds(s.drop_first());
        assert forall|i: int| 0 <= i < word_len(s) implies !is_white(s[i]) by {
            if i > 0 {
                assert(s[i] == s.drop_first()[i - 1]);
            }
        }
    }
}

/// The words of `s`: its longest runs without white space.
pub open spec fn words_of(s: Seq<char>) -> Seq<Seq<char>>
    decreases s.len(),
{
    if s.len() == 0 {
        Seq::empty()
    } else if is_white(s[0]) {
        words_of(s.drop_first())
    } else if 0 < word_len(s) <= s.len() {
        seq![s.take(word_len(s))] + words_of(s.skip(word_len(s)))
    } else {
        Seq::empty()
    }
}

/// How many characters of `s` stand before the word that ends it.
pub open spec fn word_start(s: Seq<char>) -> int
    decreases s.len(),
{
    if s.len() == 0 || is_white(s.last()) {
        s.len() as int
    } else {
        word_start(s.drop_last())
    }
}

/// `s` without its last word and the white space behind it.
pub open spec fn before_last_word(s: Seq<char>) -> Seq<char> {
    trim_end(s).take(word_start(trim_end(s)))
}

/// The last word of `s` runs from `i` up to `j`.
pub open spec fn last_word_at(s: Seq<char>, i: int, j: int) -> bool {
    &&& 0 <= i < j <= s.len()
    &&& i > 0 ==> is_white(s[i - 1])
    &&& forall|k: int| i <= k < j ==> !is_white(#[trigger] s[k])
    &&& forall|k: int| j <= k < s.len() ==> is_white(#[trigger] s[k])
}

proof fn lemma_trim_end_is(s: Seq<char>, j: int)
    requires
        0 < j <= s.len(),
        !is_white(s[j - 1]),
        forall|k: int| j <= k < s.len() ==> is_white(#[trigger] s[k]),
    ensures
        trim_end(s) == s.take(j),
    decreases s.len(),
{
    if j < s.len() {
        lemma_trim_end_is(s.drop_last(), j);
        assert(s.drop_last().take(j) =~= s.take(j));
    } else {
        assert(s.take(j) =~= s);
    }
}

proof fn lemma_word_start_is(s: Seq<char>, i: int)
    requires
        0 <= i <= s.len(),
        i > 0 ==> is_white(s[i - 1]),
        forall|k: int| i <= k < s.len() ==> !is_white(#[trigger] s[k]),
    ensures
        word_start(s) == i,
    decreases s.len(),
{
    if i < s.len() {
        lemma_word_start_is(s.drop_last(), i);
    }
}

/// What stands before the last word.
pub proof fn lemma_before_last_word(s: Seq<char>, i: int, j: int)
    requires
        last_word_at(s, i, j),
    ensures
        before_last_word(s) == s.take(i),
        trim_end(s) == s.take(j),
{
    lemma_trim_end_is(s, j);
    let t = s.take(j);
    assert forall|k: int| i <= k < t.len() implies !is_white(#[trigger] t[k]) by {
        assert(t[k] == s[k]);
    }
    lemma_word_start_is(t, i);
    assert(t.take(i) =~= s.take(i));
}

proof fn lemma_no_words(s: Seq<char>)
    requires
        words_of(s).len() == 0,
    ensures
        forall|k: int| 0 <= k < s.len() ==> is_white(#[trigger] s[k]),
    decreases s.len(),
{
    if s.len() > 0 {
        lemma_word_len_bounds(s);
        assert(is_white(s[0]));
        lemma_no_words(s.drop_first());
        assert forall|k: int| 0 <= k < s.len() implies is_white(#[trigger] s[k]) by {
            if k > 0 {
                assert(s[k] == s.drop_first()[k - 1]);
            }
        }
    }
}

/// Where the last of the words stands.
pub proof fn lemma_words_last(s: Seq<char>) -> (at: (int, int))
    requires
        words_of(s).len() > 0,
    ensures
        last_word_at(s, at.0, at.1),
        words_of(s).last() == s.subrange(at.0, at.1),
    decreases s.len(),
{
    if is_white(s[0]) {
        let rest = s.drop_first();
        let (i, j) = lemma_words_last(rest);
        lemma_shift_last_word(s, 1, i, j);
        (i + 1, j + 1)
    } else {
        lemma_word_len_bounds(s);
        let n = word_len(s);
        let rest = s.skip(n);
        if words_of(rest).len() > 0 {
            let (i, j) = lemma_words_last(rest);
            assert(rest[0] == s[n]);
            assert(i > 0) by {
                assert(is_white(rest[0]));
            }
            lemma_shift_last_word(s, n, i, j);
            assert(words_of(s).last() == words_of(rest).last());
            (i + n, j + n)
        } else {
            lemma_no_words(rest);
            assert forall|k: int| n <= k < s.len() implies is_white(#[trigger] s[k]) by {
                assert(s[k] == rest[k - n]);
            }
            assert(words_of(s) =~= seq![s.take(n)]);
            assert(s.take(n) =~= s.subrange(0, n));
            (0, n)
        }
    }
}

/// The last word of the rest of `s` is the last word of `s`, unless it goes on in
/// front.
pub proof fn lemma_shift_last_word(s: Seq<char>, n: int, i: int, j: int)
    requires
        0 <= n <= s.len(),
        last_word_at(s.skip(n), i, j),
        i > 0 || n == 0 || is_white(s[n - 1]),
    ensures
        last_word_at(s, i + n, j + n),
        s.skip(n).subrange(i, j) == s.subrange(i + n, j + n),
{
    let rest = s.skip(n);
    assert forall|k: int| i + n <= k < j + n implies !is_white(#[trigger] s[k]) by {
        assert(s[k] == rest[k - n]);
    }
    assert forall|k: int| j + n <= k < s.len() implies is_white(#[trigger] s[k]) by {
        assert(s[k] == rest[k - n]);
    }
    if i > 0 {
        assert(s[i + n - 1] == rest[i - 1]);
    }
    assert(rest.subrange(i, j) =~= s.subrange(i + n, j + n));
}

/// Where what follows the last `c` begins.
pub proof fn lemma_after_last(s: Seq<char>, c: char) -> (at: int)
    ensures
        0 <= at <= s.len(),
        after_last(s, c) == s.skip(at),
        at > 0 ==> s[at - 1] == c,
        forall|k: int| at <= k < s.len() ==> s[k] != c,
    decreases s.len(),
{
    lemma_find_bounds(s, c);
    let k = find(s, c);
    if k < s.len() {
        let rest = s.skip(k + 1);
        let n = lemma_after_last(rest, c);
        assert(rest.skip(n) =~= s.skip(n + k + 1));
        if n > 0 {
            assert(rest[n - 1] == s[n + k]);
        }
        assert forall|i: int| n + k + 1 <= i < s.len() implies s[i] != c by {
            assert(s[i] == rest[i - k - 1]);
        }
        n + k + 1
    } else {
        assert(s.skip(0) =~= s);
        0
    }
}

/// Whether `s` begins with `prefix`.
pub open spec fn begins(s: Seq<char>, prefix: Seq<char>) -> bool {
    prefix.len() <= s.len() && s.take(prefix.len() as int) == prefix
}

/// `s` without `prefix` at its front, as often as it stands there.
pub open spec fn trim_prefixes(s: Seq<char>, prefix: Seq<char>) -> Seq<char>
    decreases s.len(),
{
    if prefix.len() > 0 && begins(s, prefix) {
        trim_prefixes(s.skip(prefix.len() as int), prefix)
    } else {
        s
    }
}

/// ASCII lower case of one character.
pub open spec fn lower_char(c: char) -> char {
    if 'A' <= c <= 'Z' {
        (c as u32 + 32) as char
    } else {
        c
    }
}

/// ASCII lower case.
pub open spec fn lower(s: Seq<char>) -> Seq<char> {
    s.map_values(|c: char| lower_char(c))
}

/// `s` with every occurrence of `pattern`, taken from the left, replaced.
pub open spec fn replaced(s: Seq<char>, pattern: Seq<char>, by: Seq<char>) -> Seq<char>
    decreases s.len(),
{
    if s.len() == 0 {
        s
    } else if pattern.len() > 0 && begins(s, pattern) {
        by + replaced(s.skip(pattern.len() as int), pattern, by)
    } else {
        seq![s[0]] + replaced(s.drop_first(), pattern, by)
    }
}

/// The digit `d` in base ten.
pub open spec fn digit_char(d: int) -> char {
    (('0' as u32) + d) as char
}

/// `n` in base ten.
pub open spec fn decimal(n: nat) -> Seq<char>
    decreases n,
{
    if n < 10 {
        seq![digit_char(n as int)]
    } else {
        decimal(n / 10).push(digit_char((n % 10) as int))
    }
}

/// Whether `a` stands before `b` when text is ordered character by character.
pub open spec fn text_less(a: Seq<char>, b: Seq<char>) -> bool
    decreases a.len(),
{
    if b.len() == 0 {
        false
    } else if a.len() == 0 {
        true
    } else if a[0] != b[0] {
        a[0] < b[0]
    } else {
        text_less(a.drop_first(), b.drop_first())
    }
}

/// Whether `pattern` stands somewhere in `s`.
pub open spec fn has_text(s: Seq<char>, pattern: Seq<char>) -> bool {
    exists|i: int| 0 <= i <= s.len() && #[trigger] begins(s.skip(i), pattern)
}

/// Where `pattern` first stands in `s`.
pub open spec fn find_text(s: Seq<char>, pattern: Seq<char>) -> Option<int>
    decreases s.len(),
{
    if begins(s, pattern) {
        Some(0)
    } else if s.len() == 0 {
        None
    } else {
        match find_text(s.drop_first(), pattern) {
            Some(k) => Some(k + 1),
            None => None,
        }
    }
}

/// What stands before and after the first `pattern` in `s`.
pub open spec fn cut_at(s: Seq<char>, pattern: Seq<char>) -> Option<(Seq<char>, Seq<char>)> {
    match find_text(s, pattern) {
        Some(k) => Some((s.take(k), s.skip(k + pattern.len()))),
        None => None,
    }
}

/// At most `n` characters from the front of `s`.
pub open spec fn clipped(s: Seq<char>, n: int) -> Seq<char> {
    if s.len() <= n {
        s
    } else {
        s.take(n)
    }
}

broadcast use crate::model::group_views;

// ── Operations ──────────────────────────────────────────────────────────────

/// The characters of `s`, in order.
pub fn chars_of(s: &str) -> (out: Vec<char>)
    ensures
        out@ == s@,
{
    let mut out: Vec<char> = Vec::new();
    for c in it: s.chars()
        invariant
            it.seq() == s@,
            out@ == s@.take(it.index() as int),
    {
        out.push(c);
        assert(s@.take(it.index() + 1) =~= s@.take(it.index() as int).push(c));
    }
    assert(s@.take(s@.len() as int) =~= s@);
    out
}

/// The bytes from `from` up to `to`.
pub fn byte_piece(v: &Vec<u8>, from: usize, to: usize) -> (out: Vec<u8>)
    requires
        from <= to <= v@.len(),
    ensures
        out@ == v@.subrange(from as int, to as int),
{
    let mut out: Vec<u8> = Vec::new();
    let mut i: usize = from;
    while i < to
        invariant
            from <= i <= to <= v@.len(),
            out@ == v@.subrange(from as int, i as int),
        decreases to - i,
    {
        out.push(v[i]);
        i += 1;
        assert(v@.subrange(from as int, i as int) =~= v@.subrange(from as int, i - 1).push(v@[i - 1]));
    }
    out
}

/// Index of the first `b`, or the length.
pub fn first_byte(v: &Vec<u8>, b: u8) -> (at: usize)
    ensures
        at == find_byte(v@, b),
        at <= v@.len(),
{
    let mut i: usize = 0;
    assert(v@.skip(0) =~= v@);
    while i < v.len() && v[i] != b
        invariant
            i <= v@.len(),
            find_byte(v@, b) == i + find_byte(v@.skip(i as int), b),
        decreases v@.len() - i,
    {
        assert(v@.skip(i as int)[0] == v@[i as int]);
        assert(v@.skip(i as int).drop_first() =~= v@.skip(i + 1));
        i += 1;
    }
    assert(find_byte(v@.skip(i as int), b) == 0) by {
        if i < v@.len() {
            assert(v@.skip(i as int)[0] == v@[i as int]);
        }
    }
    i
}

/// The bytes up to and with the last `b`; none if it does not occur.
pub fn through_last(v: &Vec<u8>, b: u8) -> (out: Vec<u8>)
    ensures
        out@ == up_to_last(v@, b),
{
    let mut n: usize = v.len();
    assert(v@.take(n as int) =~= v@);
    while n > 0 && v[n - 1] != b
        invariant
            n <= v@.len(),
            up_to_last(v@.take(n as int), b) == up_to_last(v@, b),
        decreases n,
    {
        assert(v@.take(n as int).drop_last() =~= v@.take(n - 1));
        n -= 1;
    }
    let out = byte_piece(v, 0, n);
    assert(out@ =~= v@.take(n as int));
    out
}

/// The text from `from` up to `to`.
pub fn piece(v: &Vec<char>, from: usize, to: usize) -> (out: String)
    requires
        from <= to <= v@.len(),
    ensures
        out@ == v@.subrange(from as int, to as int),
{
    let mut out = String::new();
    let mut i: usize = from;
    while i < to
        invariant
            from <= i <= to <= v@.len(),
            out@ == v@.subrange(from as int, i as int),
        decreases to - i,
    {
        out.push(v[i]);
        i += 1;
        assert(v@.subrange(from as int, i as int) =~= v@.subrange(from as int, i - 1).push(v@[i - 1]));
    }
    out
}

/// Whether two texts are the same.
pub fn same(a: &str, b: &str) -> (r: bool)
    ensures
        r == (a@ == b@),
{
    a.to_owned() == b.to_owned()
}

pub fn white(c: char) -> (r: bool)
    ensures
        r == is_white(c),
{
    let u: u32 = c as u32;
    (0x9 <= u && u <= 0xd) || u == 0x20 || u == 0x85 || u == 0xa0 || u == 0x1680 || (0x2000 <= u
        && u <= 0x200a) || u == 0x2028 || u == 0x2029 || u == 0x202f || u == 0x205f || u == 0x3000
}

pub fn ascii_white(c: char) -> (r: bool)
    ensures
        r == is_ascii_white(c),
{
    c == ' ' || c == '\t' || c == '\n' || c == '\x0c' || c == '\r'
}

/// Index of the first `c` at or after `from`, or the length.
pub fn find_from(v: &Vec<char>, from: usize, c: char) -> (at: usize)
    requires
        from <= v@.len(),
    ensures
        at == from + find(v@.skip(from as int), c),
        from <= at <= v@.len(),
        at < v@.len() ==> v@[at as int] == c,
        forall|i: int| from <= i < at ==> v@[i] != c,
{
    let mut i: usize = from;
    while i < v.len() && v[i] != c
        invariant
            from <= i <= v@.len(),
            forall|k: int| from <= k < i ==> v@[k] != c,
        decreases v@.len() - i,
    {
        i += 1;
    }
    proof {
        lemma_find_is(v@.skip(from as int), c, i - from);
    }
    i
}

/// Text without the white space around it.
pub fn trim(s: &str) -> (out: String)
    ensures
        out@ == trimmed(s@),
{
    let v = chars_of(s);
    let mut from: usize = 0;
    assert(v@.skip(0) =~= v@);
    while from < v.len() && white(v[from])
        invariant
            v@ == s@,
            from <= v@.len(),
            trim_start(v@) == trim_start(v@.skip(from as int)),
        decreases v@.len() - from,
    {
        assert(v@.skip(from as int).drop_first() =~= v@.skip(from + 1));
        from += 1;
    }
    let mut to: usize = v.len();
    assert(v@.subrange(from as int, to as int) =~= v@.skip(from as int));
    while from < to && white(v[to - 1])
        invariant
            v@ == s@,
            from <= to <= v@.len(),
            trimmed(v@) == trim_end(v@.subrange(from as int, to as int)),
        decreases to,
    {
        assert(v@.subrange(from as int, to as int).drop_last() =~= v@.subrange(from as int, to - 1));
        to -= 1;
    }
    piece(&v, from, to)
}

/// The lines of `s`.
pub fn lines(s: &str) -> (out: Vec<String>)
    ensures
        out.deep_view() == lines_of(s@),
{
    let v = chars_of(s);
    let mut out: Vec<String> = Vec::new();
    let mut at: usize = 0;
    assert(v@.skip(0) =~= v@);
    assert(out.deep_view() + lines_of(v@) =~= lines_of(v@));
    while at < v.len()
        invariant
            v@ == s@,
            at <= v@.len(),
            out.deep_view() + lines_of(v@.skip(at as int)) == lines_of(s@),
        decreases v@.len() - at,
    {
        let ghost rest = v@.skip(at as int);
        let ghost before = out.deep_view();
        let end: usize = find_from(&v, at, '\n');
        if end < v.len() {
            let to: usize = if at < end && v[end - 1] == '\r' {
                end - 1
            } else {
                end
            };
            let line = piece(&v, at, to);
            assert(line@ =~= without_cr(rest.take(end - at)));
            assert(rest.skip(end - at + 1) =~= v@.skip(end + 1));
            out.push(line);
            at = end + 1;
            assert(out.deep_view() + lines_of(v@.skip(at as int)) =~= before + lines_of(rest));
        } else {
            let line = piece(&v, at, end);
            assert(line@ =~= rest);
            out.push(line);
            at = end;
            assert(v@.skip(at as int) =~= Seq::<char>::empty());
            assert(out.deep_view() + lines_of(v@.skip(at as int)) =~= before + lines_of(rest));
        }
    }
    assert(v@.skip(at as int) =~= Seq::<char>::empty());
    assert(out.deep_view() + lines_of(v@.skip(at as int)) =~= out.deep_view());
    out
}

/// The pieces of `s` between the `c`s.
pub fn split(s: &str, c: char) -> (out: Vec<String>)
    ensures
        out.deep_view() == split_on(s@, c),
{
    let v = chars_of(s);
    let mut out: Vec<String> = Vec::new();
    let mut at: usize = 0;
    assert(v@.skip(0) =~= v@);
    assert(out.deep_view() + split_on(v@, c) =~= split_on(v@, c));
    let mut end: usize = find_from(&v, at, c);
    while end < v.len()
        invariant
            v@ == s@,
            at <= end <= v@.len(),
            end == at + find(v@.skip(at as int), c),
            out.deep_view() + split_on(v@.skip(at as int), c) == split_on(s@, c),
        decreases v@.len() - at,
    {
        let ghost rest = v@.skip(at as int);
        let ghost before = out.deep_view();
        let part = piece(&v, at, end);
        assert(part@ =~= rest.take(end - at));
        assert(rest.skip(end - at + 1) =~= v@.skip(end + 1));
        out.push(part);
        at = end + 1;
        assert(out.deep_view() + split_on(v@.skip(at as int), c) =~= before + split_on(rest, c));
        end = find_from(&v, at, c);
    }
    let part = piece(&v, at, end);
    assert(part@ =~= v@.skip(at as int));
    let ghost before = out.deep_view();
    out.push(part);
    assert(out.deep_view() =~= before + split_on(v@.skip(at as int), c));
    out
}

/// What follows the last `c` of `s`.
pub fn tail_after(s: &str, c: char) -> (out: String)
    ensures
        out@ == after_last(s@, c),
{
    let v = chars_of(s);
    let mut at: usize = 0;
    assert(v@.skip(0) =~= v@);
    let mut end: usize = find_from(&v, at, c);
    while end < v.len()
        invariant
            v@ == s@,
            at <= end <= v@.len(),
            end == at + find(v@.skip(at as int), c),
            after_last(v@.skip(at as int), c) == after_last(s@, c),
        decreases v@.len() - at,
    {
        assert(v@.skip(at as int).skip(end - at + 1) =~= v@.skip(end + 1));
        at = end + 1;
        end = find_from(&v, at, c);
    }
    let out = piece(&v, at, end);
    assert(out@ =~= v@.skip(at as int));
    out
}

/// The words of `s`.
pub fn words(s: &str) -> (out: Vec<String>)
    ensures
        out.deep_view() == words_of(s@),
{
    let v = chars_of(s);
    let mut out: Vec<String> = Vec::new();
    let mut at: usize = 0;
    assert(v@.skip(0) =~= v@);
    assert(out.deep_view() + words_of(v@) =~= words_of(v@));
    while at < v.len()
        invariant
            v@ == s@,
            at <= v@.len(),
            out.deep_view() + words_of(v@.skip(at as int)) == words_of(s@),
        decreases v@.len() - at,
    {
        let ghost rest = v@.skip(at as int);
        let ghost before = out.deep_view();
        if white(v[at]) {
            assert(rest.drop_first() =~= v@.skip(at + 1));
            at += 1;
        } else {
            let mut end: usize = at;
            while end < v.len() && !white(v[end])
                invariant
                    at <= end <= v@.len(),
                    forall|i: int| at <= i < end ==> !is_white(#[trigger] v@[i]),
                decreases v@.len() - end,
            {
                end += 1;
            }
            proof {
                lemma_word_len_bounds(rest);
                let n = word_len(rest);
                if n < end - at {
                    assert(rest[n] == v@[at + n]);
                }
                if end - at < n {
                    assert(rest[end - at] == v@[end as int]);
                }
                assert(n == end - at);
            }
            let word = piece(&v, at, end);
            assert(word@ =~= rest.take(end - at));
            assert(rest.skip(end - at) =~= v@.skip(end as int));
            out.push(word);
            at = end;
            assert(out.deep_view() + words_of(v@.skip(at as int)) =~= before + words_of(rest));
        }
    }
    assert(v@.skip(at as int) =~= Seq::<char>::empty());
    assert(out.deep_view() + words_of(v@.skip(at as int)) =~= out.deep_view());
    out
}

/// Whether `pattern` stands in `v` at `at`.
fn matches_at(v: &Vec<char>, at: usize, pattern: &Vec<char>) -> (r: bool)
    requires
        at <= v@.len(),
    ensures
        r == begins(v@.skip(at as int), pattern@),
{
    let total: usize = v.len();
    if total - at < pattern.len() {
        return false;
    }
    let mut i: usize = 0;
    while i < pattern.len()
        invariant
            total == v@.len(),
            at + pattern@.len() <= v@.len(),
            i <= pattern@.len(),
            forall|k: int| 0 <= k < i ==> #[trigger] pattern@[k] == v@[at + k],
        decreases pattern@.len() - i,
    {
        if v[at + i] != pattern[i] {
            assert(v@.skip(at as int).take(pattern@.len() as int)[i as int] != pattern@[i as int]);
            return false;
        }
        i += 1;
    }
    assert(v@.skip(at as int).take(pattern@.len() as int) =~= pattern@);
    true
}

/// Whether `s` begins with `prefix`.
pub fn starts(s: &str, prefix: &str) -> (r: bool)
    ensures
        r == begins(s@, prefix@),
{
    let v = chars_of(s);
    assert(v@.skip(0) =~= v@);
    matches_at(&v, 0, &chars_of(prefix))
}

/// What follows `prefix` in `s`, if `s` begins with it.
pub fn strip_prefix(s: &str, prefix: &str) -> (out: Option<String>)
    ensures
        out.deep_view() == (if begins(s@, prefix@) {
            Some(s@.skip(prefix@.len() as int))
        } else {
            None
        }),
{
    let v = chars_of(s);
    let p = chars_of(prefix);
    assert(v@.skip(0) =~= v@);
    if matches_at(&v, 0, &p) {
        let out = piece(&v, p.len(), v.len());
        assert(out@ =~= s@.skip(prefix@.len() as int));
        Some(out)
    } else {
        None
    }
}

/// Whether `pattern` stands somewhere in `s`.
pub fn includes(s: &str, pattern: &str) -> (r: bool)
    ensures
        r == has_text(s@, pattern@),
{
    let v = chars_of(s);
    let p = chars_of(pattern);
    let mut at: usize = 0;
    loop
        invariant
            v@ == s@,
            p@ == pattern@,
            at <= v@.len(),
            forall|i: int| 0 <= i < at ==> !#[trigger] begins(s@.skip(i), pattern@),
        decreases v@.len() - at,
    {
        if matches_at(&v, at, &p) {
            return true;
        }
        if at == v.len() {
            return false;
        }
        at += 1;
    }
}

/// What stands before and after the first `pattern` in `s`.
pub fn split_once(s: &str, pattern: &str) -> (out: Option<(String, String)>)
    ensures
        out.deep_view() == cut_at(s@, pattern@),
{
    let v = chars_of(s);
    let p = chars_of(pattern);
    let total: usize = v.len();
    let mut at: usize = 0;
    assert(v@.skip(0) =~= v@);
    loop
        invariant
            v@ == s@,
            p@ == pattern@,
            total == v@.len(),
            at <= v@.len(),
            find_text(s@, pattern@) == match find_text(s@.skip(at as int), pattern@) {
                Some(k) => Some(at + k),
                None => None,
            },
        decreases v@.len() - at,
    {
        if matches_at(&v, at, &p) {
            let before = piece(&v, 0, at);
            let after = piece(&v, at + p.len(), total);
            assert(before@ =~= s@.take(at as int));
            assert(after@ =~= s@.skip(at + pattern@.len()));
            return Some((before, after));
        }
        if at == total {
            return None;
        }
        assert(s@.skip(at as int).drop_first() =~= s@.skip(at + 1));
        at += 1;
    }
}

/// `s` without its leading white space.
pub fn trim_left(s: &str) -> (out: String)
    ensures
        out@ == trim_start(s@),
{
    let v = chars_of(s);
    let mut from: usize = 0;
    assert(v@.skip(0) =~= v@);
    while from < v.len() && white(v[from])
        invariant
            v@ == s@,
            from <= v@.len(),
            trim_start(v@) == trim_start(v@.skip(from as int)),
        decreases v@.len() - from,
    {
        assert(v@.skip(from as int).drop_first() =~= v@.skip(from + 1));
        from += 1;
    }
    let out = piece(&v, from, v.len());
    assert(out@ =~= v@.skip(from as int));
    out
}

/// Where the last word of `v` begins and ends; both are 0 if it has none.
pub fn last_word(v: &Vec<char>) -> (out: (usize, usize))
    ensures
        out.0 <= out.1 <= v@.len(),
        v@.take(out.0 as int) == before_last_word(v@),
        v@.take(out.1 as int) == trim_end(v@),
{
    let mut to: usize = v.len();
    assert(v@.take(to as int) =~= v@);
    while to > 0 && white(v[to - 1])
        invariant
            to <= v@.len(),
            trim_end(v@.take(to as int)) == trim_end(v@),
        decreases to,
    {
        assert(v@.take(to as int).drop_last() =~= v@.take(to - 1));
        to -= 1;
    }
    let ghost kept = v@.take(to as int);
    assert(kept == trim_end(v@));
    let mut from: usize = to;
    while from > 0 && !white(v[from - 1])
        invariant
            from <= to <= v@.len(),
            kept == v@.take(to as int),
            word_start(v@.take(from as int)) == word_start(kept),
        decreases from,
    {
        assert(v@.take(from as int).drop_last() =~= v@.take(from - 1));
        from -= 1;
    }
    assert(word_start(v@.take(from as int)) == from);
    assert(kept.take(from as int) =~= v@.take(from as int));
    (from, to)
}

/// Whether `c` occurs in `s`.
pub fn has_char(s: &str, c: char) -> (r: bool)
    ensures
        r == s@.contains(c),
{
    let v = chars_of(s);
    let at: usize = find_from(&v, 0, c);
    assert(v@.skip(0) =~= v@);
    proof {
        lemma_find_bounds(s@, c);
    }
    at < v.len()
}

/// `s` without `prefix` at its front, as often as it stands there.
pub fn without_prefixes(s: &str, prefix: &str) -> (out: String)
    ensures
        out@ == trim_prefixes(s@, prefix@),
{
    let v = chars_of(s);
    let p = chars_of(prefix);
    let mut at: usize = 0;
    assert(v@.skip(0) =~= v@);
    let total: usize = v.len();
    while p.len() > 0 && matches_at(&v, at, &p)
        invariant
            total == v@.len(),
            v@ == s@,
            p@ == prefix@,
            at <= v@.len(),
            trim_prefixes(v@.skip(at as int), p@) == trim_prefixes(s@, p@),
        decreases v@.len() - at,
    {
        assert(v@.skip(at as int).skip(p@.len() as int) =~= v@.skip(at + p@.len()));
        at += p.len();
    }
    let out = piece(&v, at, v.len());
    assert(out@ =~= v@.skip(at as int));
    out
}

/// `s` without trailing `c`s.
pub fn without_trailing(s: &str, c: char) -> (out: String)
    ensures
        out@ == trim_end_char(s@, c),
{
    let v = chars_of(s);
    let mut to: usize = v.len();
    assert(v@.take(to as int) =~= v@);
    while 0 < to && v[to - 1] == c
        invariant
            v@ == s@,
            to <= v@.len(),
            trim_end_char(v@.take(to as int), c) == trim_end_char(s@, c),
        decreases to,
    {
        assert(v@.take(to as int).drop_last() =~= v@.take(to - 1));
        to -= 1;
    }
    let out = piece(&v, 0, to);
    assert(out@ =~= v@.take(to as int));
    out
}

/// `s` without leading `c`s.
pub fn without_leading(s: &str, c: char) -> (out: String)
    ensures
        out@ == trim_start_char(s@, c),
{
    let v = chars_of(s);
    let mut at: usize = 0;
    assert(v@.skip(0) =~= v@);
    while at < v.len() && v[at] == c
        invariant
            v@ == s@,
            at <= v@.len(),
            trim_start_char(v@.skip(at as int), c) == trim_start_char(s@, c),
        decreases v@.len() - at,
    {
        assert(v@.skip(at as int).drop_first() =~= v@.skip(at + 1));
        at += 1;
    }
    let out = piece(&v, at, v.len());
    assert(out@ =~= v@.skip(at as int));
    out
}

/// ASCII lower case.
pub fn to_lower(s: &str) -> (out: String)
    ensures
        out@ == lower(s@),
{
    let mut out = String::new();
    for c in it: s.chars()
        invariant
            it.seq() == s@,
            out@ == lower(s@.take(it.index() as int)),
    {
        let l = if 'A' <= c && c <= 'Z' {
            (c as u8 + 32) as char
        } else {
            c
        };
        assert(s@.take(it.index() + 1) =~= s@.take(it.index() as int).push(c));
        assert(l == lower_char(c));
        out.push(l);
        assert(out@ =~= lower(s@.take(it.index() + 1)));
    }
    assert(s@.take(s@.len() as int) =~= s@);
    out
}

/// `s` with every occurrence of `pattern` replaced.
pub fn replace(s: &str, pattern: &str, by: &str) -> (out: String)
    ensures
        out@ == replaced(s@, pattern@, by@),
{
    let v = chars_of(s);
    let p = chars_of(pattern);
    let mut out = String::new();
    let mut at: usize = 0;
    assert(v@.skip(0) =~= v@);
    assert(out@ + replaced(v@, p@, by@) =~= replaced(v@, p@, by@));
    while at < v.len()
        invariant
            v@ == s@,
            p@ == pattern@,
            at <= v@.len(),
            out@ + replaced(v@.skip(at as int), p@, by@) == replaced(s@, p@, by@),
        decreases v@.len() - at,
    {
        let ghost rest = v@.skip(at as int);
        let ghost before = out@;
        if p.len() > 0 && matches_at(&v, at, &p) {
            assert(rest.skip(p@.len() as int) =~= v@.skip(at + p@.len()));
            out.append(by);
            at += p.len();
            assert(out@ + replaced(v@.skip(at as int), p@, by@) =~= before + replaced(rest, p@, by@));
        } else {
            assert(rest.drop_first() =~= v@.skip(at + 1));
            out.push(v[at]);
            at += 1;
            assert(out@ + replaced(v@.skip(at as int), p@, by@) =~= before + replaced(rest, p@, by@));
        }
    }
    assert(v@.skip(at as int) =~= Seq::<char>::empty());
    assert(out@ + replaced(v@.skip(at as int), p@, by@) =~= out@);
    out
}

/// `n` in base ten.
pub fn decimal_text(n: u64) -> (out: String)
    ensures
        out@ == decimal(n as nat),
    decreases n,
{
    let d = (48 + (n % 10) as u8) as char;
    assert(d == digit_char((n % 10) as int));
    if n < 10 {
        let mut out = String::new();
        out.push(d);
        assert(out@ =~= decimal(n as nat));
        out
    } else {
        let mut out = decimal_text(n / 10);
        out.push(d);
        out
    }
}

/// Whether `a` stands before `b`.
pub fn precedes(a: &str, b: &str) -> (r: bool)
    ensures
        r == text_less(a@, b@),
{
    let x = chars_of(a);
    let y = chars_of(b);
    let mut i: usize = 0;
    assert(x@.skip(0) =~= x@);
    assert(y@.skip(0) =~= y@);
    while i < x.len() && i < y.len() && x[i] == y[i]
        invariant
            x@ == a@,
            y@ == b@,
            i <= x@.len(),
            i <= y@.len(),
            text_less(x@.skip(i as int), y@.skip(i as int)) == text_less(a@, b@),
        decreases x@.len() - i,
    {
        assert(x@.skip(i as int).drop_first() =~= x@.skip(i + 1));
        assert(y@.skip(i as int).drop_first() =~= y@.skip(i + 1));
        i += 1;
    }
    if i == y.len() {
        false
    } else if i == x.len() {
        true
    } else {
        x[i] < y[i]
    }
}

/// At most `n` characters from the front of `s`.
pub fn clip(s: &str, n: usize) -> (out: String)
    ensures
        out@ == clipped(s@, n as int),
{
    let v = chars_of(s);
    let to: usize = if v.len() <= n {
        v.len()
    } else {
        n
    };
    let out = piece(&v, 0, to);
    assert(out@ =~= clipped(s@, n as int));
    out
}

/// The first line of `s`, or nothing.
pub fn top_line(s: &str) -> (out: String)
    ensures
        out@ == first_line(s@),
{
    let v = chars_of(s);
    let end: usize = find_from(&v, 0, '\n');
    assert(v@.skip(0) =~= v@);
    let to: usize = if end < v.len() && 0 < end && v[end - 1] == '\r' {
        end - 1
    } else {
        end
    };
    let out = piece(&v, 0, to);
    assert(out@ =~= first_line(s@));
    out
}

// ── Laws ────────────────────────────────────────────────────────────────────

/// Trimming takes white space from both ends and nothing else: what is left is the same
/// whatever white space stood around it.
pub proof fn law_trim_takes_white_space_only(front: Seq<char>, body: Seq<char>, back: Seq<char>)
    requires
        forall|i: int| 0 <= i < front.len() ==> is_white(#[trigger] front[i]),
        forall|i: int| 0 <= i < back.len() ==> is_white(#[trigger] back[i]),
        body.len() > 0,
        !is_white(body[0]),
        !is_white(body.last()),
    ensures
        trimmed(front + body + back) == body,
    decreases front.len() + back.len(),
{
    let s = front + body + back;
    if front.len() > 0 {
        let less = front.drop_first();
        assert(s[0] == front[0]);
        assert(s.drop_first() =~= less + body + back);
        assert forall|i: int| 0 <= i < less.len() implies is_white(#[trigger] less[i]) by {
            assert(less[i] == front[i + 1]);
        }
        law_trim_takes_white_space_only(less, body, back);
    } else {
        assert(s =~= body + back);
        assert(s[0] == body[0]);
        assert(trim_start(s) == s);
        lemma_trim_end_is(s, body.len() as int);
        assert(s.take(body.len() as int) =~= body);
    }
}

/// What is all white space is trimmed to nothing.
pub proof fn law_blank_is_trimmed_away(s: Seq<char>)
    requires
        forall|i: int| 0 <= i < s.len() ==> is_white(#[trigger] s[i]),
    ensures
        trimmed(s).len() == 0,
    decreases s.len(),
{
    if s.len() > 0 {
        let less = s.drop_first();
        assert forall|i: int| 0 <= i < less.len() implies is_white(#[trigger] less[i]) by {
            assert(less[i] == s[i + 1]);
        }
        law_blank_is_trimmed_away(less);
    }
}

/// A line ends at its line feed, with a carriage return before it left out; the lines
/// behind it are read as if it were not there, and the last one may lack its ending.
pub proof fn law_lines_end_at_line_feeds(line: Seq<char>, rest: Seq<char>)
    requires
        !line.contains('\n'),
    ensures
        lines_of(line + seq!['\n'] + rest) == seq![
            if line.len() > 0 && line.last() == '\r' {
                line.drop_last()
            } else {
                line
            },
        ] + lines_of(rest),
        line.len() > 0 ==> lines_of(line) == seq![line],
        lines_of(Seq::empty()).len() == 0,
        first_line(line + seq!['\n'] + rest) == (if line.len() > 0 && line.last() == '\r' {
            line.drop_last()
        } else {
            line
        }),
        first_line(line) == line,
{
    let s = line + seq!['\n'] + rest;
    lemma_find_here(line, '\n', rest);
    assert(s.take(line.len() as int) =~= line);
    assert(s.skip(line.len() as int + 1) =~= rest);
    lemma_find_bounds(line, '\n');
}

proof fn lemma_find_here(front: Seq<char>, c: char, rest: Seq<char>)
    requires
        !front.contains(c),
    ensures
        find(front + seq![c] + rest, c) == front.len(),
{
    let s = front + seq![c] + rest;
    assert(s[front.len() as int] == c);
    assert forall|i: int| 0 <= i < front.len() implies s[i] != c by {
        assert(front.contains(front[i]));
    }
    lemma_find_is(s, c, front.len() as int);
}

/// A text is split at each separator: what stands before the first is a piece, and the
/// rest is split as if it stood alone.
pub proof fn law_split_at_separators(piece: Seq<char>, c: char, rest: Seq<char>)
    requires
        !piece.contains(c),
    ensures
        split_on(piece + seq![c] + rest, c) == seq![piece] + split_on(rest, c),
        split_on(piece, c) == seq![piece],
        after_last(rest + seq![c] + piece, c) == piece,
{
    let s = piece + seq![c] + rest;
    lemma_find_here(piece, c, rest);
    assert(s.take(piece.len() as int) =~= piece);
    assert(s.skip(piece.len() as int + 1) =~= rest);
    lemma_find_bounds(piece, c);
    let t = rest + seq![c] + piece;
    let at = lemma_after_last(t, c);
    if at <= rest.len() {
        assert(t[rest.len() as int] == c);
    } else if at > rest.len() + 1 {
        assert(t[at - 1] == piece[at - 2 - rest.len()]);
        assert(piece.contains(piece[at - 2 - rest.len()]));
    }
    assert(t.skip(rest.len() as int + 1) =~= piece);
}

/// Words are what white space separates, all of them and in order.
pub proof fn law_words_are_separated_by_white_space(word: Seq<char>, c: char, rest: Seq<char>)
    requires
        word.len() > 0,
        forall|i: int| 0 <= i < word.len() ==> !is_white(#[trigger] word[i]),
        is_white(c),
    ensures
        words_of(word + seq![c] + rest) == seq![word] + words_of(rest),
        words_of(word) == seq![word],
        words_of(seq![c] + rest) == words_of(rest),
{
    let s = word + seq![c] + rest;
    let n = word.len() as int;
    assert(!is_white(word[0]));
    assert(s[0] == word[0]);
    assert forall|i: int| 0 <= i < n implies !is_white(#[trigger] s[i]) by {
        assert(s[i] == word[i]);
    }
    lemma_word_len_is(s, n);
    assert(s.take(n) =~= word);
    assert(s.skip(n) =~= seq![c] + rest);
    let t = seq![c] + rest;
    assert(t[0] == c);
    assert(t.drop_first() =~= rest);
    assert(words_of(t) == words_of(rest));
    assert(words_of(s) == seq![s.take(n)] + words_of(s.skip(n)));
    lemma_word_len_is(word, n);
    assert(word.take(n) =~= word);
    assert(word.skip(n) =~= Seq::<char>::empty());
    assert(words_of(Seq::<char>::empty()) =~= Seq::<Seq<char>>::empty());
    assert(words_of(word) =~= seq![word]);
}

proof fn lemma_word_len_is(s: Seq<char>, n: int)
    requires
        0 <= n <= s.len(),
        forall|i: int| 0 <= i < n ==> !is_white(#[trigger] s[i]),
        n < s.len() ==> is_white(s[n]),
    ensures
        word_len(s) == n,
{
    lemma_word_len_bounds(s);
    let k = word_len(s);
    if k < n {
        assert(!is_white(s[k]));
    } else if k > n {
        assert(!is_white(s[n]));
    }
}

proof fn lemma_replace_nothing(s: Seq<char>, pattern: Seq<char>, by: Seq<char>)
    requires
        pattern.len() > 0,
        !s.contains(pattern[0]),
    ensures
        replaced(s, pattern, by) == s,
    decreases s.len(),
{
    if s.len() > 0 {
        assert(s.contains(s[0]));
        if begins(s, pattern) {
            assert(s.take(pattern.len() as int)[0] == s[0]);
        }
        let less = s.drop_first();
        assert(!less.contains(pattern[0])) by {
            assert forall|i: int| 0 <= i < less.len() implies less[i] != pattern[0] by {
                assert(s.contains(s[i + 1]));
            }
        }
        lemma_replace_nothing(less, pattern, by);
        assert(seq![s[0]] + less =~= s);
    }
}

/// Every occurrence of a pattern is replaced and everything else stays.
pub proof fn law_replace_keeps_the_rest(
    front: Seq<char>,
    pattern: Seq<char>,
    rest: Seq<char>,
    by: Seq<char>,
)
    requires
        pattern.len() > 0,
        !front.contains(pattern[0]),
    ensures
        replaced(front + pattern + rest, pattern, by) == front + by + replaced(rest, pattern, by),
        replaced(front, pattern, by) == front,
    decreases front.len(),
{
    lemma_replace_nothing(front, pattern, by);
    let s = front + pattern + rest;
    if front.len() == 0 {
        assert(s =~= pattern + rest);
        assert(s.take(pattern.len() as int) =~= pattern);
        assert(s.skip(pattern.len() as int) =~= rest);
        assert(front + by + replaced(rest, pattern, by) =~= by + replaced(rest, pattern, by));
    } else {
        let less = front.drop_first();
        assert(front.contains(front[0]));
        assert(s[0] == front[0]);
        if begins(s, pattern) {
            assert(s.take(pattern.len() as int)[0] == s[0]);
        }
        assert(!less.contains(pattern[0])) by {
            assert forall|i: int| 0 <= i < less.len() implies less[i] != pattern[0] by {
                assert(front.contains(front[i + 1]));
            }
        }
        assert(s.drop_first() =~= less + pattern + rest);
        law_replace_keeps_the_rest(less, pattern, rest, by);
        assert(seq![front[0]] + (less + by + replaced(rest, pattern, by)) =~= front + by
            + replaced(rest, pattern, by));
    }
}

/// Lower case changes the capital letters of ASCII, each to its small one, and nothing
/// else.
pub proof fn law_lower_changes_capitals_only(s: Seq<char>, i: int)
    requires
        0 <= i < s.len(),
    ensures
        lower(s).len() == s.len(),
        'A' <= s[i] <= 'Z' ==> lower(s)[i] as u32 == s[i] as u32 + 32,
        !('A' <= s[i] <= 'Z') ==> lower(s)[i] == s[i],
        lower(lower(s)) == lower(s),
{
    assert(lower(lower(s)) =~= lower(s));
}

/// A number is written digit by digit: the last digit stands behind the number without
/// it, and a single digit is itself.
pub proof fn law_decimal_has_its_digits(n: nat, d: nat)
    requires
        d < 10,
    ensures
        decimal(d).len() == 1,
        decimal(d)[0] as u32 == '0' as u32 + d,
        n > 0 ==> decimal(n * 10 + d) == decimal(n) + decimal(d),
{
    assert((n * 10 + d) / 10 == n);
    assert((n * 10 + d) % 10 == d);
    if n > 0 {
        assert(decimal(n * 10 + d) =~= decimal(n) + decimal(d));
    }
}

/// A text is cut at the first occurrence of a pattern, into what stands before it and
/// what stands behind it; without one it is not cut.
pub proof fn law_cut_at_first_occurrence(front: Seq<char>, pattern: Seq<char>, rest: Seq<char>)
    requires
        pattern.len() > 0,
        !front.contains(pattern[0]),
    ensures
        cut_at(front + pattern + rest, pattern) == Some((front, rest)),
        cut_at(front, pattern) is None,
        has_text(front + pattern + rest, pattern),
{
    lemma_find_text_here(front, pattern, rest);
    let s = front + pattern + rest;
    assert(s.take(front.len() as int) =~= front);
    assert(s.skip(front.len() as int + pattern.len()) =~= rest);
    let tail = s.skip(front.len() as int);
    assert(tail.take(pattern.len() as int) =~= pattern);
    assert(begins(s.skip(front.len() as int), pattern));
}

proof fn lemma_find_text_here(front: Seq<char>, pattern: Seq<char>, rest: Seq<char>)
    requires
        pattern.len() > 0,
        !front.contains(pattern[0]),
    ensures
        find_text(front + pattern + rest, pattern) == Some(front.len() as int),
        find_text(front, pattern) is None,
    decreases front.len(),
{
    let s = front + pattern + rest;
    if front.len() == 0 {
        assert(s =~= pattern + rest);
        assert(s.take(pattern.len() as int) =~= pattern);
    } else {
        let less = front.drop_first();
        assert(front.contains(front[0]));
        assert(s[0] == front[0]);
        if begins(s, pattern) {
            assert(s.take(pattern.len() as int)[0] == s[0]);
        }
        if begins(front, pattern) {
            assert(front.take(pattern.len() as int)[0] == front[0]);
        }
        assert(!less.contains(pattern[0])) by {
            assert forall|i: int| 0 <= i < less.len() implies less[i] != pattern[0] by {
                assert(front.contains(front[i + 1]));
            }
        }
        assert(s.drop_first() =~= less + pattern + rest);
        lemma_find_text_here(less, pattern, rest);
    }
}

/// A clipped text is the front of the text, as long as it may be.
pub proof fn law_clip_keeps_the_front(s: Seq<char>, n: int)
    requires
        0 <= n,
    ensures
        clipped(s, n).is_prefix_of(s),
        s.len() <= n ==> clipped(s, n) == s,
        s.len() > n ==> clipped(s, n).len() == n,
{
}

/// Texts are ordered by the first character in which they differ; one that goes on
/// stands behind one that has ended.
pub proof fn law_texts_are_ordered_by_first_difference(
    front: Seq<char>,
    a: char,
    b: char,
    x: Seq<char>,
    y: Seq<char>,
)
    requires
        a < b,
    ensures
        text_less(front + seq![a] + x, front + seq![b] + y),
        !text_less(front + seq![b] + y, front + seq![a] + x),
        text_less(front, front + seq![a] + x),
        !text_less(front, front),
    decreases front.len(),
{
    let s = front + seq![a] + x;
    let t = front + seq![b] + y;
    if front.len() > 0 {
        let less = front.drop_first();
        assert(s.drop_first() =~= less + seq![a] + x);
        assert(t.drop_first() =~= less + seq![b] + y);
        law_texts_are_ordered_by_first_difference(less, a, b, x, y);
    }
}

/// Leading and trailing copies of a character are dropped, and no others.
pub proof fn law_trailing_copies_are_dropped(body: Seq<char>, c: char)
    ensures
        trim_end_char(body.push(c), c) == trim_end_char(body, c),
        body.len() > 0 && body.last() != c ==> trim_end_char(body, c) == body,
        trim_start_char(seq![c] + body, c) == trim_start_char(body, c),
        body.len() > 0 && body[0] != c ==> trim_start_char(body, c) == body,
{
    assert(body.push(c).drop_last() =~= body);
    assert((seq![c] + body).drop_first() =~= body);
}

} // verus!
