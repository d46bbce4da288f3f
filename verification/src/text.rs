//! Text primitives shared by the whole crate.
//!
//! Every string is reasoned about through its view, a `Seq<char>`. The
//! executable functions work on character slices; `to_chars` and `from_chars`
//! move between slices and `String`s.

use vstd::prelude::*;
use vstd::string::*;
use vstd::std_specs::iter::IteratorSpec;

verus! {

/// `String::push` of the standard library: the character is appended at the
/// end and nothing else changes.
pub assume_specification[ String::push ](s: &mut String, c: char)
    ensures
        final(s)@ == old(s)@.push(c),
;

/// The lower-case form of a text, as the standard library gives it.
pub uninterp spec fn lowercase(text: Seq<char>) -> Seq<char>;

/// `str::to_lowercase` of the standard library. Its result depends on the
/// text alone and is named `lowercase`.
#[verifier::external_body]
pub(crate) fn to_lowercase(text: &str) -> (lower: String)
    ensures
        lower@ == lowercase(text@),
{
    text.to_lowercase()
}

/// The views of a sequence of values, in the same order.
pub open spec fn views<T: View>(items: Seq<T>) -> Seq<T::V> {
    items.map_values(|item: T| item@)
}

/// The view of an optional text.
pub open spec fn optional_view(item: Option<String>) -> Option<Seq<char>> {
    match item {
        Some(s) => Some(s@),
        None => None,
    }
}

/// `needle` stands in `hay` at position `at`.
pub open spec fn occurs_at(hay: Seq<char>, needle: Seq<char>, at: int) -> bool {
    &&& 0 <= at
    &&& at + needle.len() <= hay.len()
    &&& hay.subrange(at, at + needle.len()) == needle
}

/// `needle` stands somewhere in `hay`.
pub open spec fn has_substring(hay: Seq<char>, needle: Seq<char>) -> bool {
    exists|at: int| occurs_at(hay, needle, at)
}

/// `at` is the leftmost position at which `needle` stands in `hay`.
pub open spec fn first_match(hay: Seq<char>, needle: Seq<char>, at: int) -> bool {
    &&& occurs_at(hay, needle, at)
    &&& forall|k: int| 0 <= k < at ==> !occurs_at(hay, needle, k)
}

/// One of the needles stands somewhere in `hay`.
pub open spec fn has_any_substring(hay: Seq<char>, needles: Seq<Seq<char>>) -> bool {
    exists|k: int| 0 <= k < needles.len() && has_substring(hay, #[trigger] needles[k])
}

/// `c` occurs in `s`.
pub open spec fn has_char(s: Seq<char>, c: char) -> bool {
    exists|i: int| 0 <= i < s.len() && s[i] == c
}

/// `s` without its leading run of `c`.
pub open spec fn trim_start(s: Seq<char>, c: char) -> Seq<char>
    decreases s.len(),
{
    if s.len() > 0 && s[0] == c {
        trim_start(s.drop_first(), c)
    } else {
        s
    }
}

/// `s` without its trailing run of `c`.
pub open spec fn trim_end(s: Seq<char>, c: char) -> Seq<char>
    decreases s.len(),
{
    if s.len() > 0 && s.last() == c {
        trim_end(s.drop_last(), c)
    } else {
        s
    }
}

/// `s` without the runs of `c` at both ends.
pub open spec fn trim_both(s: Seq<char>, c: char) -> Seq<char> {
    trim_end(trim_start(s, c), c)
}

/// The text after the last `c` in `s`; all of `s` where `c` does not occur.
pub open spec fn after_last(s: Seq<char>, c: char) -> Seq<char>
    decreases s.len(),
{
    if s.len() == 0 {
        s
    } else if s.last() == c {
        Seq::empty()
    } else {
        after_last(s.drop_last(), c).push(s.last())
    }
}

/// The text before the last `c` in `s`; empty where `c` does not occur.
pub open spec fn before_last(s: Seq<char>, c: char) -> Seq<char>
    decreases s.len(),
{
    if s.len() == 0 {
        s
    } else if s.last() == c {
        s.drop_last()
    } else {
        before_last(s.drop_last(), c)
    }
}

/// The text before the first `c` in `s`; all of `s` where `c` does not occur.
pub open spec fn before_first(s: Seq<char>, c: char) -> Seq<char>
    decreases s.len(),
{
    if s.len() == 0 {
        s
    } else if s[0] == c {
        Seq::empty()
    } else {
        seq![s[0]] + before_first(s.drop_first(), c)
    }
}

/// Where the last piece begins when `s` is cut at every match of the
/// non-empty pattern `p`, the matches taken from left to right without
/// overlap. The scan stands at `from`; the piece being read began at `piece`.
pub open spec fn last_piece_start(s: Seq<char>, p: Seq<char>, from: int, piece: int) -> int
    decreases s.len() - from,
{
    if p.len() == 0 || from < 0 || from + p.len() > s.len() {
        piece
    } else if occurs_at(s, p, from) {
        last_piece_start(s, p, from + p.len(), from + p.len())
    } else {
        last_piece_start(s, p, from + 1, piece)
    }
}

/// The last piece of `s` cut at every match of `p`. Cutting at the empty
/// pattern leaves an empty last piece.
pub open spec fn last_piece(s: Seq<char>, p: Seq<char>) -> Seq<char> {
    if p.len() == 0 {
        Seq::empty()
    } else {
        s.subrange(last_piece_start(s, p, 0, 0), s.len() as int)
    }
}

/// The parts joined with `sep` between neighbours.
pub open spec fn join(parts: Seq<Seq<char>>, sep: Seq<char>) -> Seq<char>
    decreases parts.len(),
{
    if parts.len() == 0 {
        Seq::empty()
    } else if parts.len() == 1 {
        parts[0]
    } else {
        join(parts.drop_last(), sep) + sep + parts.last()
    }
}

/// The lower-case form of an ASCII capital; any other character unchanged.
pub open spec fn ascii_lower(c: char) -> char {
    if 'A' <= c && c <= 'Z' {
        ((c as u8) + 32) as char
    } else {
        c
    }
}

/// `s` with every ASCII capital in lower case.
pub open spec fn lowered(s: Seq<char>) -> Seq<char> {
    s.map_values(|c: char| ascii_lower(c))
}

/// `s` with `x` added at the end unless it is already there.
pub open spec fn insert_unique<T>(s: Seq<T>, x: T) -> Seq<T> {
    if s.contains(x) {
        s
    } else {
        s.push(x)
    }
}

/// The first occurrence of every value of `s`, in order.
pub open spec fn distinct<T>(s: Seq<T>) -> Seq<T>
    decreases s.len(),
{
    if s.len() == 0 {
        s
    } else {
        insert_unique(distinct(s.drop_last()), s.last())
    }
}

/// Adding a value that is not yet there keeps a sequence free of duplicates.
pub proof fn lemma_insert_unique_no_duplicates<T>(s: Seq<T>, x: T)
    requires
        s.no_duplicates(),
    ensures
        insert_unique(s, x).no_duplicates(),
        insert_unique(s, x).contains(x),
        forall|y: T| s.contains(y) ==> insert_unique(s, x).contains(y),
        forall|y: T| insert_unique(s, x).contains(y) ==> s.contains(y) || y == x,
{
    let r = insert_unique(s, x);
    if !s.contains(x) {
        assert(r[s.len() as int] == x);
        assert forall|y: T| s.contains(y) implies r.contains(y) by {
            let i = choose|i: int| 0 <= i < s.len() && s[i] == y;
            assert(r[i] == y);
        }
    }
}

/// `distinct` has no duplicates and holds exactly the values of its argument.
pub proof fn lemma_distinct<T>(s: Seq<T>)
    ensures
        distinct(s).no_duplicates(),
        forall|y: T| s.contains(y) <==> distinct(s).contains(y),
    decreases s.len(),
{
    if s.len() > 0 {
        let front = s.drop_last();
        lemma_distinct(front);
        lemma_insert_unique_no_duplicates(distinct(front), s.last());
        assert(distinct(s) == insert_unique(distinct(front), s.last()));
        assert forall|y: T| s.contains(y) implies distinct(s).contains(y) by {
            let i = choose|i: int| 0 <= i < s.len() && s[i] == y;
            if i < s.len() - 1 {
                assert(front[i] == y);
                assert(front.contains(y));
            } else {
                assert(y == s.last());
            }
        }
        assert forall|y: T| distinct(s).contains(y) implies s.contains(y) by {
            if distinct(front).contains(y) {
                assert(front.contains(y));
                let i = choose|i: int| 0 <= i < front.len() && front[i] == y;
                assert(s[i] == y);
            } else {
                assert(s[s.len() - 1] == y);
            }
        }
    }
}

/// A run of `c` of length `n` at the front, ended by another character or by
/// the end of `s`, is what `trim_start` removes.
pub proof fn lemma_trim_start(s: Seq<char>, c: char, n: int)
    requires
        0 <= n <= s.len(),
        forall|i: int| 0 <= i < n ==> s[i] == c,
        n == s.len() || s[n] != c,
    ensures
        trim_start(s, c) == s.subrange(n, s.len() as int),
    decreases n,
{
    if n == 0 {
        assert(s.subrange(0, s.len() as int) =~= s);
    } else {
        let rest = s.drop_first();
        lemma_trim_start(rest, c, n - 1);
        assert(rest.subrange(n - 1, rest.len() as int) =~= s.subrange(n, s.len() as int));
    }
}

/// A run of `c` at the back that begins at `n`, preceded by another character
/// or by the start of `s`, is what `trim_end` removes.
pub proof fn lemma_trim_end(s: Seq<char>, c: char, n: int)
    requires
        0 <= n <= s.len(),
        forall|i: int| n <= i < s.len() ==> s[i] == c,
        n == 0 || s[n - 1] != c,
    ensures
        trim_end(s, c) == s.subrange(0, n),
    decreases s.len() - n,
{
    if n == s.len() {
        assert(s.subrange(0, n) =~= s);
    } else {
        let rest = s.drop_last();
        lemma_trim_end(rest, c, n);
        assert(rest.subrange(0, n) =~= s.subrange(0, n));
    }
}

/// With the last `c` of `s` at `at`, `after_last` and `before_last` are the
/// two sides of it.
pub proof fn lemma_last_split(s: Seq<char>, c: char, at: int)
    requires
        0 <= at < s.len(),
        s[at] == c,
        forall|i: int| at < i < s.len() ==> s[i] != c,
    ensures
        after_last(s, c) == s.subrange(at + 1, s.len() as int),
        before_last(s, c) == s.subrange(0, at),
    decreases s.len(),
{
    if at == s.len() - 1 {
        assert(s.subrange(at + 1, s.len() as int) =~= Seq::<char>::empty());
        assert(s.drop_last() =~= s.subrange(0, at));
    } else {
        let rest = s.drop_last();
        lemma_last_split(rest, c, at);
        assert(rest.subrange(at + 1, rest.len() as int).push(s.last()) =~= s.subrange(
            at + 1,
            s.len() as int,
        ));
        assert(rest.subrange(0, at) =~= s.subrange(0, at));
    }
}

/// Where `c` does not occur, `after_last` is all of `s` and `before_last` is
/// empty.
pub proof fn lemma_last_split_absent(s: Seq<char>, c: char)
    requires
        !has_char(s, c),
    ensures
        after_last(s, c) == s,
        before_last(s, c) == Seq::<char>::empty(),
    decreases s.len(),
{
    if s.len() > 0 {
        let rest = s.drop_last();
        assert(s[s.len() - 1] != c);
        assert forall|i: int| 0 <= i < rest.len() implies rest[i] != c by {
            assert(s[i] == rest[i]);
        }
        lemma_last_split_absent(rest, c);
        assert(rest.push(s.last()) =~= s);
    }
}

/// With the first `c` of `s` at `at`, `before_first` is the text in front of
/// it; where `c` does not occur (`at` is the length), it is all of `s`.
pub proof fn lemma_before_first(s: Seq<char>, c: char, at: int)
    requires
        0 <= at <= s.len(),
        at < s.len() ==> s[at] == c,
        forall|i: int| 0 <= i < at ==> s[i] != c,
    ensures
        before_first(s, c) == s.subrange(0, at),
    decreases s.len(),
{
    if s.len() == 0 {
        assert(s.subrange(0, at) =~= s);
    } else if at == 0 {
        assert(s.subrange(0, 0) =~= Seq::<char>::empty());
    } else {
        let rest = s.drop_first();
        lemma_before_first(rest, c, at - 1);
        assert(seq![s[0]] + rest.subrange(0, at - 1) =~= s.subrange(0, at));
    }
}

/// The text after the last `c` is the text after the last `c` of whatever
/// follows any one `c`.
pub proof fn lemma_after_last_skips(s: Seq<char>, c: char, at: int)
    requires
        0 <= at < s.len(),
        s[at] == c,
    ensures
        after_last(s, c) == after_last(s.subrange(at + 1, s.len() as int), c),
    decreases s.len(),
{
    let rest = s.subrange(at + 1, s.len() as int);
    if at < s.len() - 1 && s.last() != c {
        lemma_after_last_skips(s.drop_last(), c, at);
        assert(rest.drop_last() =~= s.drop_last().subrange(at + 1, s.len() - 1));
        assert(rest.last() == s.last());
    }
}

/// `c` does not occur in the text after its last occurrence.
pub proof fn lemma_after_last_clean(s: Seq<char>, c: char)
    ensures
        !has_char(after_last(s, c), c),
    decreases s.len(),
{
    if s.len() > 0 && s.last() != c {
        lemma_after_last_clean(s.drop_last(), c);
    }
}

/// The scan of `last_piece_start` for a pattern of the one character `c`
/// ends where the text after the last `c` begins.
pub proof fn lemma_last_piece_scan(s: Seq<char>, c: char, from: int, piece: int)
    requires
        0 <= piece <= from <= s.len(),
        forall|i: int| piece <= i < from ==> s[i] != c,
    ensures
        piece <= last_piece_start(s, seq![c], from, piece) <= s.len(),
        s.subrange(last_piece_start(s, seq![c], from, piece), s.len() as int) == after_last(
            s.subrange(piece, s.len() as int),
            c,
        ),
    decreases s.len() - from,
{
    let tail = s.subrange(piece, s.len() as int);
    if from == s.len() {
        assert forall|i: int| 0 <= i < tail.len() implies tail[i] != c by {
            assert(tail[i] == s[piece + i]);
        }
        lemma_last_split_absent(tail, c);
    } else {
        assert(s.subrange(from, from + 1) =~= seq![s[from]]);
        assert(seq![s[from]] == seq![c] <==> s[from] == c) by {
            if seq![s[from]] == seq![c] {
                assert(seq![s[from]][0] == seq![c][0]);
            }
        }
        if occurs_at(s, seq![c], from) {
            lemma_last_piece_scan(s, c, from + 1, from + 1);
            lemma_after_last_skips(tail, c, from - piece);
            assert(tail.subrange(from - piece + 1, tail.len() as int) =~= s.subrange(
                from + 1,
                s.len() as int,
            ));
        } else {
            lemma_last_piece_scan(s, c, from + 1, piece);
        }
    }
}

/// Cut at every occurrence of one character, a text ends in what follows
/// the last occurrence.
pub proof fn lemma_last_piece_of_char(s: Seq<char>, c: char)
    ensures
        last_piece(s, seq![c]) == after_last(s, c),
{
    lemma_last_piece_scan(s, c, 0, 0);
    assert(s.subrange(0, s.len() as int) =~= s);
}

/// What `trim_start` leaves is no longer than the text and does not begin
/// with `c`.
pub proof fn lemma_trim_start_result(s: Seq<char>, c: char)
    ensures
        trim_start(s, c).len() <= s.len(),
        trim_start(s, c).len() > 0 ==> trim_start(s, c)[0] != c,
    decreases s.len(),
{
    if s.len() > 0 && s[0] == c {
        lemma_trim_start_result(s.drop_first(), c);
    }
}

/// The scan of `last_piece_start` ends between the piece it began in and
/// the end of the text. Where the pattern stands at or behind the place of
/// the scan, the last piece begins behind a whole match; it begins right
/// behind the place of the scan only where the pattern stands there.
pub proof fn lemma_last_piece_bounds(s: Seq<char>, p: Seq<char>, from: int, piece: int, at: int)
    requires
        p.len() > 0,
        0 <= piece <= from,
        piece <= s.len(),
    ensures
        piece <= last_piece_start(s, p, from, piece) <= s.len(),
        from <= at && occurs_at(s, p, at) ==> last_piece_start(s, p, from, piece) >= from
            + p.len(),
        from <= at && occurs_at(s, p, at) && last_piece_start(s, p, from, piece) == from
            + p.len() ==> occurs_at(s, p, from),
    decreases s.len() - from,
{
    if from + p.len() <= s.len() {
        if occurs_at(s, p, from) {
            lemma_last_piece_bounds(s, p, from + p.len(), from + p.len(), at);
        } else {
            lemma_last_piece_bounds(s, p, from + 1, piece, at);
        }
    }
}

/// Where the pattern occurs in a text, the last piece is shorter than the
/// text by at least the pattern, and by no more only where the text begins
/// with the pattern.
pub proof fn lemma_last_piece_shorter(s: Seq<char>, p: Seq<char>)
    requires
        p.len() > 0,
        has_substring(s, p),
    ensures
        last_piece(s, p).len() + p.len() <= s.len(),
        last_piece(s, p).len() + p.len() == s.len() ==> p.is_prefix_of(s),
{
    let at = choose|at: int| occurs_at(s, p, at);
    lemma_last_piece_bounds(s, p, 0, 0, at);
}

/// The characters of a string slice.
pub fn to_chars(s: &str) -> (out: Vec<char>)
    ensures
        out@ == s@,
{
    let mut out: Vec<char> = Vec::new();
    let mut it = s.chars();
    loop
        invariant
            out@ + it.remaining() == s@,
            it.decrease() is Some,
            it.obeys_prophetic_iter_laws(),
        ensures
            out@ == s@,
        decreases it.decrease()->0,
    {
        match it.next() {
            Some(c) => {
                out.push(c);
            },
            None => {
                break ;
            },
        }
    }
    out
}

/// Appends the characters `chars[from..to]` to `out`.
pub fn append_chars(out: &mut String, chars: &[char], from: usize, to: usize)
    requires
        from <= to <= chars@.len(),
    ensures
        final(out)@ == old(out)@ + chars@.subrange(from as int, to as int),
{
    let mut i: usize = from;
    while i < to
        invariant
            from <= i <= to <= chars@.len(),
            out@ == old(out)@ + chars@.subrange(from as int, i as int),
        decreases to - i,
    {
        out.push(chars[i]);
        assert(chars@.subrange(from as int, i + 1) =~= chars@.subrange(from as int, i as int).push(
            chars@[i as int],
        ));
        i += 1;
    }
    assert(chars@.subrange(from as int, from as int) =~= Seq::<char>::empty());
}

/// The string that holds the characters `chars[from..to]`.
pub fn from_chars(chars: &[char], from: usize, to: usize) -> (out: String)
    requires
        from <= to <= chars@.len(),
    ensures
        out@ == chars@.subrange(from as int, to as int),
{
    let mut out = String::new();
    append_chars(&mut out, chars, from, to);
    out
}

/// Whether `needle` stands in `hay` at position `at`.
pub fn matches_at(hay: &[char], needle: &[char], at: usize) -> (found: bool)
    ensures
        found == occurs_at(hay@, needle@, at as int),
{
    if needle.len() > hay.len() || at > hay.len() - needle.len() {
        return false;
    }
    let mut k: usize = 0;
    while k < needle.len()
        invariant
            k <= needle@.len(),
            at + needle@.len() <= hay@.len() <= usize::MAX,
            forall|j: int| 0 <= j < k ==> hay@[at + j] == needle@[j],
        decreases needle@.len() - k,
    {
        if hay[at + k] != needle[k] {
            assert(hay@.subrange(at as int, at + needle@.len())[k as int] == hay@[at + k]);
            return false;
        }
        k += 1;
    }
    assert(hay@.subrange(at as int, at + needle@.len()) =~= needle@);
    true
}

/// The leftmost position at which `needle` stands in `hay`.
pub fn find(hay: &[char], needle: &[char]) -> (pos: Option<usize>)
    ensures
        match pos {
            Some(at) => first_match(hay@, needle@, at as int),
            None => !has_substring(hay@, needle@),
        },
{
    if needle.len() > hay.len() {
        return None;
    }
    if needle.len() == 0 {
        assert(hay@.subrange(0, 0) =~= needle@);
        return Some(0);
    }
    let last: usize = hay.len() - needle.len();
    let mut at: usize = 0;
    while at <= last
        invariant
            needle@.len() > 0,
            hay@.len() <= usize::MAX,
            last == hay@.len() - needle@.len(),
            at <= last + 1,
            forall|k: int| 0 <= k < at ==> !occurs_at(hay@, needle@, k),
        decreases last + 1 - at,
    {
        if matches_at(hay, needle, at) {
            return Some(at);
        }
        at += 1;
    }
    None
}

/// Whether `needle` stands somewhere in `hay`.
pub fn contains(hay: &[char], needle: &[char]) -> (found: bool)
    ensures
        found == has_substring(hay@, needle@),
{
    find(hay, needle).is_some()
}

/// Whether `hay` begins with `needle`.
pub fn starts_with(hay: &[char], needle: &[char]) -> (found: bool)
    ensures
        found == needle@.is_prefix_of(hay@),
{
    matches_at(hay, needle, 0)
}

/// Whether `hay` ends with `needle`.
pub fn ends_with(hay: &[char], needle: &[char]) -> (found: bool)
    ensures
        found == needle@.is_suffix_of(hay@),
{
    if needle.len() > hay.len() {
        return false;
    }
    matches_at(hay, needle, hay.len() - needle.len())
}

/// Whether `c` occurs in `s`.
pub fn contains_char(s: &[char], c: char) -> (found: bool)
    ensures
        found == has_char(s@, c),
{
    let mut i: usize = 0;
    while i < s.len()
        invariant
            i <= s@.len(),
            forall|j: int| 0 <= j < i ==> s@[j] != c,
        decreases s@.len() - i,
    {
        if s[i] == c {
            return true;
        }
        i += 1;
    }
    false
}

/// The position of the last `c` in `s`.
pub fn rfind_char(s: &[char], c: char) -> (pos: Option<usize>)
    ensures
        match pos {
            Some(at) => at < s@.len() && s@[at as int] == c && forall|i: int|
                at < i < s@.len() ==> s@[i] != c,
            None => !has_char(s@, c),
        },
{
    let mut i: usize = s.len();
    while i > 0
        invariant
            i <= s@.len(),
            forall|j: int| i <= j < s@.len() ==> s@[j] != c,
        decreases i,
    {
        i -= 1;
        if s[i] == c {
            return Some(i);
        }
    }
    None
}

/// The position of the first `c` in `s`; the length of `s` where there is none.
pub fn find_char(s: &[char], c: char) -> (at: usize)
    ensures
        at <= s@.len(),
        at < s@.len() ==> s@[at as int] == c,
        forall|i: int| 0 <= i < at ==> s@[i] != c,
{
    let mut i: usize = 0;
    while i < s.len()
        invariant
            i <= s@.len(),
            forall|j: int| 0 <= j < i ==> s@[j] != c,
        decreases s@.len() - i,
    {
        if s[i] == c {
            return i;
        }
        i += 1;
    }
    i
}

/// The length of the run of `c` at the front of `s[from..]`, as the position
/// at which it ends.
pub fn skip_run(s: &[char], c: char, from: usize) -> (at: usize)
    requires
        from <= s@.len(),
    ensures
        from <= at <= s@.len(),
        trim_start(s@.subrange(from as int, s@.len() as int), c) == s@.subrange(
            at as int,
            s@.len() as int,
        ),
{
    let mut i: usize = from;
    while i < s.len() && s[i] == c
        invariant
            from <= i <= s@.len(),
            forall|j: int| from <= j < i ==> s@[j] == c,
        decreases s@.len() - i,
    {
        i += 1;
    }
    proof {
        let tail = s@.subrange(from as int, s@.len() as int);
        lemma_trim_start(tail, c, i - from);
        assert(tail.subrange(i - from, tail.len() as int) =~= s@.subrange(
            i as int,
            s@.len() as int,
        ));
    }
    i
}

/// The position at which the run of `c` at the back of `s[..to]` begins.
pub fn skip_run_back(s: &[char], c: char, to: usize) -> (at: usize)
    requires
        to <= s@.len(),
    ensures
        at <= to,
        trim_end(s@.subrange(0, to as int), c) == s@.subrange(0, at as int),
{
    let mut i: usize = to;
    while i > 0 && s[i - 1] == c
        invariant
            i <= to <= s@.len(),
            forall|j: int| i <= j < to ==> s@[j] == c,
        decreases i,
    {
        i -= 1;
    }
    proof {
        let head = s@.subrange(0, to as int);
        lemma_trim_end(head, c, i as int);
        assert(head.subrange(0, i as int) =~= s@.subrange(0, i as int));
    }
    i
}

/// Where the last piece of `s` begins when it is cut at every match of the
/// non-empty pattern `p`.
pub fn last_piece_begin(s: &[char], p: &[char]) -> (at: usize)
    requires
        p@.len() > 0,
    ensures
        at <= s@.len(),
        at == last_piece_start(s@, p@, 0, 0),
{
    let mut from: usize = 0;
    let mut piece: usize = 0;
    while p.len() <= s.len() && from <= s.len() - p.len()
        invariant
            p@.len() > 0,
            piece <= from <= s@.len(),
            last_piece_start(s@, p@, 0, 0) == last_piece_start(s@, p@, from as int, piece as int),
        decreases s@.len() - from,
    {
        if matches_at(s, p, from) {
            from = from + p.len();
            piece = from;
        } else {
            from += 1;
        }
    }
    piece
}

/// Where the text after the last `c` of `s` begins: behind that `c`, or at 0
/// where `c` does not occur.
pub fn last_part_begin(s: &[char], c: char) -> (at: usize)
    ensures
        at <= s@.len(),
        after_last(s@, c) == s@.subrange(at as int, s@.len() as int),
        before_last(s@, c) == s@.subrange(0, if at > 0 { at - 1 } else { 0 }),
        (at > 0) == has_char(s@, c),
{
    let len: usize = s.len();
    match rfind_char(s, c) {
        Some(k) => {
            proof {
                lemma_last_split(s@, c, k as int);
                assert(k < len);
            }
            k + 1
        },
        None => {
            proof {
                lemma_last_split_absent(s@, c);
                assert(s@.subrange(0, s@.len() as int) =~= s@);
                assert(s@.subrange(0, 0) =~= Seq::<char>::empty());
            }
            0
        },
    }
}

/// Where the first `c` of `s` stands, as the end of the text in front of it.
pub fn first_part_end(s: &[char], c: char) -> (at: usize)
    ensures
        at <= s@.len(),
        before_first(s@, c) == s@.subrange(0, at as int),
{
    let at = find_char(s, c);
    proof {
        lemma_before_first(s@, c, at as int);
    }
    at
}

/// An owned copy of a string slice.
pub fn owned(s: &str) -> (out: String)
    ensures
        out@ == s@,
{
    String::from_str(s)
}

/// A copy of an optional text.
pub fn clone_optional(item: &Option<String>) -> (out: Option<String>)
    ensures
        optional_view(out) == optional_view(*item),
{
    match item {
        Some(s) => Some(s.clone()),
        None => None,
    }
}

/// The lower-case form of an ASCII capital; any other character unchanged.
pub fn lower_char(c: char) -> (out: char)
    ensures
        out == ascii_lower(c),
{
    if 'A' <= c && c <= 'Z' {
        ((c as u8) + 32) as char
    } else {
        c
    }
}

/// Whether `a` and `b` are equal once their ASCII capitals are in lower case.
pub fn eq_ignore_case(a: &[char], b: &[char]) -> (same: bool)
    ensures
        same == (lowered(a@) == lowered(b@)),
{
    if a.len() != b.len() {
        assert(lowered(a@).len() != lowered(b@).len());
        return false;
    }
    let mut i: usize = 0;
    while i < a.len()
        invariant
            i <= a@.len(),
            a@.len() == b@.len(),
            forall|j: int| 0 <= j < i ==> ascii_lower(a@[j]) == ascii_lower(b@[j]),
        decreases a@.len() - i,
    {
        if lower_char(a[i]) != lower_char(b[i]) {
            assert(lowered(a@)[i as int] != lowered(b@)[i as int]);
            return false;
        }
        i += 1;
    }
    assert(lowered(a@) =~= lowered(b@));
    true
}

/// Whether two character slices hold the same text.
pub fn same_chars(a: &[char], b: &[char]) -> (same: bool)
    ensures
        same == (a@ == b@),
{
    if a.len() != b.len() {
        return false;
    }
    let mut i: usize = 0;
    while i < a.len()
        invariant
            i <= a@.len(),
            a@.len() == b@.len(),
            forall|j: int| 0 <= j < i ==> a@[j] == b@[j],
        decreases a@.len() - i,
    {
        if a[i] != b[i] {
            return false;
        }
        i += 1;
    }
    assert(a@ =~= b@);
    true
}

/// Whether `hay` holds `needle` as a substring.
pub fn str_contains(hay: &str, needle: &str) -> (found: bool)
    ensures
        found == has_substring(hay@, needle@),
{
    let h = to_chars(hay);
    let n = to_chars(needle);
    contains(h.as_slice(), n.as_slice())
}

/// Whether two string slices hold the same text.
pub fn str_eq(a: &str, b: &str) -> (same: bool)
    ensures
        same == (a@ == b@),
{
    let mut left = a.chars();
    let mut right = b.chars();
    let ghost mut read: Seq<char> = Seq::empty();
    assert(read + left.remaining() =~= left.remaining());
    assert(read + right.remaining() =~= right.remaining());
    loop
        invariant
            read + left.remaining() == a@,
            read + right.remaining() == b@,
            left.decrease() is Some,
            left.obeys_prophetic_iter_laws(),
            right.obeys_prophetic_iter_laws(),
        decreases left.decrease()->0,
    {
        let ghost left_before = left.remaining();
        let ghost right_before = right.remaining();
        match (left.next(), right.next()) {
            (Some(c), Some(d)) => {
                assert(a@[read.len() as int] == c);
                assert(b@[read.len() as int] == d);
                if c != d {
                    return false;
                }
                proof {
                    assert(left_before =~= seq![c] + left.remaining());
                    assert(right_before =~= seq![d] + right.remaining());
                    read = read.push(c);
                    assert(read + left.remaining() =~= a@);
                    assert(read + right.remaining() =~= b@);
                }
            },
            (None, None) => {
                assert(a@ =~= read);
                assert(b@ =~= read);
                return true;
            },
            _ => {
                assert(a@.len() != b@.len());
                return false;
            },
        }
    }
}

/// Whether one of `items` holds the text `wanted`.
pub fn contains_text(items: &Vec<String>, wanted: &str) -> (found: bool)
    ensures
        found == views(items@).contains(wanted@),
{
    let mut i: usize = 0;
    while i < items.len()
        invariant
            i <= items@.len(),
            forall|j: int| 0 <= j < i ==> views(items@)[j] != wanted@,
        decreases items@.len() - i,
    {
        if str_eq(items[i].as_str(), wanted) {
            assert(views(items@)[i as int] == wanted@);
            return true;
        }
        i += 1;
    }
    false
}

/// Adds `item` at the end of `items` unless its text is already there.
pub fn push_unique(items: &mut Vec<String>, item: String)
    ensures
        views(final(items)@) == insert_unique(views(old(items)@), item@),
{
    if !contains_text(items, item.as_str()) {
        let ghost before = items@;
        items.push(item);
        assert(views(items@) =~= views(before).push(item@));
    }
}

/// The first occurrence of every text of `items`, in order.
pub fn dedup_texts(items: Vec<String>) -> (out: Vec<String>)
    ensures
        views(out@) == distinct(views(items@)),
{
    let mut out: Vec<String> = Vec::new();
    let mut i: usize = 0;
    assert(views(items@).subrange(0, 0) =~= Seq::<Seq<char>>::empty());
    assert(views(out@) =~= Seq::<Seq<char>>::empty());
    while i < items.len()
        invariant
            i <= items@.len(),
            views(out@) == distinct(views(items@).subrange(0, i as int)),
        decreases items@.len() - i,
    {
        push_unique(&mut out, items[i].clone());
        assert(views(items@).subrange(0, i + 1).drop_last() =~= views(items@).subrange(
            0,
            i as int,
        ));
        i += 1;
    }
    assert(views(items@).subrange(0, items@.len() as int) =~= views(items@));
    out
}

/// The texts of `parts` joined with `sep` between neighbours.
pub fn join_texts(parts: &Vec<String>, sep: &str) -> (out: String)
    ensures
        out@ == join(views(parts@), sep@),
{
    let mut out = String::new();
    let mut i: usize = 0;
    assert(views(parts@).subrange(0, 0) =~= Seq::<Seq<char>>::empty());
    while i < parts.len()
        invariant
            i <= parts@.len(),
            out@ == join(views(parts@).subrange(0, i as int), sep@),
        decreases parts@.len() - i,
    {
        let ghost upto = views(parts@).subrange(0, i + 1);
        assert(upto.drop_last() =~= views(parts@).subrange(0, i as int));
        assert(upto.last() == parts@[i as int]@);
        if i > 0 {
            out.append(sep);
        } else {
            assert(out@ + parts@[i as int]@ =~= parts@[i as int]@);
        }
        out.append(parts[i].as_str());
        i += 1;
    }
    assert(views(parts@).subrange(0, parts@.len() as int) =~= views(parts@));
    out
}

/// A copy of the texts of `items`.
pub fn clone_texts(items: &Vec<String>) -> (out: Vec<String>)
    ensures
        views(out@) == views(items@),
{
    let mut out: Vec<String> = Vec::new();
    let mut i: usize = 0;
    while i < items.len()
        invariant
            i <= items@.len(),
            out@.len() == i,
            forall|j: int| 0 <= j < i ==> out@[j]@ == items@[j]@,
        decreases items@.len() - i,
    {
        out.push(items[i].clone());
        i += 1;
    }
    assert(views(out@) =~= views(items@));
    out
}

} // verus!
