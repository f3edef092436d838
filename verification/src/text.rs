//! Text as sequences of characters: the small vocabulary of searching,
//! splitting and trimming that the manifest heuristics and the path rules
//! are stated in, with an executable counterpart of each over a character
//! buffer.

use vstd::prelude::*;

verus! {

/// What is stripped from the ends of a text.
pub enum Strip {
    /// Every character with the Unicode property `White_Space`.
    Whitespace,
    /// One given character.
    Exactly(char),
}

/// The characters with the Unicode property `White_Space`.
pub open spec fn is_space(c: char) -> bool {
    let n = c as u32;
    ||| 0x09 <= n <= 0x0D
    ||| n == 0x20
    ||| n == 0x85
    ||| n == 0xA0
    ||| n == 0x1680
    ||| 0x2000 <= n <= 0x200A
    ||| n == 0x2028
    ||| n == 0x2029
    ||| n == 0x202F
    ||| n == 0x205F
    ||| n == 0x3000
}

/// Whether stripping by `k` removes the character `c`.
pub open spec fn strips(k: Strip, c: char) -> bool {
    match k {
        Strip::Whitespace => is_space(c),
        Strip::Exactly(m) => c == m,
    }
}

/// `s` without its longest prefix of characters that `k` strips.
pub open spec fn skip_leading(s: Seq<char>, k: Strip) -> Seq<char>
    decreases s.len(),
{
    if s.len() > 0 && strips(k, s[0]) {
        skip_leading(s.drop_first(), k)
    } else {
        s
    }
}

/// `s` without its longest suffix of characters that `k` strips.
pub open spec fn skip_trailing(s: Seq<char>, k: Strip) -> Seq<char>
    decreases s.len(),
{
    if s.len() > 0 && strips(k, s.last()) {
        skip_trailing(s.drop_last(), k)
    } else {
        s
    }
}

/// `s` stripped by `k` at both ends.
pub open spec fn trimmed(s: Seq<char>, k: Strip) -> Seq<char> {
    skip_trailing(skip_leading(s, k), k)
}

/// `s` without leading and trailing white space.
pub open spec fn trim(s: Seq<char>) -> Seq<char> {
    trimmed(s, Strip::Whitespace)
}

/// Whether `s` begins with `prefix`.
pub open spec fn starts_with(s: Seq<char>, prefix: Seq<char>) -> bool {
    prefix.len() <= s.len() && s.subrange(0, prefix.len() as int) == prefix
}

/// Whether `needle` stands in `s` at position `i`.
pub open spec fn occurs_at(s: Seq<char>, needle: Seq<char>, i: int) -> bool {
    0 <= i && i + needle.len() <= s.len() && s.subrange(i, i + needle.len()) == needle
}

/// Whether `needle` stands somewhere in `s`. The empty text stands in every text.
pub open spec fn contains(s: Seq<char>, needle: Seq<char>) -> bool {
    exists|i: int| occurs_at(s, needle, i)
}

/// The position of the first `c` in `s`, or the length of `s` where there is none.
pub open spec fn find_char(s: Seq<char>, c: char) -> int
    decreases s.len(),
{
    if s.len() == 0 || s[0] == c {
        0
    } else {
        1 + find_char(s.drop_first(), c)
    }
}

/// The pieces of `s` between occurrences of `sep`: one more than there are
/// separators, so never none, and possibly empty ones.
pub open spec fn split(s: Seq<char>, sep: char) -> Seq<Seq<char>>
    decreases s.len(),
{
    let i = find_char(s, sep);
    if 0 <= i < s.len() {
        seq![s.take(i)] + split(s.skip(i + 1), sep)
    } else {
        seq![s]
    }
}

/// The lines of `s`: the pieces that end at a line feed, and what follows
/// the last line feed unless it is empty. A carriage return before the line
/// feed stays in its line; trimming removes it.
pub open spec fn lines(s: Seq<char>) -> Seq<Seq<char>>
    decreases s.len(),
{
    if s.len() == 0 {
        Seq::empty()
    } else {
        let i = find_char(s, '\n');
        if 0 <= i < s.len() {
            seq![s.take(i)] + lines(s.skip(i + 1))
        } else {
            seq![s]
        }
    }
}

/// `find_char` stays within the text, stops at a `c`, and passes none.
pub proof fn lemma_find_char(s: Seq<char>, c: char)
    ensures
        0 <= find_char(s, c) <= s.len(),
        find_char(s, c) < s.len() ==> s[find_char(s, c)] == c,
        forall|j: int| 0 <= j < find_char(s, c) ==> s[j] != c,
    decreases s.len(),
{
    if s.len() == 0 || s[0] == c {
    } else {
        let t = s.drop_first();
        lemma_find_char(t, c);
        assert forall|j: int| 0 <= j < find_char(s, c) implies s[j] != c by {
            if j > 0 {
                assert(s[j] == t[j - 1]);
            }
        }
    }
}

/// A position that holds `c` and has no `c` before it is the one `find_char` gives.
pub proof fn lemma_find_char_is(s: Seq<char>, c: char, i: int)
    requires
        0 <= i <= s.len(),
        i < s.len() ==> s[i] == c,
        forall|j: int| 0 <= j < i ==> s[j] != c,
    ensures
        find_char(s, c) == i,
{
    lemma_find_char(s, c);
    let f = find_char(s, c);
    if f < i {
        assert(s[f] != c);
    } else if i < f {
        assert(s[i] != c);
    }
}

/// The first piece of a text is what stands before its first separator.
pub proof fn lemma_first_piece_starts(s: Seq<char>, sep: char)
    ensures
        split(s, sep).len() >= 1,
        split(s, sep)[0] == s.subrange(0, split(s, sep)[0].len() as int),
        split(s, sep)[0].len() <= s.len(),
{
    lemma_find_char(s, sep);
    let i = find_char(s, sep);
    if 0 <= i < s.len() {
        assert(s.take(i) =~= s.subrange(0, i));
    } else {
        assert(s =~= s.subrange(0, s.len() as int));
    }
}

/// Splitting two texts joined by a separator gives the pieces of the
/// first, then the pieces of the second.
pub proof fn lemma_split_joined(s: Seq<char>, t: Seq<char>, sep: char)
    ensures
        split(s + seq![sep] + t, sep) == split(s, sep) + split(t, sep),
    decreases s.len(),
{
    let u = s + seq![sep] + t;
    lemma_find_char(s, sep);
    let i = find_char(s, sep);
    if i < s.len() {
        assert forall|j: int| 0 <= j < i implies u[j] != sep by {
            assert(u[j] == s[j]);
        }
        assert(u[i] == s[i]);
        lemma_find_char_is(u, sep, i);
        assert(u.take(i) =~= s.take(i));
        assert(u.skip(i + 1) =~= s.skip(i + 1) + seq![sep] + t);
        lemma_split_joined(s.skip(i + 1), t, sep);
        assert(seq![s.take(i)] + (split(s.skip(i + 1), sep) + split(t, sep)) =~= (seq![s.take(i)]
            + split(s.skip(i + 1), sep)) + split(t, sep));
    } else {
        assert forall|j: int| 0 <= j < s.len() implies u[j] != sep by {
            assert(u[j] == s[j]);
        }
        assert(u[s.len() as int] == sep);
        lemma_find_char_is(u, sep, s.len() as int);
        assert(u.take(s.len() as int) =~= s);
        assert(u.skip(s.len() as int + 1) =~= t);
    }
}

/// The characters of `s`, in a buffer that can be indexed.
pub fn chars_of(s: &str) -> (v: Vec<char>)
    ensures
        v@ == s@,
{
    let mut v: Vec<char> = Vec::new();
    let it = s.chars();
    for c in iter: it
        invariant
            v@ == s@.take(iter.index() as int),
            iter.seq() == s@,
    {
        v.push(c);
    }
    v
}

/// Whether `c` is white space.
pub fn is_whitespace(c: char) -> (r: bool)
    ensures
        r == is_space(c),
{
    let n: u32 = c as u32;
    (0x09 <= n && n <= 0x0D) || n == 0x20 || n == 0x85 || n == 0xA0 || n == 0x1680 || (0x2000 <= n
        && n <= 0x200A) || n == 0x2028 || n == 0x2029 || n == 0x202F || n == 0x205F || n == 0x3000
}

/// Whether stripping by `k` removes `c`.
pub fn is_stripped(k: &Strip, c: char) -> (r: bool)
    ensures
        r == strips(*k, c),
{
    match k {
        Strip::Whitespace => is_whitespace(c),
        Strip::Exactly(m) => c == *m,
    }
}

/// Where `v[start..end]` begins once its leading stripped characters are passed.
pub fn skip_leading_in(v: &Vec<char>, start: usize, end: usize, k: &Strip) -> (r: usize)
    requires
        start <= end <= v.len(),
    ensures
        start <= r <= end,
        v@.subrange(r as int, end as int) == skip_leading(
            v@.subrange(start as int, end as int),
            *k,
        ),
{
    let mut i: usize = start;
    while i < end && is_stripped(k, v[i])
        invariant
            start <= i <= end <= v.len(),
            skip_leading(v@.subrange(i as int, end as int), *k) == skip_leading(
                v@.subrange(start as int, end as int),
                *k,
            ),
        decreases end - i,
    {
        assert(v@.subrange(i as int, end as int).drop_first() =~= v@.subrange(
            i as int + 1,
            end as int,
        ));
        i = i + 1;
    }
    i
}

/// Where `v[start..end]` ends once its trailing stripped characters are dropped.
pub fn skip_trailing_in(v: &Vec<char>, start: usize, end: usize, k: &Strip) -> (r: usize)
    requires
        start <= end <= v.len(),
    ensures
        start <= r <= end,
        v@.subrange(start as int, r as int) == skip_trailing(
            v@.subrange(start as int, end as int),
            *k,
        ),
{
    let mut j: usize = end;
    while start < j && is_stripped(k, v[j - 1])
        invariant
            start <= j <= end <= v.len(),
            skip_trailing(v@.subrange(start as int, j as int), *k) == skip_trailing(
                v@.subrange(start as int, end as int),
                *k,
            ),
        decreases j - start,
    {
        assert(v@.subrange(start as int, j as int).drop_last() =~= v@.subrange(
            start as int,
            j as int - 1,
        ));
        j = j - 1;
    }
    j
}

/// The bounds of `v[start..end]` stripped by `k` at both ends.
pub fn trimmed_in(v: &Vec<char>, start: usize, end: usize, k: &Strip) -> (r: (usize, usize))
    requires
        start <= end <= v.len(),
    ensures
        start <= r.0 <= r.1 <= end,
        v@.subrange(r.0 as int, r.1 as int) == trimmed(v@.subrange(start as int, end as int), *k),
{
    let a = skip_leading_in(v, start, end, k);
    let b = skip_trailing_in(v, a, end, k);
    (a, b)
}

/// Where the first `c` of `v[start..end]` stands, or `end` where there is none.
pub fn find_char_in(v: &Vec<char>, start: usize, end: usize, c: char) -> (r: usize)
    requires
        start <= end <= v.len(),
    ensures
        start <= r <= end,
        r - start == find_char(v@.subrange(start as int, end as int), c),
{
    let mut i: usize = start;
    while i < end && v[i] != c
        invariant
            start <= i <= end <= v.len(),
            forall|j: int| start <= j < i ==> v@[j] != c,
        decreases end - i,
    {
        i = i + 1;
    }
    proof {
        lemma_find_char_is(v@.subrange(start as int, end as int), c, i - start);
    }
    i
}

/// Whether `v[start..end]` begins with `prefix`.
pub fn starts_with_in(v: &Vec<char>, start: usize, end: usize, prefix: &Vec<char>) -> (r: bool)
    requires
        start <= end <= v.len(),
    ensures
        r == starts_with(v@.subrange(start as int, end as int), prefix@),
{
    let n = prefix.len();
    if n > end - start {
        return false;
    }
    let ghost s = v@.subrange(start as int, end as int);
    let mut i: usize = 0;
    while i < n
        invariant
            i <= n == prefix.len(),
            n <= end - start,
            start <= end <= v.len(),
            s == v@.subrange(start as int, end as int),
            forall|j: int| 0 <= j < i ==> s[j] == prefix@[j],
        decreases n - i,
    {
        if v[start + i] != prefix[i] {
            proof {
                assert(s.subrange(0, n as int)[i as int] == s[i as int]);
            }
            return false;
        }
        i = i + 1;
    }
    assert(s.subrange(0, n as int) =~= prefix@);
    true
}

/// Whether `needle` stands somewhere in `v[start..end]`.
pub fn contains_in(v: &Vec<char>, start: usize, end: usize, needle: &Vec<char>) -> (r: bool)
    requires
        start <= end <= v.len(),
    ensures
        r == contains(v@.subrange(start as int, end as int), needle@),
{
    let n = needle.len();
    let ghost s = v@.subrange(start as int, end as int);
    let mut r = false;
    if n > end - start {
        assert(forall|i: int| !occurs_at(s, needle@, i));
        return false;
    }
    let last = end - n;
    let mut i: usize = start;
    loop
        invariant
            start <= i <= last,
            last == end - n,
            n == needle.len(),
            start <= end <= v.len(),
            s == v@.subrange(start as int, end as int),
            forall|j: int| 0 <= j < i - start ==> !occurs_at(s, needle@, j),
        ensures
            r == contains(s, needle@),
        decreases last - i,
    {
        proof {
            let t = v@.subrange(i as int, end as int);
            assert(t.subrange(0, n as int) =~= s.subrange(i - start, i - start + n));
        }
        if starts_with_in(v, i, end, needle) {
            assert(occurs_at(s, needle@, i - start));
            r = true;
            break;
        }
        if i == last {
            assert(forall|j: int| !occurs_at(s, needle@, j));
            r = false;
            break;
        }
        i = i + 1;
    }
    r
}

/// The text of a string that may be absent.
pub open spec fn opt_text(s: Option<String>) -> Option<Seq<char>> {
    match s {
        Some(t) => Some(t@),
        None => None,
    }
}

/// The text of a string slice that may be absent.
pub open spec fn opt_str(s: Option<&str>) -> Option<Seq<char>> {
    match s {
        Some(t) => Some(t@),
        None => None,
    }
}

/// The texts that a sequence of buffers holds.
pub open spec fn texts(v: Seq<Vec<char>>) -> Seq<Seq<char>> {
    v.map_values(|x: Vec<char>| x@)
}

/// The texts that a sequence of strings holds.
pub open spec fn string_texts(v: Seq<String>) -> Seq<Seq<char>> {
    v.map_values(|x: String| x@)
}

/// The parts of `v` that a list of bounds marks out.
pub open spec fn parts(v: Seq<char>, bounds: Seq<(usize, usize)>) -> Seq<Seq<char>> {
    Seq::new(bounds.len(), |k: int| v.subrange(bounds[k].0 as int, bounds[k].1 as int))
}

/// Whether every pair of `bounds` is a range within `start..end`.
pub open spec fn bounds_within(bounds: Seq<(usize, usize)>, start: int, end: int) -> bool {
    forall|k: int|
        0 <= k < bounds.len() ==> start <= (#[trigger] bounds[k]).0 <= bounds[k].1 <= end
}

/// A copy of `v[start..end]`.
pub fn slice_of(v: &Vec<char>, start: usize, end: usize) -> (r: Vec<char>)
    requires
        start <= end <= v.len(),
    ensures
        r@ == v@.subrange(start as int, end as int),
{
    let mut r: Vec<char> = Vec::new();
    let mut i: usize = start;
    while i < end
        invariant
            start <= i <= end <= v.len(),
            r@ == v@.subrange(start as int, i as int),
        decreases end - i,
    {
        r.push(v[i]);
        i = i + 1;
        assert(r@ =~= v@.subrange(start as int, i as int));
    }
    r
}

/// The bounds of the pieces of `v[start..end]` between occurrences of `sep`.
pub fn split_in(v: &Vec<char>, start: usize, end: usize, sep: char) -> (r: Vec<(usize, usize)>)
    requires
        start <= end <= v.len(),
    ensures
        bounds_within(r@, start as int, end as int),
        parts(v@, r@) == split(v@.subrange(start as int, end as int), sep),
        r@.len() >= 1,
{
    let mut r: Vec<(usize, usize)> = Vec::new();
    let mut pos: usize = start;
    let ghost whole = v@.subrange(start as int, end as int);
    assert(parts(v@, r@) + split(v@.subrange(pos as int, end as int), sep) =~= split(whole, sep));
    loop
        invariant_except_break
            parts(v@, r@) + split(v@.subrange(pos as int, end as int), sep) == split(whole, sep),
        invariant
            start <= pos <= end <= v.len(),
            whole == v@.subrange(start as int, end as int),
            bounds_within(r@, start as int, end as int),
        ensures
            bounds_within(r@, start as int, end as int),
            parts(v@, r@) == split(whole, sep),
            r@.len() >= 1,
        decreases end - pos,
    {
        let i = find_char_in(v, pos, end, sep);
        let ghost rest = v@.subrange(pos as int, end as int);
        let ghost before = parts(v@, r@);
        r.push((pos, i));
        if i == end {
            proof {
                assert(rest.take(i - pos) =~= rest);
                assert(parts(v@, r@) =~= before + seq![rest]);
            }
            break;
        }
        proof {
            assert(rest.take(i - pos) =~= v@.subrange(pos as int, i as int));
            assert(rest.skip(i - pos + 1) =~= v@.subrange(i as int + 1, end as int));
            assert(parts(v@, r@) =~= before.push(v@.subrange(pos as int, i as int)));
            assert(before + (seq![rest.take(i - pos)] + split(rest.skip(i - pos + 1), sep))
                =~= before.push(rest.take(i - pos)) + split(rest.skip(i - pos + 1), sep));
        }
        pos = i + 1;
    }
    r
}

/// The bounds of the lines of `v[start..end]`.
pub fn lines_in(v: &Vec<char>, start: usize, end: usize) -> (r: Vec<(usize, usize)>)
    requires
        start <= end <= v.len(),
    ensures
        bounds_within(r@, start as int, end as int),
        parts(v@, r@) == lines(v@.subrange(start as int, end as int)),
{
    let mut r: Vec<(usize, usize)> = Vec::new();
    let mut pos: usize = start;
    let ghost whole = v@.subrange(start as int, end as int);
    assert(parts(v@, r@) + lines(v@.subrange(pos as int, end as int)) =~= lines(whole));
    while pos < end
        invariant
            start <= pos <= end <= v.len(),
            whole == v@.subrange(start as int, end as int),
            bounds_within(r@, start as int, end as int),
            parts(v@, r@) + lines(v@.subrange(pos as int, end as int)) == lines(whole),
        decreases end - pos,
    {
        let i = find_char_in(v, pos, end, '\n');
        let ghost rest = v@.subrange(pos as int, end as int);
        let ghost before = parts(v@, r@);
        r.push((pos, i));
        if i == end {
            proof {
                assert(rest.take(i - pos) =~= rest);
                assert(parts(v@, r@) =~= before + seq![rest]);
                assert(v@.subrange(end as int, end as int).len() == 0);
                assert(parts(v@, r@) + lines(v@.subrange(end as int, end as int)) =~= lines(whole));
            }
            pos = end;
        } else {
            proof {
                assert(rest.take(i - pos) =~= v@.subrange(pos as int, i as int));
                assert(rest.skip(i - pos + 1) =~= v@.subrange(i as int + 1, end as int));
                assert(parts(v@, r@) =~= before.push(v@.subrange(pos as int, i as int)));
                assert(before + (seq![rest.take(i - pos)] + lines(rest.skip(i - pos + 1)))
                    =~= before.push(rest.take(i - pos)) + lines(rest.skip(i - pos + 1)));
            }
            pos = i + 1;
        }
    }
    proof {
        assert(v@.subrange(pos as int, end as int).len() == 0);
        assert(parts(v@, r@) + Seq::<Seq<char>>::empty() =~= parts(v@, r@));
    }
    r
}

/// Whether two buffers hold the same text.
pub fn same_text(a: &Vec<char>, b: &Vec<char>) -> (r: bool)
    ensures
        r == (a@ == b@),
{
    if a.len() != b.len() {
        return false;
    }
    let mut i: usize = 0;
    while i < a.len()
        invariant
            i <= a.len() == b.len(),
            forall|j: int| 0 <= j < i ==> a@[j] == b@[j],
        decreases a.len() - i,
    {
        if a[i] != b[i] {
            return false;
        }
        i = i + 1;
    }
    assert(a@ =~= b@);
    true
}

} // verus!
