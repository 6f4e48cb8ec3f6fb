//! Text helpers over character sequences: the few string operations that the
//! decoders need, each stated over the view of the string.

use vstd::prelude::*;
use vstd::std_specs::iter::IteratorSpec;

verus! {

/// The characters of a string slice, in order.
pub fn chars_of(s: &str) -> (v: Vec<char>)
    ensures
        v@ == s@,
{
    broadcast use vstd::string::group_string_axioms;

    let mut it = s.chars();
    let mut v: Vec<char> = Vec::new();
    loop
        invariant
            it.obeys_prophetic_iter_laws(),
            it.decrease() is Some,
            v@ + it.remaining() == s@,
        ensures
            v@ == s@,
        decreases it.decrease()->0,
    {
        let ghost before = it.remaining();
        match it.next() {
            Some(c) => {
                v.push(c);
                assert(v@ + it.remaining() == s@) by {
                    assert(before == seq![c] + before.drop_first());
                    assert(v@ + it.remaining() =~= v@.drop_last() + before);
                }
            },
            None => {
                assert(v@ + it.remaining() =~= v@);
                break;
            },
        }
    }
    v
}

/// The part of a string between two character positions, as a new string.
pub fn slice_of(s: &str, from: usize, to: usize) -> (r: String)
    requires
        from <= to <= s@.len(),
    ensures
        r@ == s@.subrange(from as int, to as int),
{
    s.substring_char(from, to).to_owned()
}

/// Whether a character is an ASCII decimal digit.
pub open spec fn is_digit(c: char) -> bool {
    '0' <= c && c <= '9'
}

/// Whether a character is an ASCII decimal digit.
pub fn digit(c: char) -> (r: bool)
    ensures
        r == is_digit(c),
{
    '0' <= c && c <= '9'
}

} // verus!

verus! {

/// Whether a character is white space: the characters with the Unicode
/// property `White_Space`.
pub open spec fn is_space(c: char) -> bool {
    let u = c as u32;
    (0x09 <= u && u <= 0x0d) || u == 0x20 || u == 0x85 || u == 0xa0 || u == 0x1680 || (0x2000
        <= u && u <= 0x200a) || u == 0x2028 || u == 0x2029 || u == 0x202f || u == 0x205f || u
        == 0x3000
}

/// Whether a character is white space.
pub fn space(c: char) -> (r: bool)
    ensures
        r == is_space(c),
{
    let u = c as u32;
    (0x09 <= u && u <= 0x0d) || u == 0x20 || u == 0x85 || u == 0xa0 || u == 0x1680 || (0x2000
        <= u && u <= 0x200a) || u == 0x2028 || u == 0x2029 || u == 0x202f || u == 0x205f || u
        == 0x3000
}

/// Whether a text holds nothing but white space; the empty text does.
pub open spec fn is_blank(s: Seq<char>) -> bool {
    forall|i: int| 0 <= i < s.len() ==> is_space(#[trigger] s[i])
}

/// The end of the run of white space that starts at `from`.
pub open spec fn space_run_end(s: Seq<char>, from: int) -> int
    decreases s.len() - from,
{
    if 0 <= from < s.len() && is_space(s[from]) {
        space_run_end(s, from + 1)
    } else {
        from
    }
}

/// The end of the run of characters other than white space that starts at
/// `from`.
pub open spec fn word_end(s: Seq<char>, from: int) -> int
    decreases s.len() - from,
{
    if 0 <= from < s.len() && !is_space(s[from]) {
        word_end(s, from + 1)
    } else {
        from
    }
}

/// The start of the run of white space that ends at `to`.
pub open spec fn space_run_start(s: Seq<char>, to: int) -> int
    decreases to,
{
    if 0 < to <= s.len() && is_space(s[to - 1]) {
        space_run_start(s, to - 1)
    } else {
        to
    }
}

/// The first run of characters that holds no white space; empty where the
/// text is blank.
pub open spec fn first_word(s: Seq<char>) -> Seq<char> {
    let a = space_run_end(s, 0);
    s.subrange(a, word_end(s, a))
}

/// The text without the white space at its two ends.
pub open spec fn trimmed(s: Seq<char>) -> Seq<char> {
    let a = space_run_end(s, 0);
    let b = space_run_start(s, s.len() as int);
    if a <= b {
        s.subrange(a, b)
    } else {
        Seq::empty()
    }
}

/// Whether `p` stands in `s` at position `i`.
pub open spec fn occurs_at(s: Seq<char>, p: Seq<char>, i: int) -> bool {
    0 <= i && i + p.len() <= s.len() && s.subrange(i, i + p.len()) == p
}

/// Whether `p` stands somewhere in `s`.
pub open spec fn contains_text(s: Seq<char>, p: Seq<char>) -> bool {
    exists|i: int| occurs_at(s, p, i)
}

/// The first position at or after `from` where `p` stands in `s`, or -1.
pub open spec fn first_occurrence(s: Seq<char>, p: Seq<char>, from: int) -> int
    decreases s.len() + 1 - from,
{
    if from < 0 || from + p.len() > s.len() {
        -1
    } else if occurs_at(s, p, from) {
        from
    } else {
        first_occurrence(s, p, from + 1)
    }
}

/// The last position before `to` that holds `c`, or -1.
pub open spec fn last_index_of(s: Seq<char>, c: char, to: int) -> int
    decreases to,
{
    if to <= 0 || to > s.len() {
        -1
    } else if s[to - 1] == c {
        to - 1
    } else {
        last_index_of(s, c, to - 1)
    }
}

/// The bounds of `space_run_end` and what lies between.
pub proof fn lemma_space_run_end(s: Seq<char>, from: int)
    requires
        0 <= from <= s.len(),
    ensures
        from <= space_run_end(s, from) <= s.len(),
        forall|k: int| from <= k < space_run_end(s, from) ==> is_space(#[trigger] s[k]),
        space_run_end(s, from) < s.len() ==> !is_space(s[space_run_end(s, from)]),
    decreases s.len() - from,
{
    if from < s.len() && is_space(s[from]) {
        lemma_space_run_end(s, from + 1);
    }
}

/// The bounds of `space_run_start` and what lies between.
pub proof fn lemma_space_run_start(s: Seq<char>, to: int)
    requires
        0 <= to <= s.len(),
    ensures
        0 <= space_run_start(s, to) <= to,
        forall|k: int| space_run_start(s, to) <= k < to ==> is_space(#[trigger] s[k]),
        space_run_start(s, to) > 0 ==> !is_space(s[space_run_start(s, to) - 1]),
    decreases to,
{
    if 0 < to && is_space(s[to - 1]) {
        lemma_space_run_start(s, to - 1);
    }
}

/// Whether two texts hold the same characters.
pub fn same_chars(a: &Vec<char>, b: &Vec<char>) -> (r: bool)
    ensures
        r == (a@ == b@),
{
    if a.len() != b.len() {
        return false;
    }
    let mut i: usize = 0;
    while i < a.len()
        invariant
            i <= a.len(),
            a.len() == b.len(),
            a@.take(i as int) == b@.take(i as int),
        decreases a.len() - i,
    {
        if a[i] != b[i] {
            return false;
        }
        i = i + 1;
        assert(a@.take(i as int) =~= a@.take(i - 1).push(a@[i - 1]));
        assert(b@.take(i as int) =~= b@.take(i - 1).push(b@[i - 1]));
    }
    assert(a@.take(a.len() as int) =~= a@);
    assert(b@.take(a.len() as int) =~= b@);
    true
}

/// Whether a text holds nothing but white space.
pub fn blank(s: &str) -> (r: bool)
    ensures
        r == is_blank(s@),
{
    let chars = chars_of(s);
    let mut i: usize = 0;
    while i < chars.len()
        invariant
            i <= chars.len(),
            chars@ == s@,
            forall|k: int| 0 <= k < i ==> is_space(#[trigger] s@[k]),
        decreases chars.len() - i,
    {
        if !space(chars[i]) {
            return false;
        }
        i = i + 1;
    }
    true
}

/// The end of the run of white space that starts at `from`.
pub fn skip_spaces(chars: &Vec<char>, from: usize) -> (r: usize)
    requires
        from <= chars.len(),
    ensures
        r == space_run_end(chars@, from as int),
        from <= r <= chars.len(),
{
    let mut i: usize = from;
    while i < chars.len() && space(chars[i])
        invariant
            from <= i <= chars.len(),
            space_run_end(chars@, from as int) == space_run_end(chars@, i as int),
        decreases chars.len() - i,
    {
        i = i + 1;
    }
    i
}

/// The end of the run of characters other than white space that starts at
/// `from`.
pub fn skip_word(chars: &Vec<char>, from: usize) -> (r: usize)
    requires
        from <= chars.len(),
    ensures
        r == word_end(chars@, from as int),
        from <= r <= chars.len(),
{
    let mut i: usize = from;
    while i < chars.len() && !space(chars[i])
        invariant
            from <= i <= chars.len(),
            word_end(chars@, from as int) == word_end(chars@, i as int),
        decreases chars.len() - i,
    {
        i = i + 1;
    }
    i
}

/// The start of the run of white space that ends at `to`.
pub fn skip_spaces_back(chars: &Vec<char>, to: usize) -> (r: usize)
    requires
        to <= chars.len(),
    ensures
        r == space_run_start(chars@, to as int),
        r <= to,
{
    let mut i: usize = to;
    while i > 0 && space(chars[i - 1])
        invariant
            i <= to <= chars.len(),
            space_run_start(chars@, to as int) == space_run_start(chars@, i as int),
        decreases i,
    {
        i = i - 1;
    }
    i
}

/// Whether `p` stands in `s` at position `i`.
pub fn stands_at(s: &Vec<char>, p: &Vec<char>, i: usize) -> (r: bool)
    ensures
        r == occurs_at(s@, p@, i as int),
{
    if p.len() > s.len() || i > s.len() - p.len() {
        return false;
    }
    let mut k: usize = 0;
    while k < p.len()
        invariant
            k <= p.len(),
            i + p.len() <= s.len(),
            s@.subrange(i as int, i + k) == p@.take(k as int),
        decreases p.len() - k,
    {
        if s[i + k] != p[k] {
            assert(s@.subrange(i as int, i + p.len())[k as int] != p@[k as int]);
            return false;
        }
        k = k + 1;
        assert(s@.subrange(i as int, i + k) =~= s@.subrange(i as int, i + k - 1).push(
            s@[i + k - 1],
        ));
        assert(p@.take(k as int) =~= p@.take(k - 1).push(p@[k - 1]));
    }
    assert(p@.take(p.len() as int) =~= p@);
    true
}

/// The first position at or after `from` where `p` stands in `s`.
pub fn find_from(s: &Vec<char>, p: &Vec<char>, from: usize) -> (r: Option<usize>)
    ensures
        match r {
            Some(i) => first_occurrence(s@, p@, from as int) == i,
            None => first_occurrence(s@, p@, from as int) == -1,
        },
{
    if p.len() > s.len() || from > s.len() - p.len() {
        return None;
    }
    let last = s.len() - p.len();
    let mut i: usize = from;
    loop
        invariant
            from <= i <= last,
            last == s.len() - p.len(),
            first_occurrence(s@, p@, from as int) == first_occurrence(s@, p@, i as int),
        decreases last - i,
    {
        if stands_at(s, p, i) {
            return Some(i);
        }
        if i == last {
            assert(first_occurrence(s@, p@, i + 1) == -1);
            return None;
        }
        i = i + 1;
    }
}

/// What `first_occurrence` finds is the earliest place where `p` stands in `s`
/// at or after `from`.
pub proof fn lemma_first_occurrence(s: Seq<char>, p: Seq<char>, from: int)
    requires
        0 <= from,
    ensures
        first_occurrence(s, p, from) == -1 ==> forall|i: int|
            from <= i ==> !#[trigger] occurs_at(s, p, i),
        first_occurrence(s, p, from) != -1 ==> {
            &&& from <= first_occurrence(s, p, from)
            &&& occurs_at(s, p, first_occurrence(s, p, from))
            &&& forall|i: int|
                from <= i < first_occurrence(s, p, from) ==> !#[trigger] occurs_at(s, p, i)
        },
    decreases s.len() + 1 - from,
{
    if from + p.len() > s.len() {
    } else if occurs_at(s, p, from) {
    } else {
        lemma_first_occurrence(s, p, from + 1);
    }
}

/// Whether `p` stands somewhere in `s`.
pub fn has_text(s: &str, p: &str) -> (r: bool)
    ensures
        r == contains_text(s@, p@),
{
    let a = chars_of(s);
    let b = chars_of(p);
    proof {
        lemma_first_occurrence(s@, p@, 0);
    }
    find_from(&a, &b, 0).is_some()
}

/// Whether `s` begins with `p`.
pub fn begins_with(s: &str, p: &str) -> (r: bool)
    ensures
        r == p@.is_prefix_of(s@),
{
    let a = chars_of(s);
    let b = chars_of(p);
    let r = stands_at(&a, &b, 0);
    proof {
        if r {
            assert(s@.subrange(0, p@.len() as int) == p@);
            assert(p@.is_prefix_of(s@));
        }
        if p@.is_prefix_of(s@) {
            assert(s@.subrange(0, p@.len() as int) =~= p@);
        }
    }
    r
}

/// The last position before `to` that holds `c`.
pub fn rfind_char(s: &Vec<char>, c: char, to: usize) -> (r: Option<usize>)
    requires
        to <= s.len(),
    ensures
        match r {
            Some(i) => last_index_of(s@, c, to as int) == i && i < to && s@[i as int] == c,
            None => last_index_of(s@, c, to as int) == -1,
        },
{
    let mut i: usize = to;
    while i > 0
        invariant
            i <= to <= s.len(),
            last_index_of(s@, c, to as int) == last_index_of(s@, c, i as int),
        decreases i,
    {
        if s[i - 1] == c {
            return Some(i - 1);
        }
        i = i - 1;
    }
    None
}

} // verus!

verus! {

/// The texts of a row of strings, each as a character sequence.
pub open spec fn cells_of(row: Seq<String>) -> Seq<Seq<char>> {
    Seq::new(row.len(), |i: int| row[i]@)
}

/// The first position at or after `from` that holds `c`, or -1.
pub open spec fn position_of(s: Seq<char>, c: char, from: int) -> int
    decreases s.len() - from,
{
    if from < 0 || from >= s.len() {
        -1
    } else if s[from] == c {
        from
    } else {
        position_of(s, c, from + 1)
    }
}

/// The parts of a text between the occurrences of a separator; a text
/// without the separator is its own single part.
pub open spec fn split_on(s: Seq<char>, c: char) -> Seq<Seq<char>>
    decreases s.len(),
{
    let i = position_of(s, c, 0);
    if i < 0 || i >= s.len() {
        seq![s]
    } else {
        seq![s.take(i)] + split_on(s.skip(i + 1), c)
    }
}

/// Where `position_of` looks in a suffix, it finds the same place.
pub proof fn lemma_position_of_skip(s: Seq<char>, c: char, start: int, from: int)
    requires
        0 <= start <= from <= s.len(),
    ensures
        position_of(s.skip(start), c, from - start) == if position_of(s, c, from) < 0 {
            -1
        } else {
            position_of(s, c, from) - start
        },
    decreases s.len() - from,
{
    if from < s.len() {
        assert(s.skip(start)[from - start] == s[from]);
        if s[from] != c {
            lemma_position_of_skip(s, c, start, from + 1);
        }
    }
}

/// The first position at or after `from` that holds `c`.
pub fn find_char(s: &Vec<char>, c: char, from: usize) -> (r: Option<usize>)
    ensures
        match r {
            Some(i) => position_of(s@, c, from as int) == i && from <= i < s.len(),
            None => position_of(s@, c, from as int) == -1,
        },
{
    let mut i: usize = from;
    while i < s.len()
        invariant
            from <= i,
            position_of(s@, c, from as int) == position_of(s@, c, i as int),
        decreases s.len() - i,
    {
        if s[i] == c {
            return Some(i);
        }
        i = i + 1;
    }
    None
}

/// The parts of a text between the occurrences of a separator.
pub fn split_text(s: &str, c: char) -> (r: Vec<String>)
    ensures
        cells_of(r@) == split_on(s@, c),
        r@.len() >= 1,
{
    let chars = chars_of(s);
    let n = chars.len();
    let mut parts: Vec<String> = Vec::new();
    let mut start: usize = 0;
    assert(s@.skip(0) =~= s@);
    assert(cells_of(parts@) + split_on(s@, c) =~= split_on(s@, c));
    loop
        invariant_except_break
            split_on(s@, c) == cells_of(parts@) + split_on(s@.skip(start as int), c),
        invariant
            start <= n,
            n == chars.len(),
            chars@ == s@,
        ensures
            cells_of(parts@) == split_on(s@, c),
            parts@.len() >= 1,
        decreases n - start,
    {
        let ghost rest = s@.skip(start as int);
        let ghost before = cells_of(parts@);
        proof {
            lemma_position_of_skip(s@, c, start as int, start as int);
        }
        match find_char(&chars, c, start) {
            Some(i) => {
                let part = slice_of(s, start, i);
                assert(part@ =~= rest.take(i - start));
                assert(rest.skip(i - start + 1) =~= s@.skip(i + 1));
                parts.push(part);
                assert(cells_of(parts@) =~= before + seq![rest.take(i - start)]);
                assert(split_on(s@, c) =~= cells_of(parts@) + split_on(s@.skip(i + 1), c));
                start = i + 1;
            },
            None => {
                let part = slice_of(s, start, n);
                assert(part@ =~= rest);
                parts.push(part);
                assert(cells_of(parts@) =~= before + seq![rest]);
                break;
            },
        }
    }
    parts
}

/// Whether `s` ends with `p`.
pub open spec fn ends_with_text(s: Seq<char>, p: Seq<char>) -> bool {
    p.len() <= s.len() && s.subrange(s.len() - p.len(), s.len() as int) == p
}

/// Whether the text `s` ends with the text `p`.
pub fn ends_with(s: &Vec<char>, p: &Vec<char>) -> (r: bool)
    ensures
        r == ends_with_text(s@, p@),
{
    if p.len() > s.len() {
        return false;
    }
    stands_at(s, p, s.len() - p.len())
}

/// Whether `s` ends with `p`.
pub fn finishes_with(s: &str, p: &str) -> (r: bool)
    ensures
        r == ends_with_text(s@, p@),
{
    let a = chars_of(s);
    let b = chars_of(p);
    ends_with(&a, &b)
}

/// Trimming leaves a text as it is where neither its first nor its last
/// character is white space.
pub proof fn lemma_trimmed_identity(s: Seq<char>)
    requires
        s.len() > 0,
        !is_space(s[0]),
        !is_space(s.last()),
    ensures
        trimmed(s) == s,
{
    assert(space_run_end(s, 0) == 0);
    assert(space_run_start(s, s.len() as int) == s.len());
    assert(s.subrange(0, s.len() as int) =~= s);
}

/// The word of a text without white space ends at the end of the text.
pub proof fn lemma_word_end_identity(s: Seq<char>, from: int)
    requires
        0 <= from <= s.len(),
        forall|i: int| 0 <= i < s.len() ==> !is_space(#[trigger] s[i]),
    ensures
        word_end(s, from) == s.len(),
    decreases s.len() - from,
{
    if from < s.len() {
        lemma_word_end_identity(s, from + 1);
    }
}

/// The first word of a text that holds no white space is the text.
pub proof fn lemma_first_word_identity(s: Seq<char>)
    requires
        forall|i: int| 0 <= i < s.len() ==> !is_space(#[trigger] s[i]),
    ensures
        first_word(s) == s,
{
    if s.len() > 0 {
        assert(!is_space(s[0]));
    }
    assert(space_run_end(s, 0) == 0);
    lemma_word_end_identity(s, 0);
    assert(s.subrange(0, s.len() as int) =~= s);
}

} // verus!
