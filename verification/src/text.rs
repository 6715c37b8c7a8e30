//! Text as sequences of characters: searching, splitting, trimming and
//! building strings.

use vstd::prelude::*;
use vstd::utf8::*;

verus! {

/// `String::push` appends the character to the end of the string.
pub assume_specification[ String::push ](s: &mut String, c: char)
    ensures
        final(s)@ == old(s)@.push(c),
;

/// The text of each element of a list of character vectors.
pub open spec fn texts(list: Seq<Vec<char>>) -> Seq<Seq<char>> {
    Seq::new(list.len(), |i: int| list[i]@)
}

/// The text of each element of a list of strings.
pub open spec fn strings(list: Seq<String>) -> Seq<Seq<char>> {
    Seq::new(list.len(), |i: int| list[i]@)
}

/// The text of an optional string.
pub open spec fn opt_text(s: Option<String>) -> Option<Seq<char>> {
    match s {
        Some(s) => Some(s@),
        None => None,
    }
}

/// A copy of an optional string.
pub fn copy_option(s: &Option<String>) -> (r: Option<String>)
    ensures
        opt_text(r) == opt_text(*s),
{
    match s {
        Some(s) => Some(s.clone()),
        None => None,
    }
}

/// The characters of a string.
pub fn to_chars(s: &str) -> (r: Vec<char>)
    ensures
        r@ == s@,
{
    let mut r: Vec<char> = Vec::new();
    for c in it: s.chars()
        invariant
            it.seq() == s@,
            r@ == it.seq().take(it.index() as int),
    {
        r.push(c);
    }
    r
}

/// The string made of the given characters.
pub fn to_text(chars: &Vec<char>) -> (r: String)
    ensures
        r@ == chars@,
{
    let mut r: String = String::new();
    let mut i: usize = 0;
    while i < chars.len()
        invariant
            i <= chars.len(),
            r@ == chars@.take(i as int),
        decreases chars.len() - i,
    {
        r.push(chars[i]);
        i += 1;
        proof {
            assert(chars@.take(i as int) =~= chars@.take(i - 1).push(chars@[i - 1]));
        }
    }
    proof {
        assert(chars@.take(i as int) =~= chars@);
    }
    r
}

/// A copy of the characters from `from` up to `to`.
pub fn slice_of(s: &Vec<char>, from: usize, to: usize) -> (r: Vec<char>)
    requires
        from <= to <= s.len(),
    ensures
        r@ == s@.subrange(from as int, to as int),
{
    let mut r: Vec<char> = Vec::new();
    let mut i: usize = from;
    while i < to
        invariant
            from <= i <= to <= s.len(),
            r@ == s@.subrange(from as int, i as int),
        decreases to - i,
    {
        r.push(s[i]);
        i += 1;
        proof {
            assert(s@.subrange(from as int, i as int) =~= s@.subrange(from as int, i - 1).push(
                s@[i - 1],
            ));
        }
    }
    r
}

/// Appends a copy of `tail`.
pub fn append_chars(head: &mut Vec<char>, tail: &Vec<char>)
    ensures
        final(head)@ == old(head)@ + tail@,
{
    let ghost before = head@;
    let mut i: usize = 0;
    while i < tail.len()
        invariant
            i <= tail.len(),
            head@ == before + tail@.take(i as int),
        decreases tail.len() - i,
    {
        head.push(tail[i]);
        i += 1;
        proof {
            assert(tail@.take(i as int) =~= tail@.take(i - 1).push(tail@[i - 1]));
            assert(head@ =~= before + tail@.take(i as int));
        }
    }
    proof {
        assert(tail@.take(i as int) =~= tail@);
    }
}

/// Whether two texts are the same.
pub fn same_chars(a: &Vec<char>, b: &Vec<char>) -> (r: bool)
    ensures
        r == (a@ == b@),
{
    if a.len() != b.len() {
        return false;
    }
    let mut i: usize = 0;
    while i < a.len()
        invariant
            i <= a.len(),
            a.len() == b.len(),
            forall|j: int| 0 <= j < i ==> a@[j] == b@[j],
        decreases a.len() - i,
    {
        if a[i] != b[i] {
            return false;
        }
        i += 1;
    }
    proof {
        assert(a@ =~= b@);
    }
    true
}

/// Whether two strings hold the same text.
pub fn same_text(a: &str, b: &str) -> (r: bool)
    ensures
        r == (a@ == b@),
{
    let x: &[u8] = a.as_bytes();
    let y: &[u8] = b.as_bytes();
    proof {
        encode_utf8_decode_utf8(a@);
        encode_utf8_decode_utf8(b@);
    }
    if x.len() != y.len() {
        return false;
    }
    let mut i: usize = 0;
    while i < x.len()
        invariant
            i <= x.len(),
            x.len() == y.len(),
            x@ == encode_utf8(a@),
            y@ == encode_utf8(b@),
            forall|j: int| 0 <= j < i ==> x@[j] == y@[j],
        decreases x.len() - i,
    {
        if x[i] != y[i] {
            return false;
        }
        i += 1;
    }
    proof {
        assert(x@ =~= y@);
    }
    true
}

// Searching ------------------------------------------------------------------

/// The position of the first `c` in `s`, or the length of `s` where there is none.
pub open spec fn first_pos(s: Seq<char>, c: char) -> int
    decreases s.len(),
{
    if s.len() == 0 || s[0] == c {
        0
    } else {
        1 + first_pos(s.skip(1), c)
    }
}

/// What `first_pos` is: no earlier character is `c`, and the one there is.
pub proof fn lemma_first_pos(s: Seq<char>, c: char)
    ensures
        0 <= first_pos(s, c) <= s.len(),
        first_pos(s, c) < s.len() ==> s[first_pos(s, c)] == c,
        forall|j: int| 0 <= j < first_pos(s, c) ==> s[j] != c,
    decreases s.len(),
{
    if s.len() == 0 || s[0] == c {
    } else {
        let t = s.skip(1);
        lemma_first_pos(t, c);
        let k = first_pos(t, c);
        assert forall|j: int| 0 <= j < 1 + k implies s[j] != c by {
            if j > 0 {
                assert(t[j - 1] == s[j]);
            }
        }
        if k < t.len() {
            assert(t[k] == s[k + 1]);
        }
    }
}

/// `first_pos` is the only position with these properties.
pub proof fn lemma_first_pos_unique(s: Seq<char>, c: char, k: int)
    requires
        0 <= k <= s.len(),
        k < s.len() ==> s[k] == c,
        forall|j: int| 0 <= j < k ==> s[j] != c,
    ensures
        first_pos(s, c) == k,
{
    lemma_first_pos(s, c);
    let p = first_pos(s, c);
    if p < k {
        assert(s[p] != c);
    } else if k < p {
        assert(s[k] != c);
    }
}

/// The position of the first `c` at or after `from`, or the length where there is none.
pub fn find_char(s: &Vec<char>, from: usize, c: char) -> (r: usize)
    requires
        from <= s.len(),
    ensures
        from <= r <= s.len(),
        r == from + first_pos(s@.skip(from as int), c),
{
    let mut i: usize = from;
    while i < s.len() && s[i] != c
        invariant
            from <= i <= s.len(),
            forall|j: int| from <= j < i ==> s@[j] != c,
        decreases s.len() - i,
    {
        i += 1;
    }
    proof {
        let t = s@.skip(from as int);
        assert forall|j: int| 0 <= j < i - from implies t[j] != c by {
            assert(t[j] == s@[from + j]);
        }
        lemma_first_pos_unique(t, c, i - from);
    }
    i
}

/// Whether `s` begins with `prefix`.
pub open spec fn starts_with(s: Seq<char>, prefix: Seq<char>) -> bool {
    prefix.len() <= s.len() && s.take(prefix.len() as int) == prefix
}

/// Whether `s` ends with `suffix`.
pub open spec fn ends_with(s: Seq<char>, suffix: Seq<char>) -> bool {
    suffix.len() <= s.len() && s.skip(s.len() - suffix.len()) == suffix
}

/// Whether `needle` stands in `s` at position `i`.
pub open spec fn stands_at(s: Seq<char>, needle: Seq<char>, i: int) -> bool {
    0 <= i <= s.len() - needle.len() && s.subrange(i, i + needle.len()) == needle
}

/// Whether `needle` stands somewhere in `s`.
pub open spec fn contains(s: Seq<char>, needle: Seq<char>) -> bool {
    exists|i: int| stands_at(s, needle, i)
}

/// Whether `needle` stands in `s` at position `at`.
fn chars_stand_at(s: &Vec<char>, needle: &Vec<char>, at: usize) -> (r: bool)
    ensures
        r == stands_at(s@, needle@, at as int),
{
    if at > s.len() || needle.len() > s.len() - at {
        return false;
    }
    let mut j: usize = 0;
    while j < needle.len()
        invariant
            j <= needle.len(),
            at + needle.len() <= s.len(),
            forall|k: int| 0 <= k < j ==> s@[at + k] == needle@[k],
        decreases needle.len() - j,
    {
        if s[at + j] != needle[j] {
            proof {
                assert(s@.subrange(at as int, at + needle@.len())[j as int] != needle@[j as int]);
            }
            return false;
        }
        j += 1;
    }
    proof {
        assert(s@.subrange(at as int, at + needle@.len()) =~= needle@);
    }
    true
}

/// Whether the text begins with `prefix`.
pub fn has_prefix(s: &str, prefix: &str) -> (r: bool)
    ensures
        r == starts_with(s@, prefix@),
{
    let a: Vec<char> = to_chars(s);
    let b: Vec<char> = to_chars(prefix);
    proof {
        if b@.len() <= a@.len() {
            assert(a@.subrange(0, b@.len() as int) =~= a@.take(b@.len() as int));
        }
    }
    chars_stand_at(&a, &b, 0)
}

/// Whether the text ends with `suffix`.
pub fn has_suffix(s: &str, suffix: &str) -> (r: bool)
    ensures
        r == ends_with(s@, suffix@),
{
    let a: Vec<char> = to_chars(s);
    let b: Vec<char> = to_chars(suffix);
    if b.len() > a.len() {
        return false;
    }
    let at: usize = a.len() - b.len();
    proof {
        assert(a@.subrange(at as int, at + b@.len()) =~= a@.skip(at as int));
    }
    chars_stand_at(&a, &b, at)
}

/// Whether `needle` stands somewhere in the text.
pub fn has_text(s: &str, needle: &str) -> (r: bool)
    ensures
        r == contains(s@, needle@),
{
    let a: Vec<char> = to_chars(s);
    let b: Vec<char> = to_chars(needle);
    if b.len() > a.len() {
        return false;
    }
    let last: usize = a.len() - b.len();
    let mut i: usize = 0;
    while i <= last
        invariant
            i <= last + 1,
            last + b.len() == a.len(),
            a@ == s@,
            b@ == needle@,
            forall|k: int| 0 <= k < i ==> !stands_at(a@, b@, k),
        decreases last + 1 - i,
    {
        if chars_stand_at(&a, &b, i) {
            return true;
        }
        if i == last {
            return false;
        }
        i += 1;
    }
    false
}

// Splitting ------------------------------------------------------------------

/// The text before the first `c` and the text behind it, where there is a `c`.
pub open spec fn split_once(s: Seq<char>, c: char) -> Option<(Seq<char>, Seq<char>)> {
    let i = first_pos(s, c);
    if i < s.len() {
        Some((s.take(i), s.skip(i + 1)))
    } else {
        None
    }
}

/// The pieces of `s` between the occurrences of `c`; there is always at least one.
pub open spec fn split(s: Seq<char>, c: char) -> Seq<Seq<char>>
    decreases s.len(),
    via split_decreases
{
    let i = first_pos(s, c);
    if i < s.len() {
        seq![s.take(i)] + split(s.skip(i + 1), c)
    } else {
        seq![s]
    }
}

#[via_fn]
proof fn split_decreases(s: Seq<char>, c: char) {
    lemma_first_pos(s, c);
}

/// Splitting yields at least one piece.
pub proof fn lemma_split_nonempty(s: Seq<char>, c: char)
    ensures
        split(s, c).len() >= 1,
{
    lemma_first_pos(s, c);
}

/// The last piece is what stands behind the last separator.
pub proof fn lemma_split_last(a: Seq<char>, c: char, b: Seq<char>)
    requires
        forall|i: int| 0 <= i < b.len() ==> b[i] != c,
    ensures
        split(a + seq![c] + b, c).last() == b,
    decreases a.len(),
{
    let s = a + seq![c] + b;
    lemma_first_pos(s, c);
    let i = first_pos(s, c);
    assert(s[a.len() as int] == c);
    assert(i <= a.len());
    if i < a.len() {
        let rest = a.skip(i + 1);
        assert(s.skip(i + 1) =~= rest + seq![c] + b);
        lemma_split_last(rest, c, b);
        lemma_split_nonempty(s.skip(i + 1), c);
    } else {
        assert(s.skip(i + 1) =~= b);
        lemma_first_pos_unique(b, c, b.len() as int);
        assert(split(b, c) =~= seq![b]);
    }
}

/// A line without the carriage return that ends it, if one does.
pub open spec fn strip_return(s: Seq<char>) -> Seq<char> {
    if s.len() > 0 && s.last() == '\r' {
        s.drop_last()
    } else {
        s
    }
}

/// The lines of `s`: each ends in a line feed, which may follow a carriage
/// return; the line ending of the last one is optional.
pub open spec fn lines(s: Seq<char>) -> Seq<Seq<char>>
    decreases s.len(),
    via lines_decreases
{
    let i = first_pos(s, '\n');
    if s.len() == 0 {
        Seq::<Seq<char>>::empty()
    } else if i < s.len() {
        seq![strip_return(s.take(i))] + lines(s.skip(i + 1))
    } else {
        seq![s]
    }
}

#[via_fn]
proof fn lines_decreases(s: Seq<char>) {
    lemma_first_pos(s, '\n');
}

/// A text that was joined with a separator not occurring in its first part is
/// split into the two parts again.
pub proof fn lemma_split_once_joined(a: Seq<char>, c: char, b: Seq<char>)
    requires
        forall|i: int| 0 <= i < a.len() ==> a[i] != c,
    ensures
        split_once(a + seq![c] + b, c) == Some((a, b)),
{
    let s = a + seq![c] + b;
    lemma_first_pos_unique(s, c, a.len() as int);
    assert(s.take(a.len() as int) =~= a);
    assert(s.skip(a.len() as int + 1) =~= b);
}

/// `split_once` on a character vector.
pub fn split_once_chars(s: &Vec<char>, c: char) -> (r: Option<(Vec<char>, Vec<char>)>)
    ensures
        match r {
            Some(pair) => split_once(s@, c) == Some((pair.0@, pair.1@)),
            None => split_once(s@, c) is None,
        },
{
    let i: usize = find_char(s, 0, c);
    proof {
        assert(s@.skip(0) =~= s@);
        lemma_first_pos(s@, c);
    }
    if i < s.len() {
        let head: Vec<char> = slice_of(s, 0, i);
        let tail: Vec<char> = slice_of(s, i + 1, s.len());
        proof {
            assert(head@ =~= s@.take(i as int));
            assert(tail@ =~= s@.skip(i + 1));
        }
        Some((head, tail))
    } else {
        None
    }
}

/// The pieces of a character vector between the occurrences of `c`.
pub fn split_chars(s: &Vec<char>, c: char) -> (r: Vec<Vec<char>>)
    ensures
        texts(r@) == split(s@, c),
{
    let mut r: Vec<Vec<char>> = Vec::new();
    let mut start: usize = 0;
    proof {
        assert(s@.skip(0) =~= s@);
        assert(texts(r@) + split(s@.skip(0), c) =~= split(s@, c));
    }
    loop
        invariant
            start <= s.len(),
            texts(r@) + split(s@.skip(start as int), c) == split(s@, c),
        decreases s.len() - start,
    {
        let i: usize = find_char(s, start, c);
        let ghost before = r@;
        let ghost rest = s@.skip(start as int);
        if i < s.len() {
            let piece: Vec<char> = slice_of(s, start, i);
            proof {
                assert(piece@ =~= rest.take(i - start));
                assert(rest.skip(i - start + 1) =~= s@.skip(i + 1));
            }
            r.push(piece);
            start = i + 1;
            proof {
                assert(texts(r@) =~= texts(before).push(piece@));
                assert(texts(r@) + split(s@.skip(start as int), c) =~= texts(before) + (seq![
                    piece@,
                ] + split(s@.skip(start as int), c)));
            }
        } else {
            let piece: Vec<char> = slice_of(s, start, i);
            proof {
                assert(piece@ =~= rest);
            }
            r.push(piece);
            proof {
                assert(texts(r@) =~= texts(before) + seq![piece@]);
            }
            return r;
        }
    }
}

/// The lines of a character vector.
pub fn lines_chars(s: &Vec<char>) -> (r: Vec<Vec<char>>)
    ensures
        texts(r@) == lines(s@),
{
    let mut r: Vec<Vec<char>> = Vec::new();
    let mut start: usize = 0;
    proof {
        assert(s@.skip(0) =~= s@);
        assert(texts(r@) + lines(s@.skip(0)) =~= lines(s@));
    }
    while start < s.len()
        invariant
            start <= s.len(),
            texts(r@) + lines(s@.skip(start as int)) == lines(s@),
        decreases s.len() - start,
    {
        let i: usize = find_char(s, start, '\n');
        let ghost before = r@;
        let ghost rest = s@.skip(start as int);
        if i < s.len() {
            let end: usize = if i > start && s[i - 1] == '\r' {
                i - 1
            } else {
                i
            };
            let piece: Vec<char> = slice_of(s, start, end);
            proof {
                let line = rest.take(i - start);
                if i > start {
                    assert(line.last() == s@[i - 1]);
                }
                assert(piece@ =~= strip_return(line));
                assert(rest.skip(i - start + 1) =~= s@.skip(i + 1));
            }
            r.push(piece);
            start = i + 1;
            proof {
                assert(texts(r@) =~= texts(before).push(piece@));
                assert(texts(r@) + lines(s@.skip(start as int)) =~= texts(before) + (seq![piece@]
                    + lines(s@.skip(start as int))));
            }
        } else {
            let piece: Vec<char> = slice_of(s, start, i);
            proof {
                assert(piece@ =~= rest);
            }
            r.push(piece);
            start = i;
            proof {
                assert(s@.skip(start as int) =~= Seq::<char>::empty());
                assert(texts(r@) =~= texts(before) + seq![piece@]);
                assert(texts(r@) + lines(s@.skip(start as int)) =~= texts(r@));
            }
        }
    }
    proof {
        assert(s@.skip(start as int) =~= Seq::<char>::empty());
        assert(texts(r@) + lines(s@.skip(start as int)) =~= texts(r@));
    }
    r
}

// White space ----------------------------------------------------------------

/// Whether `c` has the Unicode property White_Space.
pub open spec fn is_white(c: char) -> bool {
    let n = c as u32;
    ||| 9 <= n <= 13
    ||| n == 0x20
    ||| n == 0x85
    ||| n == 0xa0
    ||| n == 0x1680
    ||| 0x2000 <= n <= 0x200a
    ||| n == 0x2028
    ||| n == 0x2029
    ||| n == 0x202f
    ||| n == 0x205f
    ||| n == 0x3000
}

/// Whether `c` has the Unicode property White_Space.
pub fn white(c: char) -> (r: bool)
    ensures
        r == is_white(c),
{
    let n: u32 = c as u32;
    (9 <= n && n <= 13) || n == 0x20 || n == 0x85 || n == 0xa0 || n == 0x1680 || (0x2000 <= n && n
        <= 0x200a) || n == 0x2028 || n == 0x2029 || n == 0x202f || n == 0x205f || n == 0x3000
}

/// `s` without the white space that it begins with.
pub open spec fn trim_start(s: Seq<char>) -> Seq<char>
    decreases s.len(),
{
    if s.len() > 0 && is_white(s[0]) {
        trim_start(s.skip(1))
    } else {
        s
    }
}

/// `s` without the white space that it ends with.
pub open spec fn trim_end(s: Seq<char>) -> Seq<char>
    decreases s.len(),
{
    if s.len() > 0 && is_white(s.last()) {
        trim_end(s.drop_last())
    } else {
        s
    }
}

/// `s` without the white space at its two ends.
pub open spec fn trim(s: Seq<char>) -> Seq<char> {
    trim_end(trim_start(s))
}

/// `trim` on a character vector.
pub fn trim_chars(s: &Vec<char>) -> (r: Vec<char>)
    ensures
        r@ == trim(s@),
{
    let mut start: usize = 0;
    proof {
        assert(s@.skip(0) =~= s@);
    }
    while start < s.len() && white(s[start])
        invariant
            start <= s.len(),
            trim_start(s@.skip(start as int)) == trim_start(s@),
        decreases s.len() - start,
    {
        proof {
            assert(s@.skip(start as int)[0] == s@[start as int]);
            assert(s@.skip(start as int).skip(1) =~= s@.skip(start + 1));
        }
        start += 1;
    }
    proof {
        if start < s.len() {
            assert(s@.skip(start as int)[0] == s@[start as int]);
        }
    }
    let mut end: usize = s.len();
    proof {
        assert(s@.subrange(start as int, end as int) =~= s@.skip(start as int));
    }
    while end > start && white(s[end - 1])
        invariant
            start <= end <= s.len(),
            trim_end(s@.subrange(start as int, end as int)) == trim(s@),
        decreases end - start,
    {
        proof {
            let cur = s@.subrange(start as int, end as int);
            assert(cur.last() == s@[end - 1]);
            assert(cur.drop_last() =~= s@.subrange(start as int, end - 1));
        }
        end -= 1;
    }
    proof {
        let cur = s@.subrange(start as int, end as int);
        if end > start {
            assert(cur.last() == s@[end - 1]);
        }
    }
    slice_of(s, start, end)
}

/// The text without the white space at its two ends.
pub fn trimmed(s: &str) -> (r: String)
    ensures
        r@ == trim(s@),
{
    to_text(&trim_chars(&to_chars(s)))
}

/// How many characters `s` begins with that are no white space.
pub open spec fn word_len(s: Seq<char>) -> int
    decreases s.len(),
{
    if s.len() > 0 && !is_white(s[0]) {
        1 + word_len(s.skip(1))
    } else {
        0
    }
}

/// How many white-space characters `s` begins with.
pub open spec fn white_len(s: Seq<char>) -> int
    decreases s.len(),
{
    if s.len() > 0 && is_white(s[0]) {
        1 + white_len(s.skip(1))
    } else {
        0
    }
}

/// Both prefix lengths stay within the text.
pub proof fn lemma_prefix_lens(s: Seq<char>)
    ensures
        0 <= word_len(s) <= s.len(),
        0 <= white_len(s) <= s.len(),
        s.len() > 0 ==> word_len(s) + white_len(s) > 0,
    decreases s.len(),
{
    if s.len() > 0 {
        lemma_prefix_lens(s.skip(1));
    }
}

/// The non-empty pieces of `s` between runs of white space.
pub open spec fn words(s: Seq<char>) -> Seq<Seq<char>>
    decreases s.len(),
    via words_decreases
{
    if s.len() == 0 {
        Seq::<Seq<char>>::empty()
    } else if is_white(s[0]) {
        words(s.skip(1))
    } else {
        seq![s.take(word_len(s))] + words(s.skip(word_len(s)))
    }
}

#[via_fn]
proof fn words_decreases(s: Seq<char>) {
    lemma_prefix_lens(s);
}

/// The non-empty pieces of a character vector between runs of white space.
pub fn words_chars(s: &Vec<char>) -> (r: Vec<Vec<char>>)
    ensures
        texts(r@) == words(s@),
{
    let mut r: Vec<Vec<char>> = Vec::new();
    let mut start: usize = 0;
    proof {
        assert(s@.skip(0) =~= s@);
        assert(texts(r@) + words(s@.skip(0)) =~= words(s@));
    }
    while start < s.len()
        invariant
            start <= s.len(),
            texts(r@) + words(s@.skip(start as int)) == words(s@),
        decreases s.len() - start,
    {
        let ghost rest = s@.skip(start as int);
        proof {
            assert(rest[0] == s@[start as int]);
            assert(rest.skip(1) =~= s@.skip(start + 1));
        }
        if white(s[start]) {
            start += 1;
        } else {
            let ghost before = r@;
            let mut end: usize = start;
            proof {
                assert(s@.skip(end as int) =~= rest);
            }
            while end < s.len() && !white(s[end])
                invariant
                    start <= end <= s.len(),
                    word_len(s@.skip(start as int)) == (end - start) + word_len(s@.skip(end as int)),
                decreases s.len() - end,
            {
                proof {
                    assert(s@.skip(end as int)[0] == s@[end as int]);
                    assert(s@.skip(end as int).skip(1) =~= s@.skip(end + 1));
                }
                end += 1;
            }
            proof {
                if end < s.len() {
                    assert(s@.skip(end as int)[0] == s@[end as int]);
                }
                assert(word_len(rest) == end - start);
                lemma_prefix_lens(rest);
            }
            let piece: Vec<char> = slice_of(s, start, end);
            proof {
                assert(piece@ =~= rest.take(end - start));
                assert(rest.skip(end - start) =~= s@.skip(end as int));
            }
            r.push(piece);
            start = end;
            proof {
                assert(texts(r@) =~= texts(before).push(piece@));
                assert(texts(r@) + words(s@.skip(start as int)) =~= texts(before) + (seq![piece@]
                    + words(s@.skip(start as int))));
            }
        }
    }
    proof {
        assert(s@.skip(start as int) =~= Seq::<char>::empty());
        assert(texts(r@) + words(s@.skip(start as int)) =~= texts(r@));
    }
    r
}

// Laws -----------------------------------------------------------------------

/// A text stands in another one exactly where the latter is made of it and of something
/// before and behind it; at the beginning with nothing before it, at the end with nothing
/// behind it.
pub proof fn text_is_found_where_it_stands(a: Seq<char>, needle: Seq<char>, b: Seq<char>)
    ensures
        contains(a + needle + b, needle),
        starts_with(needle + b, needle),
        ends_with(a + needle, needle),
{
    assert((a + needle + b).subrange(a.len() as int, a.len() as int + needle.len()) =~= needle);
    assert(stands_at(a + needle + b, needle, a.len() as int));
    assert((needle + b).take(needle.len() as int) =~= needle);
    assert((a + needle).skip((a + needle).len() - needle.len()) =~= needle);
}

/// What is said to stand in a text does so.
pub proof fn found_text_stands_there(s: Seq<char>, needle: Seq<char>)
    ensures
        contains(s, needle) ==> exists|a: Seq<char>, b: Seq<char>| s == #[trigger] (a + needle + b),
        starts_with(s, needle) ==> exists|b: Seq<char>| s == #[trigger] (needle + b),
        ends_with(s, needle) ==> exists|a: Seq<char>| s == #[trigger] (a + needle),
{
    if contains(s, needle) {
        let i = choose|i: int| stands_at(s, needle, i);
        let a = s.take(i);
        let b = s.skip(i + needle.len());
        assert forall|k: int| 0 <= k < needle.len() implies s[i + k] == needle[k] by {
            assert(s.subrange(i, i + needle.len())[k] == needle[k]);
        }
        assert(s =~= a + needle + b);
    }
    if starts_with(s, needle) {
        let b = s.skip(needle.len() as int);
        assert forall|k: int| 0 <= k < needle.len() implies s[k] == needle[k] by {
            assert(s.take(needle.len() as int)[k] == needle[k]);
        }
        assert(s =~= needle + b);
    }
    if ends_with(s, needle) {
        let n = s.len() - needle.len();
        let a = s.take(n);
        assert forall|k: int| 0 <= k < needle.len() implies s[n + k] == needle[k] by {
            assert(s.skip(n)[k] == needle[k]);
        }
        assert(s =~= a + needle);
    }
}

/// A text is split at every separator, and nowhere else.
pub proof fn split_at_every_separator(a: Seq<char>, c: char, b: Seq<char>)
    requires
        forall|i: int| 0 <= i < a.len() ==> a[i] != c,
    ensures
        split(a, c) == seq![a],
        split_once(a, c) is None,
        split(a + seq![c] + b, c) == seq![a] + split(b, c),
        split_once(a + seq![c] + b, c) == Some((a, b)),
{
    lemma_first_pos_unique(a, c, a.len() as int);
    lemma_split_once_joined(a, c, b);
    let s = a + seq![c] + b;
    lemma_first_pos_unique(s, c, a.len() as int);
    assert(s.take(a.len() as int) =~= a);
    assert(s.skip(a.len() as int + 1) =~= b);
}

/// A line ends at a line feed, and the carriage return before that does not belong to it.
pub proof fn lines_end_at_line_feeds(a: Seq<char>, b: Seq<char>)
    requires
        forall|i: int| 0 <= i < a.len() ==> a[i] != '\n',
    ensures
        a.len() > 0 ==> lines(a) == seq![a],
        lines(Seq::<char>::empty()) == Seq::<Seq<char>>::empty(),
        (a.len() == 0 || a.last() != '\r') ==> lines(a + seq!['\n'] + b) == seq![a] + lines(b),
        lines(a + seq!['\r'] + seq!['\n'] + b) == seq![a] + lines(b),
{
    lemma_first_pos_unique(a, '\n', a.len() as int);
    let s = a + seq!['\n'] + b;
    lemma_first_pos_unique(s, '\n', a.len() as int);
    assert(s.take(a.len() as int) =~= a);
    assert(s.skip(a.len() as int + 1) =~= b);
    let r = a + seq!['\r'];
    let t = r + seq!['\n'] + b;
    assert forall|i: int| 0 <= i < r.len() implies r[i] != '\n' by {
        if i < a.len() {
            assert(r[i] == a[i]);
        }
    }
    lemma_first_pos_unique(t, '\n', r.len() as int);
    assert(t.take(r.len() as int) =~= r);
    assert(t.skip(r.len() as int + 1) =~= b);
    assert(r.drop_last() =~= a);
}

proof fn lemma_trim_start(before: Seq<char>, s: Seq<char>)
    requires
        forall|i: int| 0 <= i < before.len() ==> is_white(before[i]),
        s.len() > 0 ==> !is_white(s[0]),
    ensures
        trim_start(before + s) == s,
    decreases before.len(),
{
    let all = before + s;
    if before.len() > 0 {
        assert(all[0] == before[0]);
        assert(all.skip(1) =~= before.skip(1) + s);
        lemma_trim_start(before.skip(1), s);
    } else {
        assert(all =~= s);
    }
}

proof fn lemma_trim_end(s: Seq<char>, after: Seq<char>)
    requires
        forall|i: int| 0 <= i < after.len() ==> is_white(after[i]),
        s.len() > 0 ==> !is_white(s.last()),
    ensures
        trim_end(s + after) == s,
    decreases after.len(),
{
    let all = s + after;
    if after.len() > 0 {
        assert(all.last() == after.last());
        assert(all.drop_last() =~= s + after.drop_last());
        lemma_trim_end(s, after.drop_last());
    } else {
        assert(all =~= s);
    }
}

/// Trimming takes away the white space around a text and nothing else.
pub proof fn trim_takes_white_space_away(before: Seq<char>, s: Seq<char>, after: Seq<char>)
    requires
        forall|i: int| 0 <= i < before.len() ==> is_white(before[i]),
        forall|i: int| 0 <= i < after.len() ==> is_white(after[i]),
        s.len() > 0 ==> !is_white(s[0]) && !is_white(s.last()),
    ensures
        trim(before + s + after) == s,
        is_white(' ') && is_white('\t') && is_white('\n') && is_white('\r'),
        forall|c: char| '!' <= c <= '~' ==> !is_white(c),
{
    if s.len() > 0 {
        assert((s + after)[0] == s[0]);
        assert(before + s + after =~= before + (s + after));
        lemma_trim_start(before, s + after);
        lemma_trim_end(s, after);
    } else {
        let all = before + s + after;
        assert forall|i: int| 0 <= i < all.len() implies is_white(all[i]) by {
            if i >= before.len() {
                assert(all[i] == after[i - before.len()]);
            }
        }
        assert(all + Seq::<char>::empty() =~= all);
        lemma_trim_start(all, Seq::<char>::empty());
        assert(s =~= Seq::<char>::empty());
        assert(trim_end(Seq::<char>::empty()) =~= Seq::<char>::empty());
    }
}

proof fn lemma_word_len(a: Seq<char>, rest: Seq<char>)
    requires
        forall|i: int| 0 <= i < a.len() ==> !is_white(a[i]),
        rest.len() > 0 ==> is_white(rest[0]),
    ensures
        word_len(a + rest) == a.len(),
    decreases a.len(),
{
    let all = a + rest;
    if a.len() > 0 {
        assert(all[0] == a[0]);
        assert(all.skip(1) =~= a.skip(1) + rest);
        lemma_word_len(a.skip(1), rest);
    } else {
        assert(all =~= rest);
    }
}

/// Words are what stands between white space, however much of that there is.
pub proof fn words_stand_between_white_space(a: Seq<char>, w: char, b: Seq<char>)
    requires
        forall|i: int| 0 <= i < a.len() ==> !is_white(a[i]),
        is_white(w),
    ensures
        words(a) == if a.len() > 0 {
            seq![a]
        } else {
            Seq::<Seq<char>>::empty()
        },
        words(a + seq![w] + b) == words(a) + words(b),
{
    let rest = seq![w] + b;
    let s = a + seq![w] + b;
    assert(s =~= a + rest);
    assert(a + Seq::<char>::empty() =~= a);
    lemma_word_len(a, Seq::<char>::empty());
    lemma_word_len(a, rest);
    assert(rest.skip(1) =~= b);
    assert(rest[0] == w);
    assert(words(rest) == words(b));
    if a.len() > 0 {
        assert(s[0] == a[0]);
        assert(s.take(a.len() as int) =~= a);
        assert(s.skip(a.len() as int) =~= rest);
        assert(a.take(a.len() as int) =~= a);
        assert(a.skip(a.len() as int) =~= Seq::<char>::empty());
        assert(words(Seq::<char>::empty()) =~= Seq::<Seq<char>>::empty());
        assert(words(a) =~= seq![a]);
    } else {
        assert(s =~= rest);
        assert(words(a) + words(b) =~= words(b));
    }
}

/// What a string that may be missing holds.
pub proof fn optional_text(s: String)
    ensures
        opt_text(Some(s)) == Some(s@),
        opt_text(None) is None,
{
}

} // verus!
