//! Text as sequences of characters: trimming, ASCII case, searching, splitting
//! and joining.

use vstd::prelude::*;
use vstd::slice::slice_subrange;

verus! {

/// `String::push` appends the given character to the end of the string.
pub assume_specification[ String::push ](s: &mut String, ch: char)
    ensures
        final(s)@ == old(s)@.push(ch),
;

/// The characters of `s`.
pub fn to_chars(s: &str) -> (chars: Vec<char>)
    ensures
        chars@ == s@,
{
    let mut chars: Vec<char> = Vec::new();
    for c in it: s.chars()
        invariant
            it.seq() == s@,
            chars@ == s@.take(it.index() as int),
    {
        chars.push(c);
    }
    assert(s@.take(s@.len() as int) == s@);
    chars
}

/// The string made of `chars`.
pub fn to_text(chars: &[char]) -> (s: String)
    ensures
        s@ == chars@,
{
    let mut s = String::new();
    let mut i: usize = 0;
    while i < chars.len()
        invariant
            i <= chars@.len(),
            s@ == chars@.take(i as int),
        decreases chars@.len() - i,
    {
        s.push(chars[i]);
        i += 1;
        assert(chars@.take(i as int) == chars@.take(i - 1).push(chars@[i - 1]));
    }
    assert(chars@.take(chars@.len() as int) == chars@);
    s
}

/// Whether two strings hold the same characters.
pub fn same(a: &str, b: &str) -> (equal: bool)
    ensures
        equal == (a@ == b@),
{
    let mut left = a.chars();
    let mut right = b.chars();
    let ghost mut n: int = 0;
    assert(a@.skip(0) == a@);
    assert(b@.skip(0) == b@);
    loop
        invariant
            0 <= n <= a@.len(),
            n <= b@.len(),
            vstd::std_specs::iter::IteratorSpec::remaining(&left) == a@.skip(n),
            vstd::std_specs::iter::IteratorSpec::remaining(&right) == b@.skip(n),
            a@.take(n) == b@.take(n),
        decreases a@.len() - n,
    {
        match (left.next(), right.next()) {
            (Some(x), Some(y)) => {
                if x != y {
                    assert(a@[n] != b@[n]);
                    return false;
                }
                proof {
                    assert(a@.take(n + 1) == a@.take(n).push(a@[n]));
                    assert(b@.take(n + 1) == b@.take(n).push(b@[n]));
                    n = n + 1;
                }
            },
            (None, None) => {
                assert(a@.take(n) == a@);
                assert(b@.take(n) == b@);
                return true;
            },
            _ => {
                return false;
            },
        }
    }
}

/// The characters with the Unicode `White_Space` property.
pub open spec fn is_white_space(c: char) -> bool {
    let n = c as u32;
    ||| 0x09 <= n <= 0x0d
    ||| n == 0x20
    ||| n == 0x85
    ||| n == 0xa0
    ||| n == 0x1680
    ||| 0x2000 <= n <= 0x200a
    ||| n == 0x2028
    ||| n == 0x2029
    ||| n == 0x202f
    ||| n == 0x205f
    ||| n == 0x3000
}

/// Whether `c` is white space.
pub fn white_space(c: char) -> (yes: bool)
    ensures
        yes == is_white_space(c),
{
    let n: u32 = c as u32;
    (0x09 <= n && n <= 0x0d) || n == 0x20 || n == 0x85 || n == 0xa0 || n == 0x1680 || (0x2000 <= n
        && n <= 0x200a) || n == 0x2028 || n == 0x2029 || n == 0x202f || n == 0x205f || n == 0x3000
}

/// `s` without its leading white space.
pub open spec fn trim_start(s: Seq<char>) -> Seq<char>
    decreases s.len(),
{
    if s.len() > 0 && is_white_space(s[0]) {
        trim_start(s.skip(1))
    } else {
        s
    }
}

/// `s` without its trailing white space.
pub open spec fn trim_end(s: Seq<char>) -> Seq<char>
    decreases s.len(),
{
    if s.len() > 0 && is_white_space(s.last()) {
        trim_end(s.drop_last())
    } else {
        s
    }
}

/// `s` without its leading and trailing white space.
pub open spec fn trimmed(s: Seq<char>) -> Seq<char> {
    trim_end(trim_start(s))
}

proof fn lemma_trim_start_at(s: Seq<char>, n: int)
    requires
        0 <= n <= s.len(),
        forall|i: int| 0 <= i < n ==> is_white_space(#[trigger] s[i]),
        n < s.len() ==> !is_white_space(s[n]),
    ensures
        trim_start(s) == s.skip(n),
    decreases n,
{
    if n > 0 {
        let rest = s.skip(1);
        assert forall|i: int| 0 <= i < n - 1 implies is_white_space(#[trigger] rest[i]) by {
            assert(rest[i] == s[i + 1]);
        }
        lemma_trim_start_at(rest, n - 1);
        assert(rest.skip(n - 1) == s.skip(n));
    } else {
        assert(s.skip(0) == s);
    }
}

proof fn lemma_trim_end_at(s: Seq<char>, n: int)
    requires
        0 <= n <= s.len(),
        forall|i: int| n <= i < s.len() ==> is_white_space(#[trigger] s[i]),
        n > 0 ==> !is_white_space(s[n - 1]),
    ensures
        trim_end(s) == s.take(n),
    decreases s.len() - n,
{
    if n < s.len() {
        lemma_trim_end_at(s.drop_last(), n);
        assert(s.drop_last().take(n) == s.take(n));
    } else {
        assert(s.take(n) == s);
    }
}

/// Strip leading and trailing white space.
pub fn trim<'a>(s: &'a [char]) -> (inner: &'a [char])
    ensures
        inner@ == trimmed(s@),
{
    let mut start: usize = 0;
    while start < s.len() && white_space(s[start])
        invariant
            start <= s@.len(),
            forall|i: int| 0 <= i < start ==> is_white_space(#[trigger] s@[i]),
        decreases s@.len() - start,
    {
        start += 1;
    }
    proof {
        lemma_trim_start_at(s@, start as int);
    }
    let ghost rest = trim_start(s@);
    let mut end: usize = s.len();
    while end > start && white_space(s[end - 1])
        invariant
            start <= end <= s@.len(),
            forall|i: int| end <= i < s@.len() ==> is_white_space(#[trigger] s@[i]),
        decreases end,
    {
        end -= 1;
    }
    let inner = slice_subrange(s, start, end);
    proof {
        let n = end - start;
        assert forall|i: int| n <= i < rest.len() implies is_white_space(#[trigger] rest[i]) by {
            assert(rest[i] == s@[i + start]);
        }
        lemma_trim_end_at(rest, n);
        assert(rest.take(n) == inner@);
    }
    inner
}

/// Trimming leaves no white space at either end.
pub proof fn trimmed_has_no_outer_white_space(s: Seq<char>)
    ensures
        trimmed(s).len() > 0 ==> !is_white_space(trimmed(s)[0]) && !is_white_space(
            trimmed(s).last(),
        ),
        trimmed(s).len() <= s.len(),
{
    lemma_trim_start_shape(s);
    lemma_trim_end_shape(trim_start(s));
}

proof fn lemma_trim_start_shape(s: Seq<char>)
    ensures
        trim_start(s).len() <= s.len(),
        trim_start(s).len() > 0 ==> !is_white_space(trim_start(s)[0]),
    decreases s.len(),
{
    if s.len() > 0 && is_white_space(s[0]) {
        lemma_trim_start_shape(s.skip(1));
    }
}

proof fn lemma_trim_end_shape(s: Seq<char>)
    ensures
        trim_end(s).len() <= s.len(),
        trim_end(s).len() > 0 ==> !is_white_space(trim_end(s).last()) && trim_end(s)[0] == s[0],
    decreases s.len(),
{
    if s.len() > 0 && is_white_space(s.last()) {
        lemma_trim_end_shape(s.drop_last());
    }
}

/// Trimming twice is trimming once.
pub proof fn trimmed_twice(s: Seq<char>)
    ensures
        trimmed(trimmed(s)) == trimmed(s),
{
    trimmed_has_no_outer_white_space(s);
}

/// A text without outer white space stays as it is.
pub proof fn nothing_to_trim(s: Seq<char>)
    requires
        s.len() > 0 ==> !is_white_space(s[0]) && !is_white_space(s.last()),
    ensures
        trimmed(s) == s,
{
}

/// Trimming gives a part of the text.
pub proof fn trimmed_is_a_part(s: Seq<char>)
    ensures
        exists|a: int, b: int|
            0 <= a <= b <= s.len() && trimmed(s) == #[trigger] s.subrange(a, b),
{
    lemma_trim_start_skips(s);
    let a = s.len() - trim_start(s).len();
    lemma_trim_end_takes(trim_start(s));
    let b = a + trimmed(s).len();
    assert(trimmed(s) =~= s.subrange(a, b));
}

proof fn lemma_trim_start_skips(s: Seq<char>)
    ensures
        trim_start(s).len() <= s.len(),
        trim_start(s) == s.skip(s.len() - trim_start(s).len()),
    decreases s.len(),
{
    if s.len() > 0 && is_white_space(s[0]) {
        lemma_trim_start_skips(s.skip(1));
    }
    assert(trim_start(s) =~= s.skip(s.len() - trim_start(s).len()));
}

proof fn lemma_trim_end_takes(s: Seq<char>)
    ensures
        trim_end(s).len() <= s.len(),
        trim_end(s) == s.take(trim_end(s).len() as int),
    decreases s.len(),
{
    if s.len() > 0 && is_white_space(s.last()) {
        lemma_trim_end_takes(s.drop_last());
    }
    assert(trim_end(s) =~= s.take(trim_end(s).len() as int));
}

/// `c` in lower case, when it is an ASCII letter.
pub open spec fn lower_char(c: char) -> char {
    if 'A' <= c && c <= 'Z' {
        ((c as u8) + 32) as u8 as char
    } else {
        c
    }
}

/// `c` in upper case, when it is an ASCII letter.
pub open spec fn upper_char(c: char) -> char {
    if 'a' <= c && c <= 'z' {
        ((c as u8) - 32) as u8 as char
    } else {
        c
    }
}

/// `s` with its ASCII letters in lower case.
pub open spec fn lower(s: Seq<char>) -> Seq<char> {
    s.map_values(|c: char| lower_char(c))
}

/// `s` with its ASCII letters in upper case.
pub open spec fn upper(s: Seq<char>) -> Seq<char> {
    s.map_values(|c: char| upper_char(c))
}

/// Whether `a` and `b` are equal up to the case of ASCII letters.
pub open spec fn same_ignoring_case(a: Seq<char>, b: Seq<char>) -> bool {
    lower(a) == lower(b)
}

/// `c` in lower case, when it is an ASCII letter.
pub fn to_lower(c: char) -> (l: char)
    ensures
        l == lower_char(c),
{
    if 'A' <= c && c <= 'Z' {
        ((c as u8) + 32) as char
    } else {
        c
    }
}

/// `c` in upper case, when it is an ASCII letter.
pub fn to_upper(c: char) -> (u: char)
    ensures
        u == upper_char(c),
{
    if 'a' <= c && c <= 'z' {
        ((c as u8) - 32) as char
    } else {
        c
    }
}

/// The characters of `s` with ASCII letters in lower case.
pub fn lowered(s: &[char]) -> (l: Vec<char>)
    ensures
        l@ == lower(s@),
{
    let mut l: Vec<char> = Vec::new();
    let mut i: usize = 0;
    while i < s.len()
        invariant
            i <= s@.len(),
            l@ == lower(s@).take(i as int),
        decreases s@.len() - i,
    {
        l.push(to_lower(s[i]));
        i += 1;
        assert(lower(s@).take(i as int) == lower(s@).take(i - 1).push(lower(s@)[i - 1]));
    }
    assert(lower(s@).take(s@.len() as int) == lower(s@));
    l
}

/// The characters of `s` with ASCII letters in upper case.
pub fn uppered(s: &[char]) -> (u: Vec<char>)
    ensures
        u@ == upper(s@),
{
    let mut u: Vec<char> = Vec::new();
    let mut i: usize = 0;
    while i < s.len()
        invariant
            i <= s@.len(),
            u@ == upper(s@).take(i as int),
        decreases s@.len() - i,
    {
        u.push(to_upper(s[i]));
        i += 1;
        assert(upper(s@).take(i as int) == upper(s@).take(i - 1).push(upper(s@)[i - 1]));
    }
    assert(upper(s@).take(s@.len() as int) == upper(s@));
    u
}

/// Whether two character slices are equal.
pub fn equal(a: &[char], b: &[char]) -> (yes: bool)
    ensures
        yes == (a@ == b@),
{
    if a.len() != b.len() {
        return false;
    }
    let mut i: usize = 0;
    while i < a.len()
        invariant
            i <= a@.len(),
            a@.len() == b@.len(),
            forall|j: int| 0 <= j < i ==> a@[j] == b@[j],
        decreases a@.len() - i,
    {
        if a[i] != b[i] {
            return false;
        }
        i += 1;
    }
    assert(a@ =~= b@);
    true
}

/// Whether two character slices are equal up to the case of ASCII letters.
pub fn equal_ignoring_case(a: &[char], b: &[char]) -> (yes: bool)
    ensures
        yes == same_ignoring_case(a@, b@),
{
    if a.len() != b.len() {
        assert(lower(a@).len() != lower(b@).len());
        return false;
    }
    let mut i: usize = 0;
    while i < a.len()
        invariant
            i <= a@.len(),
            a@.len() == b@.len(),
            forall|j: int| 0 <= j < i ==> lower_char(a@[j]) == lower_char(b@[j]),
        decreases a@.len() - i,
    {
        if to_lower(a[i]) != to_lower(b[i]) {
            assert(lower(a@)[i as int] != lower(b@)[i as int]);
            return false;
        }
        i += 1;
    }
    assert(lower(a@) =~= lower(b@));
    true
}

/// Equality up to ASCII case is an equivalence, and equal texts have it.
pub proof fn same_ignoring_case_is_an_equivalence(a: Seq<char>, b: Seq<char>, c: Seq<char>)
    ensures
        same_ignoring_case(a, a),
        same_ignoring_case(a, b) == same_ignoring_case(b, a),
        same_ignoring_case(a, b) && same_ignoring_case(b, c) ==> same_ignoring_case(a, c),
{
}

/// Whether `pattern` stands in `s` at index `i`.
pub open spec fn occurs_at(s: Seq<char>, pattern: Seq<char>, i: int) -> bool {
    0 <= i && i + pattern.len() <= s.len() && s.subrange(i, i + pattern.len()) == pattern
}

/// Whether `pattern` stands anywhere in `s`.
pub open spec fn occurs(s: Seq<char>, pattern: Seq<char>) -> bool {
    exists|i: int| occurs_at(s, pattern, i)
}

/// The first index from `start` on at which `pattern` stands in `s`.
pub open spec fn find_from(s: Seq<char>, pattern: Seq<char>, start: int) -> Option<int>
    decreases s.len() + 1 - start,
{
    if start + pattern.len() > s.len() {
        None
    } else if occurs_at(s, pattern, start) {
        Some(start)
    } else {
        find_from(s, pattern, start + 1)
    }
}

/// The first index at which `pattern` stands in `s`.
pub open spec fn find(s: Seq<char>, pattern: Seq<char>) -> Option<int> {
    find_from(s, pattern, 0)
}

pub proof fn lemma_find_from(s: Seq<char>, pattern: Seq<char>, start: int)
    requires
        0 <= start,
    ensures
        match find_from(s, pattern, start) {
            Some(k) => {
                &&& start <= k
                &&& occurs_at(s, pattern, k)
                &&& forall|j: int| start <= j < k ==> !occurs_at(s, pattern, j)
            },
            None => forall|j: int| start <= j ==> !occurs_at(s, pattern, j),
        },
    decreases s.len() + 1 - start,
{
    if start + pattern.len() <= s.len() && !occurs_at(s, pattern, start) {
        lemma_find_from(s, pattern, start + 1);
    }
}

/// `find` gives the least index at which the pattern stands, and fails only
/// where the pattern stands nowhere.
pub proof fn find_is_the_first_occurrence(s: Seq<char>, pattern: Seq<char>)
    ensures
        match find(s, pattern) {
            Some(k) => {
                &&& occurs_at(s, pattern, k)
                &&& forall|j: int| 0 <= j < k ==> !occurs_at(s, pattern, j)
            },
            None => !occurs(s, pattern),
        },
{
    lemma_find_from(s, pattern, 0);
}

/// Whether `pattern` stands in `s` at index `i`.
pub fn stands_at(s: &[char], pattern: &[char], i: usize) -> (yes: bool)
    ensures
        yes == occurs_at(s@, pattern@, i as int),
{
    if i > s.len() || s.len() - i < pattern.len() {
        return false;
    }
    equal(slice_subrange(s, i, i + pattern.len()), pattern)
}

/// The first index from `start` on at which `pattern` stands in `s`.
pub fn position_from(s: &[char], pattern: &[char], start: usize) -> (found: Option<usize>)
    requires
        start <= s@.len(),
    ensures
        match found {
            Some(k) => find_from(s@, pattern@, start as int) == Some(k as int),
            None => find_from(s@, pattern@, start as int) is None,
        },
{
    let mut i: usize = start;
    while i < s.len() && pattern.len() <= s.len() - i
        invariant
            start <= i <= s@.len(),
            find_from(s@, pattern@, start as int) == find_from(s@, pattern@, i as int),
        decreases s@.len() - i,
    {
        if stands_at(s, pattern, i) {
            return Some(i);
        }
        i += 1;
    }
    if pattern.len() == 0 {
        assert(s@.subrange(i as int, i as int) =~= pattern@);
        return Some(i);
    }
    None
}

/// Whether `pattern` stands anywhere in `s`.
pub fn contains(s: &[char], pattern: &[char]) -> (yes: bool)
    ensures
        yes == occurs(s@, pattern@),
{
    proof {
        find_is_the_first_occurrence(s@, pattern@);
    }
    match position_from(s, pattern, 0) {
        Some(_) => true,
        None => false,
    }
}

/// The pieces of `s` from `start` on, cut at each occurrence of `separator`
/// that does not overlap the one before it.
pub open spec fn split_from(s: Seq<char>, separator: Seq<char>, start: int) -> Seq<Seq<char>>
    decreases s.len() - start,
{
    match find_from(s, separator, start) {
        Some(k) => if start <= k && k + separator.len() <= s.len() && separator.len() > 0 {
            seq![s.subrange(start, k)] + split_from(s, separator, k + separator.len())
        } else {
            seq![]
        },
        None => seq![s.skip(start)],
    }
}

/// The pieces of `s` between the occurrences of `separator`.
pub open spec fn split(s: Seq<char>, separator: Seq<char>) -> Seq<Seq<char>> {
    split_from(s, separator, 0)
}

/// The views of a sequence of slices.
pub open spec fn pieces(slices: Seq<&[char]>) -> Seq<Seq<char>> {
    slices.map_values(|p: &[char]| p@)
}

/// Cut `s` at each occurrence of `separator`.
pub fn split_at_each<'a>(s: &'a [char], separator: &[char]) -> (parts: Vec<&'a [char]>)
    requires
        separator@.len() > 0,
    ensures
        pieces(parts@) == split(s@, separator@),
{
    let mut parts: Vec<&'a [char]> = Vec::new();
    let mut start: usize = 0;
    assert(pieces(parts@) + split(s@, separator@) =~= split(s@, separator@));
    loop
        invariant
            start <= s@.len(),
            separator@.len() > 0,
            pieces(parts@) + split_from(s@, separator@, start as int) == split(s@, separator@),
        decreases s@.len() - start,
    {
        proof {
            lemma_find_from(s@, separator@, start as int);
        }
        let ghost before = parts@;
        match position_from(s, separator, start) {
            Some(k) => {
                let piece = slice_subrange(s, start, k);
                parts.push(piece);
                assert(pieces(parts@) =~= pieces(before).push(piece@));
                assert(pieces(before) + split_from(s@, separator@, start as int) =~= pieces(parts@)
                    + split_from(s@, separator@, k + separator@.len()));
                assert(s.len() == s@.len());
                start = k + separator.len();
            },
            None => {
                let piece = slice_subrange(s, start, s.len());
                parts.push(piece);
                assert(piece@ =~= s@.skip(start as int));
                assert(pieces(parts@) =~= pieces(before).push(piece@));
                assert(pieces(before) + split_from(s@, separator@, start as int) =~= pieces(parts@));
                return parts;
            },
        }
    }
}

/// Wherever a separator stands that no other overlaps from the left, a split
/// starts a part behind it.
pub proof fn a_split_starts_behind_each_separator(
    s: Seq<char>,
    separator: Seq<char>,
    start: int,
    n: int,
)
    requires
        0 <= start <= n,
        separator.len() > 0,
        occurs_at(s, separator, n),
        forall|j: int| n - separator.len() < j < n ==> !#[trigger] occurs_at(s, separator, j),
    ensures
        exists|i: int|
            1 <= i < split_from(s, separator, start).len() && #[trigger] split_from(
                s,
                separator,
                start,
            )[i] == split_from(s, separator, n + separator.len())[0],
    decreases n - start,
{
    lemma_find_from(s, separator, start);
    let k = find_from(s, separator, start)->0;
    let all = split_from(s, separator, start);
    let rest = split_from(s, separator, k + separator.len());
    lemma_find_from(s, separator, k + separator.len());
    assert(all == seq![s.subrange(start, k)] + rest);
    if k == n {
        assert(all[1] == rest[0]);
    } else {
        assert(k + separator.len() <= n);
        a_split_starts_behind_each_separator(s, separator, k + separator.len(), n);
        let i = choose|i: int|
            1 <= i < rest.len() && #[trigger] rest[i] == split_from(
                s,
                separator,
                n + separator.len(),
            )[0];
        assert(all[i + 1] == rest[i]);
    }
}

/// Every part of a split is a part of the text.
pub proof fn split_parts_are_parts(s: Seq<char>, separator: Seq<char>, i: int)
    requires
        0 <= i < split(s, separator).len(),
    ensures
        exists|a: int, b: int|
            0 <= a <= b <= s.len() && split(s, separator)[i] == #[trigger] s.subrange(a, b),
{
    lemma_split_from_parts(s, separator, 0, i);
}

proof fn lemma_split_from_parts(s: Seq<char>, separator: Seq<char>, start: int, i: int)
    requires
        0 <= start <= s.len(),
        0 <= i < split_from(s, separator, start).len(),
    ensures
        exists|a: int, b: int|
            0 <= a <= b <= s.len() && split_from(s, separator, start)[i] == #[trigger] s.subrange(
                a,
                b,
            ),
    decreases s.len() - start,
{
    lemma_find_from(s, separator, start);
    match find_from(s, separator, start) {
        Some(k) => {
            if i == 0 {
                assert(split_from(s, separator, start)[0] == s.subrange(start, k));
            } else {
                lemma_split_from_parts(s, separator, k + separator.len(), i - 1);
            }
        },
        None => {
            assert(s.skip(start) =~= s.subrange(start, s.len() as int));
        },
    }
}

/// A split always has a first part.
pub proof fn a_split_has_a_part(s: Seq<char>, separator: Seq<char>)
    requires
        separator.len() > 0,
    ensures
        split(s, separator).len() > 0,
{
    lemma_find_from(s, separator, 0);
}

/// The parts in order, with `separator` between neighbours.
pub open spec fn join(parts: Seq<Seq<char>>, separator: Seq<char>) -> Seq<char>
    decreases parts.len(),
{
    if parts.len() == 0 {
        seq![]
    } else if parts.len() == 1 {
        parts[0]
    } else {
        parts[0] + separator + join(parts.skip(1), separator)
    }
}

proof fn lemma_split_from_join(s: Seq<char>, separator: Seq<char>, start: int)
    requires
        0 <= start <= s.len(),
        separator.len() > 0,
    ensures
        split_from(s, separator, start).len() > 0,
        join(split_from(s, separator, start), separator) == s.skip(start),
    decreases s.len() - start,
{
    lemma_find_from(s, separator, start);
    let parts = split_from(s, separator, start);
    if let Some(k) = find_from(s, separator, start) {
        let next = k + separator.len();
        lemma_split_from_join(s, separator, next);
        assert(parts.skip(1) =~= split_from(s, separator, next));
        assert(s.skip(start) =~= s.subrange(start, k) + separator + s.skip(next)) by {
            assert(s.subrange(k, next) == separator);
            assert forall|i: int| 0 <= i < separator.len() implies separator[i] == #[trigger] s[k
                + i] by {
                assert(s.subrange(k, next)[i] == s[k + i]);
            }
        }
    } else {
        assert(parts =~= seq![s.skip(start)]);
    }
}

/// Joining the pieces of a text with the separator gives the text back.
pub proof fn joining_a_split_restores_the_text(s: Seq<char>, separator: Seq<char>)
    requires
        separator.len() > 0,
    ensures
        join(split(s, separator), separator) == s,
{
    lemma_split_from_join(s, separator, 0);
    assert(s.skip(0) =~= s);
}

/// The views of a sequence of strings.
pub open spec fn texts(strings: Seq<String>) -> Seq<Seq<char>> {
    strings.map_values(|s: String| s@)
}

/// The text of an optional string.
pub open spec fn optional_text(s: Option<String>) -> Option<Seq<char>> {
    match s {
        Some(s) => Some(s@),
        None => None,
    }
}

/// Join strings with a separator between neighbours.
pub fn joined(parts: &[String], separator: &str) -> (out: String)
    ensures
        out@ == join(texts(parts@), separator@),
{
    if parts.len() == 0 {
        return String::new();
    }
    let ghost all = texts(parts@);
    let mut out = parts[0].clone();
    let mut i: usize = 1;
    proof {
        if all.len() == 1 {
            assert(out@ + Seq::<char>::empty() =~= join(all, separator@));
        } else {
            assert(out@ + (separator@ + join(all.skip(1), separator@)) =~= join(all, separator@));
        }
    }
    while i < parts.len()
        invariant
            1 <= i <= parts@.len(),
            all == texts(parts@),
            join(all, separator@) == out@ + (if i == all.len() {
                Seq::<char>::empty()
            } else {
                separator@ + join(all.skip(i as int), separator@)
            }),
        decreases parts@.len() - i,
    {
        let ghost before = out@;
        let ghost rest = all.skip(i as int);
        out.append(separator);
        out.append(parts[i].as_str());
        i += 1;
        proof {
            assert(rest[0] == parts@[i - 1]@);
            assert(rest.skip(1) =~= all.skip(i as int));
            if i == all.len() {
                assert(join(rest, separator@) == rest[0]);
                assert(out@ + Seq::<char>::empty() =~= before + (separator@ + join(rest, separator@)));
            } else {
                assert(out@ + (separator@ + join(all.skip(i as int), separator@)) =~= before + (
                separator@ + join(rest, separator@)));
            }
        }
    }
    assert(out@ + Seq::<char>::empty() =~= out@);
    out
}

/// `s` from `start` on, with each occurrence of `pattern` that does not
/// overlap the one before it replaced by `with`.
pub open spec fn replace_from(
    s: Seq<char>,
    pattern: Seq<char>,
    with: Seq<char>,
    start: int,
) -> Seq<char>
    decreases s.len() - start,
{
    match find_from(s, pattern, start) {
        Some(k) => if start <= k && k + pattern.len() <= s.len() && pattern.len() > 0 {
            s.subrange(start, k) + with + replace_from(s, pattern, with, k + pattern.len())
        } else {
            seq![]
        },
        None => s.skip(start),
    }
}

/// `s` with each occurrence of `pattern` replaced by `with`.
pub open spec fn replace(s: Seq<char>, pattern: Seq<char>, with: Seq<char>) -> Seq<char> {
    replace_from(s, pattern, with, 0)
}

/// Append `chars` to `out`.
pub fn append_chars(out: &mut Vec<char>, chars: &[char])
    ensures
        final(out)@ == old(out)@ + chars@,
{
    let ghost before = out@;
    let mut i: usize = 0;
    while i < chars.len()
        invariant
            i <= chars@.len(),
            out@ == before + chars@.take(i as int),
        decreases chars@.len() - i,
    {
        out.push(chars[i]);
        i += 1;
        assert(chars@.take(i as int) == chars@.take(i - 1).push(chars@[i - 1]));
    }
    assert(chars@.take(chars@.len() as int) == chars@);
}

/// Replace each occurrence of `pattern` by `with`.
pub fn replaced(s: &[char], pattern: &[char], with: &[char]) -> (out: Vec<char>)
    requires
        pattern@.len() > 0,
    ensures
        out@ == replace(s@, pattern@, with@),
{
    let mut out: Vec<char> = Vec::new();
    let mut start: usize = 0;
    assert(out@ + replace(s@, pattern@, with@) =~= replace(s@, pattern@, with@));
    loop
        invariant
            start <= s@.len(),
            pattern@.len() > 0,
            out@ + replace_from(s@, pattern@, with@, start as int) == replace(s@, pattern@, with@),
        decreases s@.len() - start,
    {
        proof {
            lemma_find_from(s@, pattern@, start as int);
        }
        let ghost before = out@;
        match position_from(s, pattern, start) {
            Some(k) => {
                append_chars(&mut out, slice_subrange(s, start, k));
                append_chars(&mut out, with);
                assert(before + replace_from(s@, pattern@, with@, start as int) =~= out@
                    + replace_from(s@, pattern@, with@, k + pattern@.len()));
                assert(s.len() == s@.len());
                start = k + pattern.len();
            },
            None => {
                append_chars(&mut out, slice_subrange(s, start, s.len()));
                assert(s@.subrange(start as int, s@.len() as int) =~= s@.skip(start as int));
                return out;
            },
        }
    }
}

/// `s` with each `from` turned into `to`.
pub open spec fn replace_char(s: Seq<char>, from: char, to: char) -> Seq<char> {
    s.map_values(
        |c: char|
            if c == from {
                to
            } else {
                c
            },
    )
}

/// Turn each `from` into `to`.
pub fn with_char_replaced(s: &[char], from: char, to: char) -> (out: Vec<char>)
    ensures
        out@ == replace_char(s@, from, to),
{
    let ghost whole = replace_char(s@, from, to);
    let mut out: Vec<char> = Vec::new();
    let mut i: usize = 0;
    while i < s.len()
        invariant
            i <= s@.len(),
            whole == replace_char(s@, from, to),
            out@ == whole.take(i as int),
        decreases s@.len() - i,
    {
        if s[i] == from {
            out.push(to);
        } else {
            out.push(s[i]);
        }
        i += 1;
        assert(whole.take(i as int) == whole.take(i - 1).push(whole[i - 1]));
    }
    assert(whole.take(s@.len() as int) == whole);
    out
}

/// Whether `s` starts with `prefix`.
pub open spec fn starts_with(s: Seq<char>, prefix: Seq<char>) -> bool {
    prefix.len() <= s.len() && s.take(prefix.len() as int) == prefix
}

/// `s` with its first character in upper case, when that is an ASCII letter.
pub open spec fn capitalized(s: Seq<char>) -> Seq<char> {
    if s.len() > 0 {
        s.update(0, upper_char(s[0]))
    } else {
        s
    }
}

/// Turn the first character into upper case, when it is an ASCII letter.
pub fn capitalize(s: &[char]) -> (out: Vec<char>)
    ensures
        out@ == capitalized(s@),
{
    let mut out: Vec<char> = Vec::new();
    append_chars(&mut out, s);
    assert(out@ =~= s@);
    if out.len() > 0 {
        let first: char = to_upper(out[0]);
        out.set(0, first);
    }
    out
}

/// Whether a character separates the words of a page title: white space, or an
/// underscore in its place.
pub open spec fn is_gap(c: char) -> bool {
    is_white_space(c) || c == '_'
}

/// `s` with one space for each run of gaps, and none at its ends.
pub open spec fn squeezed(s: Seq<char>) -> Seq<char>
    decreases s.len(),
{
    if s.len() == 0 {
        s
    } else {
        let before = squeezed(s.drop_last());
        if is_gap(s.last()) {
            before
        } else if before.len() > 0 && is_gap(s[s.len() - 2]) {
            before.push(' ').push(s.last())
        } else {
            before.push(s.last())
        }
    }
}

/// Write one space for each run of gaps, and none at the ends.
pub fn squeeze(s: &[char]) -> (out: Vec<char>)
    ensures
        out@ == squeezed(s@),
{
    let mut out: Vec<char> = Vec::new();
    let mut behind_gap: bool = false;
    let mut i: usize = 0;
    assert(out@ =~= squeezed(s@.take(0)));
    while i < s.len()
        invariant
            i <= s@.len(),
            out@ == squeezed(s@.take(i as int)),
            behind_gap == (i > 0 && is_gap(s@[i - 1])),
        decreases s@.len() - i,
    {
        let c: char = s[i];
        proof {
            let now = s@.take(i + 1);
            assert(now.drop_last() =~= s@.take(i as int));
            assert(now.last() == c);
            if i > 0 {
                assert(now[now.len() - 2] == s@[i - 1]);
            }
        }
        if white_space(c) || c == '_' {
            behind_gap = true;
        } else {
            if behind_gap && out.len() > 0 {
                out.push(' ');
            }
            out.push(c);
            behind_gap = false;
        }
        i += 1;
    }
    assert(s@.take(i as int) =~= s@);
    out
}

/// Whether the words of a text are separated by one space each, with nothing at
/// its ends.
pub open spec fn is_squeezed(s: Seq<char>) -> bool {
    &&& s.len() > 0 ==> !is_gap(s[0]) && !is_gap(s.last())
    &&& forall|i: int|
        0 <= i < s.len() && is_gap(#[trigger] s[i]) ==> s[i] == ' ' && (i + 1 < s.len()
            ==> !is_gap(s[i + 1]))
}

/// Squeezing leaves single spaces between words.
pub proof fn squeezing_separates_words(s: Seq<char>)
    ensures
        is_squeezed(squeezed(s)),
    decreases s.len(),
{
    if s.len() > 0 {
        let before = squeezed(s.drop_last());
        let now = squeezed(s);
        squeezing_separates_words(s.drop_last());
        if !is_gap(s.last()) {
            assert forall|i: int| 0 <= i < now.len() && is_gap(#[trigger] now[i]) implies now[i]
                == ' ' && (i + 1 < now.len() ==> !is_gap(now[i + 1])) by {
                if i < before.len() {
                    assert(now[i] == before[i]);
                    assert(is_gap(before[i]));
                    if i + 1 < before.len() {
                        assert(now[i + 1] == before[i + 1]);
                    }
                }
            }
            if before.len() > 0 {
                assert(now[0] == before[0]);
            }
        }
    }
}

proof fn lemma_squeezed_start(s: Seq<char>)
    requires
        s.len() > 0 ==> !is_gap(s[0]),
        forall|i: int|
            0 <= i < s.len() && is_gap(#[trigger] s[i]) ==> s[i] == ' ' && (i + 1 < s.len()
                ==> !is_gap(s[i + 1])),
    ensures
        squeezed(s) == if s.len() > 0 && is_gap(s.last()) {
            s.drop_last()
        } else {
            s
        },
    decreases s.len(),
{
    if s.len() > 0 {
        let rest = s.drop_last();
        assert forall|i: int| 0 <= i < rest.len() && is_gap(#[trigger] rest[i]) implies rest[i]
            == ' ' && (i + 1 < rest.len() ==> !is_gap(rest[i + 1])) by {
            assert(rest[i] == s[i]);
            assert(is_gap(s[i]));
        }
        lemma_squeezed_start(rest);
        if s.len() > 1 {
            assert(rest.last() == s[s.len() - 2]);
            if is_gap(s[s.len() - 2]) {
                assert(!is_gap(s[s.len() - 1]));
                assert(rest.drop_last().len() > 0);
            }
        }
        if is_gap(s.last()) {
            assert(squeezed(s) =~= rest);
        } else {
            assert(squeezed(s) =~= s);
        }
    }
}

/// What is squeezed stays as it is.
pub proof fn nothing_to_squeeze(s: Seq<char>)
    requires
        is_squeezed(s),
    ensures
        squeezed(s) == s,
{
    lemma_squeezed_start(s);
}

/// Which gaps stand between words makes no difference.
pub proof fn gaps_are_alike(s: Seq<char>, t: Seq<char>)
    requires
        s.len() == t.len(),
        forall|i: int|
            0 <= i < s.len() ==> #[trigger] s[i] == t[i] || is_gap(s[i]) && is_gap(t[i]),
    ensures
        squeezed(s) == squeezed(t),
    decreases s.len(),
{
    if s.len() > 0 {
        let a = s.drop_last();
        let b = t.drop_last();
        assert forall|i: int| 0 <= i < a.len() implies #[trigger] a[i] == b[i] || is_gap(a[i])
            && is_gap(b[i]) by {
            assert(s[i] == t[i] || is_gap(s[i]) && is_gap(t[i]));
        }
        gaps_are_alike(a, b);
        assert(s[s.len() - 1] == t[s.len() - 1] || is_gap(s.last()) && is_gap(t.last()));
        if s.len() > 1 {
            assert(s[s.len() - 2] == t[s.len() - 2] || is_gap(s[s.len() - 2]) && is_gap(
                t[s.len() - 2],
            ));
        }
    } else {
        assert(squeezed(s) =~= squeezed(t));
    }
}

/// Where all gaps are single spaces or underscores between words, squeezing only
/// writes spaces for the underscores.
pub proof fn squeezing_single_gaps(s: Seq<char>)
    requires
        s.len() > 0 ==> !is_gap(s[0]) && !is_gap(s.last()),
        forall|i: int|
            0 <= i < s.len() && is_gap(#[trigger] s[i]) ==> (s[i] == ' ' || s[i] == '_') && (i + 1
                < s.len() ==> !is_gap(s[i + 1])),
    ensures
        squeezed(s) == replace_char(s, '_', ' '),
{
    let t = replace_char(s, '_', ' ');
    assert forall|i: int| 0 <= i < t.len() && is_gap(#[trigger] t[i]) implies t[i] == ' ' && (i + 1
        < t.len() ==> !is_gap(t[i + 1])) by {
        assert(is_gap(s[i]));
    }
    nothing_to_squeeze(t);
    gaps_are_alike(s, t);
}

} // verus!
