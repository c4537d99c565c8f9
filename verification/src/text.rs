//! Character-level text primitives over `Seq<char>`: whitespace, trimming,
//! searching, UTF-8 byte lengths and conversions between `str` and `Vec<char>`.

use vstd::prelude::*;
use vstd::std_specs::iter::IteratorSpec;

verus! {

/// Unicode `White_Space` property, as used by `char::is_whitespace` and `str::trim`.
pub open spec fn is_ws(c: char) -> bool {
    let u = c as u32;
    (9 <= u && u <= 13) || u == 0x20 || u == 0x85 || u == 0xA0 || u == 0x1680 || (0x2000 <= u
        && u <= 0x200A) || u == 0x2028 || u == 0x2029 || u == 0x202F || u == 0x205F || u == 0x3000
}

pub fn char_is_ws(c: char) -> (b: bool)
    ensures
        b == is_ws(c),
{
    let u = c as u32;
    (9 <= u && u <= 13) || u == 0x20 || u == 0x85 || u == 0xA0 || u == 0x1680 || (0x2000 <= u
        && u <= 0x200A) || u == 0x2028 || u == 0x2029 || u == 0x202F || u == 0x205F || u == 0x3000
}

/// Number of bytes of the UTF-8 encoding of `c`.
pub open spec fn utf8_width(c: char) -> nat {
    let u = c as u32;
    if u < 0x80 {
        1
    } else if u < 0x800 {
        2
    } else if u < 0x10000 {
        3
    } else {
        4
    }
}

/// Number of bytes of the UTF-8 encoding of `s` (what `str::len` returns).
pub open spec fn byte_len(s: Seq<char>) -> nat
    decreases s.len(),
{
    if s.len() == 0 {
        0
    } else {
        byte_len(s.drop_last()) + utf8_width(s.last())
    }
}

pub fn char_utf8_width(c: char) -> (w: usize)
    ensures
        w == utf8_width(c),
{
    let u = c as u32;
    if u < 0x80 {
        1
    } else if u < 0x800 {
        2
    } else if u < 0x10000 {
        3
    } else {
        4
    }
}

/// Copies the characters of `s` into a vector.
pub fn chars_of(s: &str) -> (r: Vec<char>)
    ensures
        r@ == s@,
{
    let mut r: Vec<char> = Vec::new();
    for c in it: s.chars()
        invariant
            r@ == it.seq().take(it.index() as int),
            it.seq() == s@,
    {
        r.push(c);
    }
    r
}


/// Calls `String::push`; the contract claims what its documentation says: the
/// string afterwards is the old one with `c` appended.
#[verifier::external_body]
fn string_push(s: &mut String, c: char)
    ensures
        final(s)@ == old(s)@.push(c),
{
    s.push(c);
}

/// Builds a `String` holding exactly the characters of `v`.
pub fn string_of(v: &[char]) -> (r: String)
    ensures
        r@ == v@,
{
    let mut r = String::new();
    let mut i: usize = 0;
    while i < v.len()
        invariant
            i <= v@.len(),
            r@ == v@.take(i as int),
        decreases v@.len() - i,
    {
        string_push(&mut r, v[i]);
        proof {
            assert(v@.take(i + 1) =~= v@.take(i as int).push(v@[i as int]));
        }
        i += 1;
    }
    proof {
        assert(v@.take(v@.len() as int) =~= v@);
    }
    r
}

/// The characters `s[a..b]` as a new vector.
pub fn slice_chars(s: &[char], a: usize, b: usize) -> (r: Vec<char>)
    requires
        a <= b <= s@.len(),
    ensures
        r@ == s@.subrange(a as int, b as int),
{
    let mut r: Vec<char> = Vec::new();
    let mut i: usize = a;
    while i < b
        invariant
            a <= i <= b <= s@.len(),
            r@ == s@.subrange(a as int, i as int),
        decreases b - i,
    {
        r.push(s[i]);
        proof {
            assert(s@.subrange(a as int, i + 1) =~= s@.subrange(a as int, i as int).push(
                s@[i as int],
            ));
        }
        i += 1;
    }
    r
}

/// A copy of all of `s`.
pub fn slice_all(s: &[char]) -> (r: Vec<char>)
    ensures
        r@ == s@,
{
    let r = slice_chars(s, 0, s.len());
    proof {
        assert(s@.subrange(0, s@.len() as int) =~= s@);
    }
    r
}

/// Character classes that the trimming functions strip.
#[derive(Clone, Copy, PartialEq, Eq, Structural)]
pub enum CharClass {
    /// `char::is_whitespace`.
    Whitespace,
    /// The double quote `"`.
    Quote,
    /// ASCII digits and `[ ] . ) -`, the marks of a numbered list item.
    ListMarker,
}

pub open spec fn is_ascii_digit(c: char) -> bool {
    '0' <= c && c <= '9'
}

pub open spec fn in_class(c: char, k: CharClass) -> bool {
    match k {
        CharClass::Whitespace => is_ws(c),
        CharClass::Quote => c == '"',
        CharClass::ListMarker => is_ascii_digit(c) || c == '[' || c == ']' || c == '.' || c == ')'
            || c == '-',
    }
}

pub fn char_in_class(c: char, k: CharClass) -> (b: bool)
    ensures
        b == in_class(c, k),
{
    match k {
        CharClass::Whitespace => char_is_ws(c),
        CharClass::Quote => c == '"',
        CharClass::ListMarker => ('0' <= c && c <= '9') || c == '[' || c == ']' || c == '.' || c
            == ')' || c == '-',
    }
}

/// `s` without its leading characters of class `k`.
pub open spec fn trim_start_class(s: Seq<char>, k: CharClass) -> Seq<char>
    decreases s.len(),
{
    if s.len() > 0 && in_class(s[0], k) {
        trim_start_class(s.drop_first(), k)
    } else {
        s
    }
}

/// `s` without its trailing characters of class `k`.
pub open spec fn trim_end_class(s: Seq<char>, k: CharClass) -> Seq<char>
    decreases s.len(),
{
    if s.len() > 0 && in_class(s.last(), k) {
        trim_end_class(s.drop_last(), k)
    } else {
        s
    }
}

/// `s` without its leading and trailing characters of class `k`.
pub open spec fn trim_class(s: Seq<char>, k: CharClass) -> Seq<char> {
    trim_end_class(trim_start_class(s, k), k)
}

/// `str::trim`.
pub open spec fn trim(s: Seq<char>) -> Seq<char> {
    trim_class(s, CharClass::Whitespace)
}

pub proof fn lemma_trim_start(s: Seq<char>, k: CharClass) -> (a: int)
    ensures
        0 <= a <= s.len(),
        trim_start_class(s, k) == s.skip(a),
        a < s.len() ==> !in_class(s[a], k),
    decreases s.len(),
{
    if s.len() > 0 && in_class(s[0], k) {
        let b = lemma_trim_start(s.drop_first(), k);
        assert(s.drop_first().skip(b) =~= s.skip(b + 1));
        b + 1
    } else {
        assert(s.skip(0) =~= s);
        0
    }
}

pub proof fn lemma_trim_end(s: Seq<char>, k: CharClass) -> (m: int)
    ensures
        0 <= m <= s.len(),
        trim_end_class(s, k) == s.take(m),
        m > 0 ==> !in_class(s[m - 1], k),
    decreases s.len(),
{
    if s.len() > 0 && in_class(s.last(), k) {
        let b = lemma_trim_end(s.drop_last(), k);
        assert(s.drop_last().take(b) =~= s.take(b));
        b
    } else {
        assert(s.take(s.len() as int) =~= s);
        s.len() as int
    }
}

/// `trim_class(s, k)` is the slice `s[a..b]` whose ends are not of class `k`.
pub proof fn lemma_trim_class(s: Seq<char>, k: CharClass) -> (r: (int, int))
    ensures
        0 <= r.0 <= r.1 <= s.len(),
        trim_class(s, k) == s.subrange(r.0, r.1),
        r.0 < r.1 ==> !in_class(s[r.0], k) && !in_class(s[r.1 - 1], k),
{
    let a = lemma_trim_start(s, k);
    let m = lemma_trim_end(s.skip(a), k);
    assert(s.skip(a).take(m) =~= s.subrange(a, a + m));
    (a, a + m)
}

/// Trimming twice trims no more than once.
pub proof fn lemma_trim_class_idempotent(s: Seq<char>, k: CharClass)
    ensures
        trim_class(trim_class(s, k), k) == trim_class(s, k),
{
    let (a, b) = lemma_trim_class(s, k);
    let r = trim_class(s, k);
    if r.len() > 0 {
        assert(r[0] == s[a]);
        assert(r.last() == s[b - 1]);
        assert(trim_start_class(r, k) == r);
        assert(trim_end_class(r, k) == r);
    } else {
        assert(trim_start_class(r, k) == r);
        assert(trim_end_class(r, k) == r);
    }
}

proof fn lemma_trim_start_push(s: Seq<char>, c: char, k: CharClass)
    requires
        in_class(c, k),
    ensures
        trim_start_class(s.push(c), k) == if trim_start_class(s, k).len() > 0 {
            trim_start_class(s, k).push(c)
        } else {
            Seq::<char>::empty()
        },
    decreases s.len(),
{
    if s.len() == 0 {
        assert(s.push(c).drop_first() =~= Seq::<char>::empty());
        assert(trim_start_class(Seq::<char>::empty(), k) =~= Seq::<char>::empty());
    } else if in_class(s[0], k) {
        assert(s.push(c).drop_first() =~= s.drop_first().push(c));
        lemma_trim_start_push(s.drop_first(), c, k);
    } else {
    }
}

/// Appending or prepending a character of class `k` leaves `trim_class` as it was.
proof fn lemma_trim_class_ends(s: Seq<char>, c: char, k: CharClass)
    requires
        in_class(c, k),
    ensures
        trim_class(s.push(c), k) == trim_class(s, k),
        trim_class(seq![c] + s, k) == trim_class(s, k),
{
    lemma_trim_start_push(s, c, k);
    let t = trim_start_class(s, k);
    if t.len() > 0 {
        assert(t.push(c).drop_last() =~= t);
    } else {
        assert(trim_end_class(Seq::<char>::empty(), k) =~= Seq::<char>::empty());
        assert(trim_end_class(t, k) =~= Seq::<char>::empty());
    }
    assert((seq![c] + s).drop_first() =~= s);
}

/// `str::trim` drops the ASCII blanks and line breaks (space, tab, line feed,
/// vertical tab, form feed, carriage return) and the other Unicode white space
/// such as U+0085, U+00A0 and U+3000 from either end: one more of them at the
/// start or at the end of a text changes nothing.
pub proof fn trim_ignores_blank_ends(s: Seq<char>, c: char)
    requires
        c == ' ' || c == '\t' || c == '\n' || c == '\u{0B}' || c == '\u{0C}' || c == '\r' || c
            == '\u{85}' || c == '\u{A0}' || c == '\u{2028}' || c == '\u{2029}' || c == '\u{3000}',
    ensures
        trim(s.push(c)) == trim(s),
        trim(seq![c] + s) == trim(s),
{
    lemma_trim_class_ends(s, c, CharClass::Whitespace);
}

/// Number of leading characters of class `k`; dropping them leaves `trim_start_class`.
fn leading_count(s: &[char], k: CharClass) -> (n: usize)
    ensures
        n <= s@.len(),
        trim_start_class(s@, k) == s@.skip(n as int),
        n < s@.len() ==> !in_class(s@[n as int], k),
{
    let mut i: usize = 0;
    proof {
        assert(s@.skip(0) =~= s@);
    }
    while i < s.len() && char_in_class(s[i], k)
        invariant
            i <= s@.len(),
            trim_start_class(s@, k) == trim_start_class(s@.skip(i as int), k),
        decreases s@.len() - i,
    {
        proof {
            assert(s@.skip(i as int).drop_first() =~= s@.skip(i + 1));
        }
        i += 1;
    }
    proof {
        let t = s@.skip(i as int);
        if i < s@.len() {
            assert(t[0] == s@[i as int]);
        } else {
            assert(t.len() == 0);
        }
    }
    i
}

/// Trims the characters of class `k` from both ends of `s[a..b]`, returning the new bounds.
fn trim_bounds(s: &[char], k: CharClass) -> (r: (usize, usize))
    ensures
        r.0 <= r.1 <= s@.len(),
        trim_class(s@, k) == s@.subrange(r.0 as int, r.1 as int),
{
    let a = leading_count(s, k);
    let mut j: usize = s.len();
    let ghost t = s@.skip(a as int);
    while j > a && char_in_class(s[j - 1], k)
        invariant
            a <= j <= s@.len(),
            t == s@.skip(a as int),
            trim_end_class(t, k) == trim_end_class(s@.subrange(a as int, j as int), k),
        decreases j,
    {
        proof {
            assert(s@.subrange(a as int, j as int).drop_last() =~= s@.subrange(
                a as int,
                j - 1,
            ));
        }
        j -= 1;
    }
    proof {
        assert(t =~= s@.subrange(a as int, s@.len() as int));
        let u = s@.subrange(a as int, j as int);
        if j > a {
            assert(u.last() == s@[j - 1]);
        } else {
            assert(u.len() == 0);
        }
    }
    (a, j)
}

/// `s` with the characters of class `k` trimmed from both ends.
pub fn trim_class_chars(s: &[char], k: CharClass) -> (r: Vec<char>)
    ensures
        r@ == trim_class(s@, k),
{
    let (a, b) = trim_bounds(s, k);
    slice_chars(s, a, b)
}

/// `str::trim` on characters.
pub fn trim_chars(s: &[char]) -> (r: Vec<char>)
    ensures
        r@ == trim(s@),
{
    trim_class_chars(s, CharClass::Whitespace)
}

/// `s` without its leading characters of class `k`.
pub fn trim_start_class_chars(s: &[char], k: CharClass) -> (r: Vec<char>)
    ensures
        r@ == trim_start_class(s@, k),
{
    let n = leading_count(s, k);
    proof {
        assert(s@.skip(n as int) =~= s@.subrange(n as int, s@.len() as int));
    }
    slice_chars(s, n, s.len())
}


/// `n` occurs in `h` starting at character index `i`.
pub open spec fn occurs_at(h: Seq<char>, n: Seq<char>, i: int) -> bool {
    0 <= i && i + n.len() <= h.len() && h.subrange(i, i + n.len()) == n
}

/// First occurrence of `n` in `h` at or after index `i`.
pub open spec fn find_from(h: Seq<char>, n: Seq<char>, i: nat) -> Option<nat>
    decreases h.len() + 1 - i,
{
    if i + n.len() > h.len() {
        None
    } else if occurs_at(h, n, i as int) {
        Some(i)
    } else {
        find_from(h, n, i + 1)
    }
}

/// First occurrence of `n` in `h` (`str::find` counted in characters).
pub open spec fn find(h: Seq<char>, n: Seq<char>) -> Option<nat> {
    find_from(h, n, 0)
}

/// `str::contains`.
pub open spec fn contains(h: Seq<char>, n: Seq<char>) -> bool {
    find(h, n) is Some
}

/// `str::starts_with`.
pub open spec fn starts_with(h: Seq<char>, n: Seq<char>) -> bool {
    occurs_at(h, n, 0)
}

pub proof fn lemma_find_from(h: Seq<char>, n: Seq<char>, i: nat)
    ensures
        find_from(h, n, i) matches Some(k) ==> i <= k && occurs_at(h, n, k as int) && forall|
            j: int,
        |
            i <= j < k ==> !occurs_at(h, n, j),
        find_from(h, n, i) is None ==> forall|j: int| i <= j ==> !occurs_at(h, n, j),
    decreases h.len() + 1 - i,
{
    if i + n.len() > h.len() {
    } else if occurs_at(h, n, i as int) {
    } else {
        lemma_find_from(h, n, i + 1);
    }
}

/// The first occurrence is where `n` occurs with no occurrence before it; with
/// no occurrence at all there is none.
pub proof fn lemma_find_first(h: Seq<char>, n: Seq<char>, k: int)
    requires
        0 <= k,
        occurs_at(h, n, k),
        forall|j: int| 0 <= j < k ==> !occurs_at(h, n, j),
    ensures
        find(h, n) == Some(k as nat),
{
    lemma_find_from(h, n, 0);
}

/// A character occurs at `j` as a one-character needle exactly when it stands there.
pub proof fn lemma_occurs_char(h: Seq<char>, c: char, j: int)
    ensures
        occurs_at(h, seq![c], j) <==> (0 <= j < h.len() && h[j] == c),
{
    if 0 <= j < h.len() {
        assert(h.subrange(j, j + 1) =~= seq![h[j]]);
        if h.subrange(j, j + 1) == seq![c] {
            assert(h.subrange(j, j + 1)[0] == c);
        }
    }
}

/// Whether `n` occurs in `h` at index `i`.
fn matches_at(h: &[char], n: &[char], i: usize) -> (b: bool)
    requires
        i + n@.len() <= h@.len(),
    ensures
        b == occurs_at(h@, n@, i as int),
{
    let hl = h.len();
    let mut j: usize = 0;
    while j < n.len()
        invariant
            j <= n@.len(),
            hl == h@.len(),
            i + n@.len() <= h@.len(),
            forall|m: int| 0 <= m < j ==> h@[i + m] == n@[m],
        decreases n@.len() - j,
    {
        if h[i + j] != n[j] {
            proof {
                assert(h@.subrange(i as int, i + n@.len())[j as int] == h@[i + j]);
            }
            return false;
        }
        j += 1;
    }
    proof {
        assert(h@.subrange(i as int, i + n@.len()) =~= n@);
    }
    true
}

/// `str::find` counted in characters.
pub fn find_chars(h: &[char], n: &[char]) -> (r: Option<usize>)
    ensures
        r matches Some(k) ==> find(h@, n@) == Some(k as nat) && k + n@.len() <= h@.len(),
        r is None ==> find(h@, n@) is None,
{
    proof {
        lemma_find_from(h@, n@, 0);
    }
    if n.len() > h.len() {
        return None;
    }
    let last = h.len() - n.len();
    let mut i: usize = 0;
    loop
        invariant
            i <= last,
            last + n@.len() == h@.len(),
            find(h@, n@) == find_from(h@, n@, i as nat),
        decreases last - i,
    {
        if matches_at(h, n, i) {
            return Some(i);
        }
        if i == last {
            proof {
                assert(find_from(h@, n@, (i + 1) as nat) is None);
            }
            return None;
        }
        i += 1;
    }
}

/// The one-character sequence `c`.
pub fn single(c: char) -> (r: Vec<char>)
    ensures
        r@ == seq![c],
{
    let mut r = Vec::new();
    r.push(c);
    proof {
        assert(r@ =~= seq![c]);
    }
    r
}

/// `str::contains`.
pub fn contains_chars(h: &[char], n: &[char]) -> (b: bool)
    ensures
        b == contains(h@, n@),
{
    find_chars(h, n).is_some()
}

/// `str::starts_with`.
pub fn starts_with_chars(h: &[char], n: &[char]) -> (b: bool)
    ensures
        b == starts_with(h@, n@),
{
    if n.len() > h.len() {
        false
    } else {
        matches_at(h, n, 0)
    }
}

/// Number of occurrences of `c` in `s` (`str::matches(c).count()`).
pub open spec fn count_char(s: Seq<char>, c: char) -> nat
    decreases s.len(),
{
    if s.len() == 0 {
        0
    } else {
        count_char(s.drop_last(), c) + if s.last() == c {
            1nat
        } else {
            0nat
        }
    }
}

pub proof fn lemma_count_char_absent(s: Seq<char>, c: char)
    requires
        forall|i: int| 0 <= i < s.len() ==> s[i] != c,
    ensures
        count_char(s, c) == 0,
    decreases s.len(),
{
    if s.len() > 0 {
        lemma_count_char_absent(s.drop_last(), c);
    }
}

pub proof fn lemma_count_nonzero_has(s: Seq<char>, c: char)
    requires
        count_char(s, c) > 0,
    ensures
        exists|j: int| 0 <= j < s.len() && s[j] == c,
    decreases s.len(),
{
    if s.last() != c {
        lemma_count_nonzero_has(s.drop_last(), c);
        let j = choose|j: int| 0 <= j < s.drop_last().len() && s.drop_last()[j] == c;
        assert(s[j] == c);
    } else {
        assert(s[s.len() - 1] == c);
    }
}

pub fn count_char_chars(s: &[char], c: char) -> (n: usize)
    ensures
        n == count_char(s@, c),
{
    let mut n: usize = 0;
    let mut i: usize = 0;
    while i < s.len()
        invariant
            i <= s@.len(),
            n == count_char(s@.take(i as int), c),
            n <= i,
        decreases s@.len() - i,
    {
        proof {
            assert(s@.take(i + 1).drop_last() =~= s@.take(i as int));
        }
        if s[i] == c {
            n += 1;
        }
        i += 1;
    }
    proof {
        assert(s@.take(s@.len() as int) =~= s@);
    }
    n
}

pub proof fn lemma_byte_len_take_step(s: Seq<char>, j: int)
    requires
        0 <= j < s.len(),
    ensures
        byte_len(s.take(j + 1)) == byte_len(s.take(j)) + utf8_width(s[j]),
{
    assert(s.take(j + 1).drop_last() =~= s.take(j));
}

/// Byte offsets of character prefixes grow strictly with their length.
pub proof fn lemma_byte_len_take_strict(s: Seq<char>, j1: int, j2: int)
    requires
        0 <= j1 < j2 <= s.len(),
    ensures
        byte_len(s.take(j1)) < byte_len(s.take(j2)),
    decreases j2 - j1,
{
    lemma_byte_len_take_step(s, j2 - 1);
    if j1 < j2 - 1 {
        lemma_byte_len_take_strict(s, j1, j2 - 1);
    }
}

/// The character index of `s` at which byte offset `b` falls on a character
/// boundary, if it does (what `&s[b..]` needs so as not to panic).
pub open spec fn index_at_byte(s: Seq<char>, b: nat) -> Option<nat> {
    if exists|j: nat| j <= s.len() && byte_len(s.take(j as int)) == b {
        Some(choose|j: nat| j <= s.len() && byte_len(s.take(j as int)) == b)
    } else {
        None
    }
}

pub proof fn lemma_index_at_byte_unique(s: Seq<char>, b: nat, j: nat)
    requires
        j <= s.len(),
        byte_len(s.take(j as int)) == b,
    ensures
        index_at_byte(s, b) == Some(j),
{
    let k = choose|k: nat| k <= s.len() && byte_len(s.take(k as int)) == b;
    if k < j {
        lemma_byte_len_take_strict(s, k as int, j as int);
    } else if j < k {
        lemma_byte_len_take_strict(s, j as int, k as int);
    }
}

/// The character index at which byte offset `b` of `s` falls, if it is a boundary.
pub fn index_at_byte_chars(s: &[char], b: u128) -> (r: Option<usize>)
    ensures
        r matches Some(j) ==> index_at_byte(s@, b as nat) == Some(j as nat),
        r is None ==> index_at_byte(s@, b as nat) is None,
{
    let mut acc: u128 = 0;
    let mut j: usize = 0;
    loop
        invariant
            j <= s@.len(),
            acc == byte_len(s@.take(j as int)),
            acc <= b,
            forall|m: nat| m < j ==> byte_len(#[trigger] s@.take(m as int)) != b,
        decreases s@.len() - j,
    {
        if acc == b {
            proof {
                lemma_index_at_byte_unique(s@, b as nat, j as nat);
            }
            return Some(j);
        }
        if j == s.len() {
            proof {
                assert forall|m: nat| m <= s@.len() implies byte_len(
                    #[trigger] s@.take(m as int),
                ) != b by {
                    if m == j {
                    }
                }
            }
            return None;
        }
        let w = char_utf8_width(s[j]) as u128;
        proof {
            lemma_byte_len_take_step(s@, j as int);
        }
        if w > b - acc {
            proof {
                assert forall|m: nat| m <= s@.len() implies byte_len(
                    #[trigger] s@.take(m as int),
                ) != b by {
                    if m > j {
                        if m > j + 1 {
                            lemma_byte_len_take_strict(s@, j + 1, m as int);
                        }
                    }
                }
            }
            return None;
        }
        acc = acc + w;
        j += 1;
    }
}

/// Lower-case form of a string, as `str::to_lowercase` computes it from the
/// Unicode case tables (including context rules such as the final sigma).
pub uninterp spec fn spec_to_lowercase(s: Seq<char>) -> Seq<char>;

/// Calls `str::to_lowercase`. The contract claims only that the result is
/// `spec_to_lowercase` of the argument: the Unicode lower-case mapping depends on
/// the characters alone (no locale), and its tables are left unstated.
#[verifier::external_body]
fn str_to_lowercase(s: &str) -> (r: String)
    ensures
        r@ == spec_to_lowercase(s@),
{
    s.to_lowercase()
}

/// Lower-case form of the characters `s`.
pub fn lowercase_chars(s: &[char]) -> (r: Vec<char>)
    ensures
        r@ == spec_to_lowercase(s@),
{
    let st = string_of(s);
    let low = str_to_lowercase(st.as_str());
    chars_of(low.as_str())
}


/// Index of the last occurrence of `c` in `s`.
pub open spec fn rfind_char(s: Seq<char>, c: char) -> Option<nat>
    decreases s.len(),
{
    if s.len() == 0 {
        None
    } else if s.last() == c {
        Some((s.len() - 1) as nat)
    } else {
        rfind_char(s.drop_last(), c)
    }
}

pub fn rfind_char_chars(s: &[char], c: char) -> (r: Option<usize>)
    ensures
        r matches Some(k) ==> rfind_char(s@, c) == Some(k as nat) && k < s@.len(),
        r is None ==> rfind_char(s@, c) is None,
{
    let mut j: usize = s.len();
    proof {
        assert(s@.take(s@.len() as int) =~= s@);
    }
    while j > 0
        invariant
            j <= s@.len(),
            rfind_char(s@, c) == rfind_char(s@.take(j as int), c),
        decreases j,
    {
        proof {
            assert(s@.take(j as int).drop_last() =~= s@.take(j - 1));
        }
        if s[j - 1] == c {
            return Some(j - 1);
        }
        j -= 1;
    }
    None
}

/// Whether the two character sequences are equal.
pub fn chars_eq(a: &[char], b: &[char]) -> (r: bool)
    ensures
        r == (a@ == b@),
{
    if a.len() != b.len() {
        return false;
    }
    let mut i: usize = 0;
    while i < a.len()
        invariant
            i <= a@.len(),
            a@.len() == b@.len(),
            forall|m: int| 0 <= m < i ==> a@[m] == b@[m],
        decreases a@.len() - i,
    {
        if a[i] != b[i] {
            return false;
        }
        i += 1;
    }
    proof {
        assert(a@ =~= b@);
    }
    true
}

/// `byte_len(s)`, computed in a type wide enough for any slice of characters.
pub fn byte_len_chars(s: &[char]) -> (n: u128)
    ensures
        n == byte_len(s@),
        n <= 4 * s@.len(),
{
    let mut acc: u128 = 0;
    let mut i: usize = 0;
    while i < s.len()
        invariant
            i <= s@.len(),
            acc == byte_len(s@.take(i as int)),
            acc <= 4 * i,
        decreases s@.len() - i,
    {
        proof {
            lemma_byte_len_take_step(s@, i as int);
        }
        acc = acc + char_utf8_width(s[i]) as u128;
        i += 1;
    }
    proof {
        assert(s@.take(s@.len() as int) =~= s@);
    }
    acc
}

} // verus!
