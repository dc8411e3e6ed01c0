//! Plain operations on text, with their meaning on the sequence of characters.

use vstd::prelude::*;
use vstd::string::*;
use vstd::utf8::*;

verus! {

/// `part` occurs in `whole` starting at index `at`.
pub open spec fn occurs_at(whole: Seq<char>, part: Seq<char>, at: int) -> bool {
    0 <= at && at + part.len() <= whole.len() && whole.subrange(at, at + part.len()) == part
}

/// `part` occurs somewhere in `whole`.
pub open spec fn occurs_in(whole: Seq<char>, part: Seq<char>) -> bool {
    exists|at: int| occurs_at(whole, part, at)
}

/// The characters with the Unicode property `White_Space`.
pub open spec fn is_white_space_char(c: char) -> bool {
    ||| '\u{9}' <= c <= '\u{d}'
    ||| c == '\u{20}'
    ||| c == '\u{85}'
    ||| c == '\u{a0}'
    ||| c == '\u{1680}'
    ||| '\u{2000}' <= c <= '\u{200a}'
    ||| c == '\u{2028}'
    ||| c == '\u{2029}'
    ||| c == '\u{202f}'
    ||| c == '\u{205f}'
    ||| c == '\u{3000}'
}

/// `s` without the white space at its start.
pub open spec fn without_leading_space(s: Seq<char>) -> Seq<char>
    decreases s.len(),
{
    if s.len() > 0 && is_white_space_char(s[0]) {
        without_leading_space(s.drop_first())
    } else {
        s
    }
}

/// `s` without the white space at its end.
pub open spec fn without_trailing_space(s: Seq<char>) -> Seq<char>
    decreases s.len(),
{
    if s.len() > 0 && is_white_space_char(s.last()) {
        without_trailing_space(s.drop_last())
    } else {
        s
    }
}

/// `s` without the white space at its two ends.
pub open spec fn trimmed(s: Seq<char>) -> Seq<char> {
    without_trailing_space(without_leading_space(s))
}

/// The lower case of an ASCII letter; any other character itself.
pub open spec fn ascii_lower_char(c: char) -> char {
    if 'A' <= c <= 'Z' {
        (c as u32 + 32) as char
    } else {
        c
    }
}

/// `s` with every ASCII letter in lower case.
pub open spec fn ascii_lower(s: Seq<char>) -> Seq<char> {
    s.map_values(|c: char| ascii_lower_char(c))
}

/// Where `c` first stands in `s`; the length of `s` where it does not.
pub open spec fn first_at(s: Seq<char>, c: char) -> int
    decreases s.len(),
{
    if s.len() == 0 || s[0] == c {
        0
    } else {
        1 + first_at(s.drop_first(), c)
    }
}

/// What stands in `s` before the first `c`; all of `s` where there is none.
pub open spec fn before_char(s: Seq<char>, c: char) -> Seq<char> {
    s.take(first_at(s, c))
}

/// Two texts with the same UTF-8 bytes are the same text.
pub proof fn lemma_utf8_is_injective(a: Seq<char>, b: Seq<char>)
    requires
        encode_utf8(a) == encode_utf8(b),
    ensures
        a == b,
{
    encode_utf8_decode_utf8(a);
    encode_utf8_decode_utf8(b);
}

/// The characters of `s`, in order.
pub fn chars_of(s: &str) -> (chars: Vec<char>)
    ensures
        chars@ == s@,
{
    let mut chars: Vec<char> = Vec::new();
    for c in it: s.chars()
        invariant
            it.seq() == s@,
            chars@ == s@.take(it.index()),
    {
        chars.push(c);
        assert(chars@ =~= s@.take(it.index() + 1));
    }
    assert(s@.take(s@.len() as int) =~= s@);
    chars
}

/// Whether two byte slices hold the same bytes.
pub fn same_bytes(a: &[u8], b: &[u8]) -> (same: bool)
    ensures
        same == (a@ == b@),
{
    if a.len() != b.len() {
        return false;
    }
    let mut i: usize = 0;
    while i < a.len()
        invariant
            a@.len() == b@.len(),
            i <= a@.len(),
            forall|j: int| 0 <= j < i ==> a@[j] == b@[j],
        decreases a@.len() - i,
    {
        if a[i] != b[i] {
            return false;
        }
        i += 1;
    }
    assert(a@ =~= b@);
    true
}

/// Whether two texts are the same.
pub fn same_text(a: &str, b: &str) -> (same: bool)
    ensures
        same == (a@ == b@),
{
    let same: bool = same_bytes(a.as_bytes(), b.as_bytes());
    proof {
        if same {
            lemma_utf8_is_injective(a@, b@);
        }
    }
    same
}

/// Whether `part` stands in `whole` at index `at`.
fn stands_at(whole: &Vec<char>, part: &Vec<char>, at: usize) -> (stands: bool)
    ensures
        stands == occurs_at(whole@, part@, at as int),
{
    if part.len() > whole.len() || at > whole.len() - part.len() {
        return false;
    }
    let mut i: usize = 0;
    while i < part.len()
        invariant
            i <= part@.len(),
            at + part@.len() <= whole@.len() <= usize::MAX,
            forall|j: int| 0 <= j < i ==> whole@[at + j] == part@[j],
        decreases part@.len() - i,
    {
        if whole[at + i] != part[i] {
            assert(whole@.subrange(at as int, at + part@.len())[i as int] != part@[i as int]);
            return false;
        }
        i += 1;
    }
    assert(whole@.subrange(at as int, at + part@.len()) =~= part@);
    true
}

/// Whether `s` starts with `prefix`.
pub fn starts_with(s: &str, prefix: &str) -> (starts: bool)
    ensures
        starts == occurs_at(s@, prefix@, 0),
{
    stands_at(&chars_of(s), &chars_of(prefix), 0)
}

/// Whether `part` occurs in `s`.
pub fn contains(s: &str, part: &str) -> (found: bool)
    ensures
        found == occurs_in(s@, part@),
{
    let whole: Vec<char> = chars_of(s);
    let wanted: Vec<char> = chars_of(part);
    let mut at: usize = 0;
    while at < whole.len()
        invariant
            whole@ == s@,
            wanted@ == part@,
            at <= whole@.len(),
            forall|i: int| 0 <= i < at ==> !occurs_at(whole@, wanted@, i),
        decreases whole@.len() - at,
    {
        if stands_at(&whole, &wanted, at) {
            return true;
        }
        at += 1;
    }
    let last: bool = stands_at(&whole, &wanted, at);
    assert forall|i: int| occurs_at(whole@, wanted@, i) implies last by {
        assert(i == at);
    }
    last
}

/// Whether `c` has the Unicode property `White_Space`.
fn is_white_space(c: char) -> (white: bool)
    ensures
        white == is_white_space_char(c),
{
    ('\u{9}' <= c && c <= '\u{d}') || c == '\u{20}' || c == '\u{85}' || c == '\u{a0}' || c
        == '\u{1680}' || ('\u{2000}' <= c && c <= '\u{200a}') || c == '\u{2028}' || c == '\u{2029}'
        || c == '\u{202f}' || c == '\u{205f}' || c == '\u{3000}'
}

/// `s` without the white space at its two ends.
pub fn trim(s: &str) -> (rest: &str)
    ensures
        rest@ == trimmed(s@),
{
    let chars: Vec<char> = chars_of(s);
    let mut from: usize = 0;
    assert(s@.skip(0) =~= s@);
    while from < chars.len() && is_white_space(chars[from])
        invariant
            chars@ == s@,
            from <= chars@.len(),
            without_leading_space(s@) == without_leading_space(s@.skip(from as int)),
        decreases chars@.len() - from,
    {
        assert(s@.skip(from as int).drop_first() =~= s@.skip(from + 1));
        from += 1;
    }
    let ghost led = s@.skip(from as int);
    assert(without_leading_space(s@) == led);
    let mut to: usize = chars.len();
    assert(s@.subrange(from as int, to as int) =~= led);
    while from < to && is_white_space(chars[to - 1])
        invariant
            chars@ == s@,
            from <= to <= chars@.len(),
            without_trailing_space(led) == without_trailing_space(
                s@.subrange(from as int, to as int),
            ),
        decreases to,
    {
        assert(s@.subrange(from as int, to as int).drop_last() =~= s@.subrange(
            from as int,
            to - 1,
        ));
        to -= 1;
    }
    s.substring_char(from, to)
}

/// What stands in `s` before the first `c`; all of `s` where there is none.
pub fn before(s: &str, c: char) -> (part: &str)
    ensures
        part@ == before_char(s@, c),
{
    let chars: Vec<char> = chars_of(s);
    let mut at: usize = 0;
    assert(s@.skip(0) =~= s@);
    while at < chars.len() && chars[at] != c
        invariant
            chars@ == s@,
            at <= chars@.len(),
            first_at(s@, c) == at + first_at(s@.skip(at as int), c),
        decreases chars@.len() - at,
    {
        assert(s@.skip(at as int).drop_first() =~= s@.skip(at + 1));
        at += 1;
    }
    let part: &str = s.substring_char(0, at);
    assert(part@ =~= before_char(s@, c));
    part
}

/// The lower case of an ASCII letter; any other character itself.
fn lower(c: char) -> (l: char)
    ensures
        l == ascii_lower_char(c),
{
    if 'A' <= c && c <= 'Z' {
        ((c as u8) + 32) as char
    } else {
        c
    }
}

/// Whether two texts agree when the case of ASCII letters is disregarded.
pub fn same_ignoring_case(a: &str, b: &str) -> (same: bool)
    ensures
        same == (ascii_lower(a@) == ascii_lower(b@)),
{
    let x: Vec<char> = chars_of(a);
    let y: Vec<char> = chars_of(b);
    if x.len() != y.len() {
        assert(ascii_lower(a@).len() != ascii_lower(b@).len());
        return false;
    }
    let mut i: usize = 0;
    while i < x.len()
        invariant
            x@ == a@,
            y@ == b@,
            x@.len() == y@.len(),
            i <= x@.len(),
            forall|j: int| 0 <= j < i ==> ascii_lower_char(x@[j]) == ascii_lower_char(y@[j]),
        decreases x@.len() - i,
    {
        if lower(x[i]) != lower(y[i]) {
            assert(ascii_lower(a@)[i as int] != ascii_lower(b@)[i as int]);
            return false;
        }
        i += 1;
    }
    assert(ascii_lower(a@) =~= ascii_lower(b@));
    true
}

/// `str::to_ascii_lowercase` maps the ASCII letters `A` to `Z` to `a` to `z` and keeps every
/// other character.
pub assume_specification[ str::to_ascii_lowercase ](s: &str) -> (l: String)
    ensures
        l@ == ascii_lower(s@),
;

/// `std::str::from_utf8` accepts exactly the bytes that are valid UTF-8.
#[verifier::external_body]
pub(crate) fn is_utf8(bytes: &[u8]) -> (valid: bool)
    ensures
        valid == valid_utf8(bytes@),
{
    std::str::from_utf8(bytes).is_ok()
}

/// The text that an optional string is.
pub open spec fn optional_text(text: Option<String>) -> Option<Seq<char>> {
    match text {
        Some(t) => Some(t@),
        None => None,
    }
}

// ---------------------------------------------------------------------------------------------
// Laws
// ---------------------------------------------------------------------------------------------

/// A part occurs in a text exactly where the text is the part with something before it and
/// something behind it.
pub proof fn law_occurrence_splits_the_text(whole: Seq<char>, part: Seq<char>)
    ensures
        occurs_in(whole, part) <==> exists|before: Seq<char>, behind: Seq<char>|
            whole == #[trigger] (before + part + behind),
{
    if occurs_in(whole, part) {
        let at = choose|at: int| occurs_at(whole, part, at);
        let before = whole.take(at);
        let behind = whole.skip(at + part.len());
        assert(whole =~= before + part + behind);
    }
    if exists|before: Seq<char>, behind: Seq<char>| whole == #[trigger] (before + part + behind) {
        let (before, behind) = choose|before: Seq<char>, behind: Seq<char>|
            whole == #[trigger] (before + part + behind);
        let at = before.len() as int;
        assert(whole.subrange(at, at + part.len()) =~= part);
        assert(occurs_at(whole, part, at));
    }
}

/// A part stands at the start of a text exactly where the text is the part and something behind
/// it.
pub proof fn law_start_splits_the_text(whole: Seq<char>, part: Seq<char>)
    ensures
        occurs_at(whole, part, 0) <==> exists|behind: Seq<char>| whole == #[trigger] (part
            + behind),
{
    if occurs_at(whole, part, 0) {
        assert(whole =~= part + whole.skip(part.len() as int));
    }
    if exists|behind: Seq<char>| whole == #[trigger] (part + behind) {
        let behind = choose|behind: Seq<char>| whole == #[trigger] (part + behind);
        assert(whole.subrange(0, part.len() as int) =~= part);
    }
}

/// White space is the tab, the line feed, the vertical tab, the form feed, the carriage return, the
/// space, and the other characters that Unicode lists; no printable ASCII character is.
pub proof fn law_white_space(c: char)
    ensures
        is_white_space_char(c) <==> {
            let n = c as int;
            9 <= n <= 13 || n == 32 || n == 133 || n == 160 || n == 5760 || 8192 <= n <= 8202 || n
                == 8232 || n == 8233 || n == 8239 || n == 8287 || n == 12288
        },
{
}

/// Every character is white space.
pub open spec fn is_blank(s: Seq<char>) -> bool {
    forall|i: int| 0 <= i < s.len() ==> is_white_space_char(#[trigger] s[i])
}

/// The text neither starts nor ends with white space.
pub open spec fn has_no_outer_space(s: Seq<char>) -> bool {
    s.len() > 0 ==> !is_white_space_char(s[0]) && !is_white_space_char(s.last())
}

proof fn lemma_leading(s: Seq<char>) -> (n: int)
    ensures
        0 <= n <= s.len(),
        without_leading_space(s) == s.skip(n),
        forall|i: int| 0 <= i < n ==> is_white_space_char(#[trigger] s[i]),
        n < s.len() ==> !is_white_space_char(s[n]),
    decreases s.len(),
{
    if s.len() > 0 && is_white_space_char(s[0]) {
        let rest = s.drop_first();
        let m = lemma_leading(rest);
        assert(rest.skip(m) =~= s.skip(m + 1));
        assert forall|i: int| 0 <= i < m + 1 implies is_white_space_char(#[trigger] s[i]) by {
            if i > 0 {
                assert(s[i] == rest[i - 1]);
            }
        }
        m + 1
    } else {
        assert(s.skip(0) =~= s);
        0
    }
}

proof fn lemma_trailing(s: Seq<char>) -> (n: int)
    ensures
        0 <= n <= s.len(),
        without_trailing_space(s) == s.take(n),
        forall|i: int| n <= i < s.len() ==> is_white_space_char(#[trigger] s[i]),
        n > 0 ==> !is_white_space_char(s[n - 1]),
    decreases s.len(),
{
    if s.len() > 0 && is_white_space_char(s.last()) {
        let rest = s.drop_last();
        let n = lemma_trailing(rest);
        assert(rest.take(n) =~= s.take(n));
        assert forall|i: int| n <= i < s.len() implies is_white_space_char(#[trigger] s[i]) by {
            if i < rest.len() {
                assert(s[i] == rest[i]);
            }
        }
        n
    } else {
        assert(s.take(s.len() as int) =~= s);
        s.len() as int
    }
}

/// Trimming takes white space from both ends and nothing else.
pub proof fn law_trimming_takes_outer_space(s: Seq<char>)
    ensures
        has_no_outer_space(trimmed(s)),
        exists|before: Seq<char>, behind: Seq<char>|
            is_blank(before) && is_blank(behind) && s == #[trigger] (before + trimmed(s) + behind),
{
    let n = lemma_leading(s);
    let led = s.skip(n);
    let m = lemma_trailing(led);
    let before = s.take(n);
    let behind = led.skip(m);
    assert forall|i: int| 0 <= i < before.len() implies is_white_space_char(
        #[trigger] before[i],
    ) by {
        assert(before[i] == s[i]);
    }
    assert forall|i: int| 0 <= i < behind.len() implies is_white_space_char(
        #[trigger] behind[i],
    ) by {
        assert(behind[i] == led[m + i]);
    }
    assert(s =~= before + trimmed(s) + behind);
    if m > 0 {
        assert(trimmed(s)[0] == s[n]);
        assert(trimmed(s).last() == led[m - 1]);
    }
}

/// White space around a text that has none at its ends is taken away.
pub proof fn law_trimming_finds_the_text(before: Seq<char>, s: Seq<char>, behind: Seq<char>)
    requires
        is_blank(before),
        is_blank(behind),
        has_no_outer_space(s),
    ensures
        trimmed(before + s + behind) == s,
{
    let whole = before + s + behind;
    let n = lemma_leading(whole);
    if s.len() == 0 {
        if n < whole.len() {
            if n < before.len() {
                assert(whole[n] == before[n]);
            } else {
                assert(whole[n] == behind[n - before.len()]);
            }
        }
        assert(whole.skip(n) =~= Seq::empty());
        assert(trimmed(whole) =~= s);
    } else {
        if n < before.len() {
            assert(whole[n] == before[n]);
        }
        if n > before.len() {
            assert(whole[before.len() as int] == s[0]);
        }
        let led = whole.skip(n);
        assert(led =~= s + behind);
        let m = lemma_trailing(led);
        if m < s.len() {
            assert(led[s.len() - 1] == s.last());
        }
        if m > s.len() {
            assert(led[m - 1] == behind[m - 1 - s.len()]);
        }
        assert(led.take(m) =~= s);
    }
}

/// Lower case changes the letters `A` to `Z`, each to the letter thirty-two places on, and leaves
/// every other character.
pub proof fn law_lower_case(s: Seq<char>)
    ensures
        ascii_lower(s).len() == s.len(),
        forall|i: int|
            0 <= i < s.len() ==> (#[trigger] ascii_lower(s)[i]) as int == if 65 <= s[i] as int
                <= 90 {
                s[i] as int + 32
            } else {
                s[i] as int
            },
{
}

proof fn lemma_first_at(s: Seq<char>, c: char)
    ensures
        0 <= first_at(s, c) <= s.len(),
        first_at(s, c) < s.len() ==> s[first_at(s, c)] == c,
        forall|i: int| 0 <= i < first_at(s, c) ==> #[trigger] s[i] != c,
    decreases s.len(),
{
    if s.len() > 0 && s[0] != c {
        let rest = s.drop_first();
        lemma_first_at(rest, c);
        assert forall|i: int| 0 <= i < first_at(s, c) implies #[trigger] s[i] != c by {
            if i > 0 {
                assert(s[i] == rest[i - 1]);
            }
        }
    }
}

/// What stands before the first `c` holds no `c`, and is followed by one where it is not the whole
/// text.
pub proof fn law_before_char(s: Seq<char>, c: char)
    ensures
        forall|i: int| 0 <= i < before_char(s, c).len() ==> #[trigger] before_char(s, c)[i] != c,
        before_char(s, c) == s || exists|behind: Seq<char>|
            s == #[trigger] (before_char(s, c).push(c) + behind),
{
    lemma_first_at(s, c);
    let n = first_at(s, c);
    assert forall|i: int| 0 <= i < before_char(s, c).len() implies #[trigger] before_char(s, c)[i]
        != c by {
        assert(before_char(s, c)[i] == s[i]);
    }
    if n < s.len() {
        assert(s =~= before_char(s, c).push(c) + s.skip(n + 1));
    } else {
        assert(before_char(s, c) =~= s);
    }
}

/// A part that holds no `c`, with a `c` behind it, is what stands before the first `c`.
pub proof fn law_before_char_is_found(part: Seq<char>, c: char, behind: Seq<char>)
    requires
        forall|i: int| 0 <= i < part.len() ==> #[trigger] part[i] != c,
    ensures
        before_char(part, c) == part,
        before_char(part.push(c) + behind, c) == part,
{
    lemma_first_at(part, c);
    assert(first_at(part, c) == part.len());
    assert(before_char(part, c) =~= part);
    let whole = part.push(c) + behind;
    lemma_first_at(whole, c);
    let n = first_at(whole, c);
    if n < part.len() {
        assert(whole[n] == part[n]);
    }
    if n > part.len() {
        assert(whole[part.len() as int] == c);
    }
    assert(before_char(whole, c) =~= part);
}

} // verus!
