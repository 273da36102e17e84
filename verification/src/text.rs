//! Text as sequences of characters: searching, splitting, trimming, numbers.
//!
//! Every function here is stated over `Seq<char>`, the view of `str` and
//! `String`. Positions count characters, not bytes.

use vstd::prelude::*;
use vstd::string::*;

verus! {

// ---------------------------------------------------------------------------
// What the functions compute
// ---------------------------------------------------------------------------

/// `pat` stands in `s` at position `i`.
pub open spec fn occurs_at(s: Seq<char>, pat: Seq<char>, i: int) -> bool {
    0 <= i && i + pat.len() <= s.len() && s.subrange(i, i + pat.len()) == pat
}

/// The first position at or after `from` where `pat` stands.
pub open spec fn find_from(s: Seq<char>, pat: Seq<char>, from: int) -> Option<int>
    decreases s.len() - from + 1,
{
    if from < 0 || from + pat.len() > s.len() {
        None
    } else if occurs_at(s, pat, from) {
        Some(from)
    } else {
        find_from(s, pat, from + 1)
    }
}

/// The first position where `pat` stands.
pub open spec fn find_seq(s: Seq<char>, pat: Seq<char>) -> Option<int> {
    find_from(s, pat, 0)
}

/// The last position at or before `at` where `pat` stands.
pub open spec fn rfind_from(s: Seq<char>, pat: Seq<char>, at: int) -> Option<int>
    decreases at + 1,
{
    if at < 0 {
        None
    } else if occurs_at(s, pat, at) {
        Some(at)
    } else {
        rfind_from(s, pat, at - 1)
    }
}

/// The last position where `pat` stands.
pub open spec fn rfind_seq(s: Seq<char>, pat: Seq<char>) -> Option<int> {
    rfind_from(s, pat, s.len() - pat.len())
}

/// `s` begins with `pat`.
pub open spec fn begins(s: Seq<char>, pat: Seq<char>) -> bool {
    occurs_at(s, pat, 0)
}

/// `s` ends with `pat`.
pub open spec fn ends(s: Seq<char>, pat: Seq<char>) -> bool {
    occurs_at(s, pat, s.len() - pat.len())
}

/// What follows the prefix `pat`, if `s` begins with it.
pub open spec fn after_prefix(s: Seq<char>, pat: Seq<char>) -> Option<Seq<char>> {
    if begins(s, pat) {
        Some(s.skip(pat.len() as int))
    } else {
        None
    }
}

/// What precedes the suffix `pat`, if `s` ends with it.
pub open spec fn before_suffix(s: Seq<char>, pat: Seq<char>) -> Option<Seq<char>> {
    if ends(s, pat) {
        Some(s.take(s.len() - pat.len()))
    } else {
        None
    }
}

/// `s` cut at the first `pat`: what comes before it and what comes after.
pub open spec fn cut(s: Seq<char>, pat: Seq<char>) -> Option<(Seq<char>, Seq<char>)> {
    match find_seq(s, pat) {
        Some(i) => Some((s.take(i), s.skip(i + pat.len()))),
        None => None,
    }
}

/// The inside of `s` when it starts with `open` and, after that, ends with
/// `close`.
pub open spec fn between(s: Seq<char>, open: char, close: char) -> Option<Seq<char>> {
    match after_prefix(s, seq![open]) {
        Some(rest) => before_suffix(rest, seq![close]),
        None => None,
    }
}

/// The characters with the Unicode property White_Space.
pub open spec fn white(c: char) -> bool {
    ||| '\u{9}' <= c <= '\u{d}'
    ||| c == ' '
    ||| c == '\u{85}'
    ||| c == '\u{a0}'
    ||| c == '\u{1680}'
    ||| '\u{2000}' <= c <= '\u{200a}'
    ||| c == '\u{2028}'
    ||| c == '\u{2029}'
    ||| c == '\u{202f}'
    ||| c == '\u{205f}'
    ||| c == '\u{3000}'
}

/// `s` without its leading white space.
pub open spec fn trim_left(s: Seq<char>) -> Seq<char>
    decreases s.len(),
{
    if s.len() > 0 && white(s[0]) {
        trim_left(s.drop_first())
    } else {
        s
    }
}

/// `s` without its trailing white space.
pub open spec fn trim_right(s: Seq<char>) -> Seq<char>
    decreases s.len(),
{
    if s.len() > 0 && white(s.last()) {
        trim_right(s.drop_last())
    } else {
        s
    }
}

/// `s` without leading and trailing white space.
pub open spec fn trimmed(s: Seq<char>) -> Seq<char> {
    trim_right(trim_left(s))
}

/// `s` without its trailing characters out of `set`.
pub open spec fn trim_right_of(s: Seq<char>, set: Seq<char>) -> Seq<char>
    decreases s.len(),
{
    if s.len() > 0 && set.contains(s.last()) {
        trim_right_of(s.drop_last(), set)
    } else {
        s
    }
}

/// The pieces of `s` between the occurrences of `pat`, left to right.
pub open spec fn pieces(s: Seq<char>, pat: Seq<char>) -> Seq<Seq<char>>
    decreases s.len(),
{
    match find_seq(s, pat) {
        Some(i) => if 0 <= i && 0 < pat.len() && i + pat.len() <= s.len() {
            seq![s.take(i)] + pieces(s.skip(i + pat.len()), pat)
        } else {
            seq![s]
        },
        None => seq![s],
    }
}

/// How many characters of `s` come before the first white space.
pub open spec fn word_len(s: Seq<char>) -> int
    decreases s.len(),
{
    if s.len() == 0 || white(s[0]) {
        0
    } else {
        1 + word_len(s.drop_first())
    }
}

/// The words of `s`: the runs of characters between white space.
pub open spec fn words(s: Seq<char>) -> Seq<Seq<char>>
    decreases s.len(),
{
    if s.len() == 0 {
        seq![]
    } else if white(s[0]) {
        words(s.drop_first())
    } else {
        let n = word_len(s);
        if 0 < n <= s.len() {
            seq![s.take(n)] + words(s.skip(n))
        } else {
            seq![]
        }
    }
}

/// A line without the carriage return that ends it, if one does.
pub open spec fn without_cr(s: Seq<char>) -> Seq<char> {
    if s.len() > 0 && s.last() == '\r' {
        s.drop_last()
    } else {
        s
    }
}

/// The lines of `s`: what the line feeds end, and what follows the last one
/// unless that is empty; a carriage return before a line feed belongs to the
/// line's end.
pub open spec fn line_seq(s: Seq<char>) -> Seq<Seq<char>>
    decreases s.len(),
{
    if s.len() == 0 {
        seq![]
    } else {
        match find_seq(s, seq!['\n']) {
            Some(i) => if 0 <= i < s.len() {
                seq![without_cr(s.take(i))] + line_seq(s.skip(i + 1))
            } else {
                seq![s]
            },
            None => seq![s],
        }
    }
}

/// An ASCII digit.
pub open spec fn is_digit(c: char) -> bool {
    '0' <= c <= '9'
}

/// An ASCII letter or digit.
pub open spec fn is_alnum(c: char) -> bool {
    is_digit(c) || ('a' <= c <= 'z') || ('A' <= c <= 'Z')
}

/// One or more digits.
pub open spec fn all_digits(s: Seq<char>) -> bool {
    s.len() > 0 && forall|i: int| 0 <= i < s.len() ==> is_digit(#[trigger] s[i])
}

/// The number that a run of digits denotes in base ten.
pub open spec fn digits_value(s: Seq<char>) -> nat
    decreases s.len(),
{
    if s.len() == 0 {
        0
    } else {
        (digits_value(s.drop_last()) * 10 + (s.last() as int - '0' as int)) as nat
    }
}

/// The digits of an unsigned number text, past an optional plus sign.
pub open spec fn unsigned_digits(s: Seq<char>) -> Seq<char> {
    if s.len() > 0 && s[0] == '+' {
        s.skip(1)
    } else {
        s
    }
}

/// The unsigned number that `s` denotes, if it denotes one up to `max`.
pub open spec fn number_up_to(s: Seq<char>, max: nat) -> Option<nat> {
    let d = unsigned_digits(s);
    if all_digits(d) && digits_value(d) <= max {
        Some(digits_value(d))
    } else {
        None
    }
}

/// The `u64` that `s` denotes, if it denotes one.
pub open spec fn u64_of(s: Seq<char>) -> Option<u64> {
    match number_up_to(s, u64::MAX as nat) {
        Some(n) => Some(n as u64),
        None => None,
    }
}

/// The `u32` that `s` denotes, if it denotes one.
pub open spec fn u32_of(s: Seq<char>) -> Option<u32> {
    match number_up_to(s, u32::MAX as nat) {
        Some(n) => Some(n as u32),
        None => None,
    }
}

/// The character of a digit below ten.
pub open spec fn digit_char(d: nat) -> char {
    (d + '0' as nat) as char
}

/// `n` in base ten, without leading zeros.
pub open spec fn decimal(n: nat) -> Seq<char>
    decreases n,
{
    if n < 10 {
        seq![digit_char(n)]
    } else {
        decimal(n / 10).push(digit_char(n % 10))
    }
}

/// A signed number in base ten.
pub open spec fn signed_decimal(n: int) -> Seq<char> {
    if n < 0 {
        seq!['-'] + decimal((-n) as nat)
    } else {
        decimal(n as nat)
    }
}

/// `parts` in order, with `sep` between neighbours.
pub open spec fn joined(parts: Seq<Seq<char>>, sep: Seq<char>) -> Seq<char>
    decreases parts.len(),
{
    if parts.len() == 0 {
        seq![]
    } else if parts.len() == 1 {
        parts[0]
    } else {
        joined(parts.drop_last(), sep) + sep + parts.last()
    }
}

/// `s` with every occurrence of `pat`, left to right, replaced by `with`.
pub open spec fn replaced(s: Seq<char>, pat: Seq<char>, with: Seq<char>) -> Seq<char> {
    joined(pieces(s, pat), with)
}

/// The views of a run of string slices.
pub open spec fn views(v: Seq<&str>) -> Seq<Seq<char>> {
    v.map_values(|s: &str| s@)
}

/// The views of a run of strings.
pub open spec fn texts(v: Seq<String>) -> Seq<Seq<char>> {
    v.map_values(|s: String| s@)
}

/// The view of an optional string.
pub open spec fn opt_text(o: Option<String>) -> Option<Seq<char>> {
    match o {
        Some(s) => Some(s@),
        None => None,
    }
}

/// The view of an optional string slice.
pub open spec fn opt_str(o: Option<&str>) -> Option<Seq<char>> {
    match o {
        Some(s) => Some(s@),
        None => None,
    }
}

/// The view of an optional pair of string slices.
pub open spec fn opt_pair(o: Option<(&str, &str)>) -> Option<(Seq<char>, Seq<char>)> {
    match o {
        Some(p) => Some((p.0@, p.1@)),
        None => None,
    }
}

/// The view of an optional position.
pub open spec fn opt_index(o: Option<usize>) -> Option<int> {
    match o {
        Some(i) => Some(i as int),
        None => None,
    }
}

/// `a` comes before `b` in the order of character codes.
pub open spec fn precedes(a: Seq<char>, b: Seq<char>) -> bool
    decreases a.len(),
{
    if b.len() == 0 {
        false
    } else if a.len() == 0 {
        true
    } else if a[0] == b[0] {
        precedes(a.drop_first(), b.drop_first())
    } else {
        a[0] < b[0]
    }
}

// ---------------------------------------------------------------------------
// Facts about them
// ---------------------------------------------------------------------------

/// A position found is the first one: `pat` stands there and nowhere between
/// `from` and it; nothing found means that it stands nowhere from `from` on.
pub proof fn lemma_find_from(s: Seq<char>, pat: Seq<char>, from: int)
    requires
        0 <= from,
    ensures
        match find_from(s, pat, from) {
            Some(i) => from <= i && occurs_at(s, pat, i) && forall|j: int|
                from <= j < i ==> !occurs_at(s, pat, j),
            None => forall|j: int| from <= j ==> !occurs_at(s, pat, j),
        },
    decreases s.len() - from + 1,
{
    if from + pat.len() <= s.len() && !occurs_at(s, pat, from) {
        lemma_find_from(s, pat, from + 1);
    }
}

/// The first position where `pat` stands is the only one that has it and none
/// before it.
pub proof fn lemma_find_is(s: Seq<char>, pat: Seq<char>, i: int)
    requires
        occurs_at(s, pat, i),
        forall|j: int| 0 <= j < i ==> !occurs_at(s, pat, j),
    ensures
        find_seq(s, pat) == Some(i),
{
    lemma_find_from(s, pat, 0);
}

/// A position found from the right is the last one.
pub proof fn lemma_rfind_from(s: Seq<char>, pat: Seq<char>, at: int)
    ensures
        match rfind_from(s, pat, at) {
            Some(i) => i <= at && occurs_at(s, pat, i) && forall|j: int|
                i < j <= at ==> !occurs_at(s, pat, j),
            None => forall|j: int| j <= at ==> !occurs_at(s, pat, j),
        },
    decreases at + 1,
{
    if at >= 0 && !occurs_at(s, pat, at) {
        lemma_rfind_from(s, pat, at - 1);
    }
}

/// One character stands where the text holds it.
pub proof fn lemma_occurs_char(s: Seq<char>, c: char, i: int)
    ensures
        occurs_at(s, seq![c], i) <==> (0 <= i < s.len() && s[i] == c),
{
    if 0 <= i < s.len() {
        if s[i] == c {
            assert(s.subrange(i, i + 1) =~= seq![c]);
        } else {
            assert(s.subrange(i, i + 1)[0] != seq![c][0]);
        }
    }
}

/// Trimming on the left drops a prefix of white space.
pub proof fn lemma_trim_left(s: Seq<char>)
    ensures
        trim_left(s).len() <= s.len(),
        trim_left(s) == s.skip(s.len() - trim_left(s).len()),
        trim_left(s).len() > 0 ==> !white(trim_left(s)[0]),
    decreases s.len(),
{
    if s.len() > 0 && white(s[0]) {
        lemma_trim_left(s.drop_first());
        assert(s.drop_first().skip(s.len() - 1 - trim_left(s).len()) =~= s.skip(
            s.len() - trim_left(s).len(),
        ));
    } else {
        assert(s.skip(0) =~= s);
    }
}

/// Trimming on the right drops a suffix of white space.
pub proof fn lemma_trim_right(s: Seq<char>)
    ensures
        trim_right(s).len() <= s.len(),
        trim_right(s) == s.take(trim_right(s).len() as int),
        trim_right(s).len() > 0 ==> !white(trim_right(s).last()),
    decreases s.len(),
{
    if s.len() > 0 && white(s.last()) {
        lemma_trim_right(s.drop_last());
        assert(s.drop_last().take(trim_right(s).len() as int) =~= s.take(
            trim_right(s).len() as int,
        ));
    } else {
        assert(s.take(s.len() as int) =~= s);
    }
}

/// What neither starts nor ends with white space is left as it is.
pub proof fn lemma_trim_nothing(s: Seq<char>)
    requires
        s.len() > 0 ==> !white(s[0]) && !white(s.last()),
    ensures
        trimmed(s) == s,
{
}

/// Trimming on the right stops at what is no white space.
pub proof fn lemma_trim_right_stops(s: Seq<char>, i: int)
    requires
        0 <= i < s.len(),
        !white(s[i]),
    ensures
        trim_right(s).len() > i,
    decreases s.len(),
{
    if white(s.last()) {
        lemma_trim_right_stops(s.drop_last(), i);
    }
}

/// Where a text does not end with white space, or something is left behind it,
/// only what is behind it is trimmed on the right.
pub proof fn lemma_trim_right_tail(a: Seq<char>, b: Seq<char>)
    requires
        (a.len() > 0 && !white(a.last())) || trim_right(b).len() > 0,
    ensures
        trim_right(a + b) == a + trim_right(b),
    decreases b.len(),
{
    if b.len() == 0 {
        assert(a + b =~= a);
    } else if white(b.last()) {
        assert((a + b).drop_last() =~= a + b.drop_last());
        lemma_trim_right_tail(a, b.drop_last());
    }
}

/// Where something is left of a text that is trimmed on the left, what follows
/// it stays.
pub proof fn lemma_trim_left_head(a: Seq<char>, b: Seq<char>)
    ensures
        trim_left(a).len() > 0 ==> trim_left(a + b) == trim_left(a) + b,
        trim_left(a).len() == 0 ==> trim_left(a + b) == trim_left(b),
    decreases a.len(),
{
    if a.len() == 0 {
        assert(a + b =~= b);
    } else if white(a[0]) {
        assert((a + b).drop_first() =~= a.drop_first() + b);
        lemma_trim_left_head(a.drop_first(), b);
    }
}

/// A text that ends with white space is trimmed like what comes before.
proof fn lemma_trimmed_drop_last(s: Seq<char>)
    requires
        s.len() > 0,
        white(s.last()),
    ensures
        trimmed(s) == trimmed(s.drop_last()),
    decreases s.len(),
{
    let t = s.drop_last();
    if white(s[0]) {
        if s.len() > 1 {
            assert(s.drop_first().drop_last() =~= t.drop_first());
            lemma_trimmed_drop_last(s.drop_first());
        } else {
            assert(s.drop_first() =~= t);
        }
    } else {
        assert(s.len() > 1);
        assert(trim_left(t) == t);
    }
}

/// Trimming on the right first changes nothing.
pub proof fn lemma_trimmed_trim_right(s: Seq<char>)
    ensures
        trimmed(trim_right(s)) == trimmed(s),
    decreases s.len(),
{
    if s.len() > 0 && white(s.last()) {
        lemma_trimmed_drop_last(s);
        lemma_trimmed_trim_right(s.drop_last());
    }
}

/// A carriage return at the end is trimmed like other white space.
pub proof fn lemma_trimmed_without_cr(s: Seq<char>)
    ensures
        trimmed(without_cr(s)) == trimmed(s),
{
    if s.len() > 0 && s.last() == '\r' {
        lemma_trimmed_drop_last(s);
    }
}

/// The word at the head of a text holds no white space and is as long as it
/// can be.
pub proof fn lemma_word_len(s: Seq<char>)
    ensures
        0 <= word_len(s) <= s.len(),
        forall|i: int| 0 <= i < word_len(s) ==> !white(#[trigger] s[i]),
        word_len(s) < s.len() ==> white(s[word_len(s)]),
    decreases s.len(),
{
    if s.len() > 0 && !white(s[0]) {
        lemma_word_len(s.drop_first());
        assert forall|i: int| 0 <= i < word_len(s) implies !white(#[trigger] s[i]) by {
            if i > 0 {
                assert(s.drop_first()[i - 1] == s[i]);
            }
        }
        if word_len(s) < s.len() {
            assert(s.drop_first()[word_len(s) - 1] == s[word_len(s)]);
        }
    }
}

/// A prefix of a run of digits denotes no more than the whole.
pub proof fn lemma_digits_grow(s: Seq<char>, n: int)
    requires
        0 <= n <= s.len(),
        forall|i: int| 0 <= i < s.len() ==> is_digit(#[trigger] s[i]),
    ensures
        digits_value(s.take(n)) <= digits_value(s),
    decreases s.len() - n,
{
    if n == s.len() {
        assert(s.take(n) =~= s);
    } else {
        lemma_digits_grow(s, n + 1);
        assert(s.take(n + 1).drop_last() =~= s.take(n));
        assert(s.take(n + 1).last() == s[n]);
    }
}

/// Writing a number and reading it back gives the number.
pub proof fn lemma_decimal_value(n: nat)
    ensures
        all_digits(decimal(n)),
        digits_value(decimal(n)) == n,
        decimal(n)[0] != '+',
    decreases n,
{
    if n < 10 {
        let s = decimal(n);
        assert(s.drop_last() =~= Seq::<char>::empty());
        assert(digits_value(s.drop_last()) == 0);
    } else {
        lemma_decimal_value(n / 10);
        let s = decimal(n);
        assert(s.drop_last() =~= decimal(n / 10));
        assert forall|i: int| 0 <= i < s.len() implies is_digit(#[trigger] s[i]) by {
            if i < s.len() - 1 {
                assert(s[i] == decimal(n / 10)[i]);
            }
        }
        assert(s[0] == decimal(n / 10)[0]);
    }
}

/// A number's own text denotes it.
pub proof fn lemma_u64_of_decimal(n: u64)
    ensures
        u64_of(decimal(n as nat)) == Some(n),
{
    lemma_decimal_value(n as nat);
}

/// A number's own text denotes it, for the smaller type.
pub proof fn lemma_u32_of_decimal(n: u32)
    ensures
        u32_of(decimal(n as nat)) == Some(n),
{
    lemma_decimal_value(n as nat);
}

/// Digits are not white space.
pub proof fn lemma_digit_not_white(c: char)
    ensures
        is_digit(c) ==> !white(c),
{
}

/// Of two different texts, exactly one comes before the other.
pub proof fn lemma_precedes_total(a: Seq<char>, b: Seq<char>)
    ensures
        precedes(a, b) ==> !precedes(b, a) && a != b,
        !precedes(a, b) && !precedes(b, a) ==> a == b,
    decreases a.len(),
{
    if a.len() > 0 && b.len() > 0 && a[0] == b[0] {
        lemma_precedes_total(a.drop_first(), b.drop_first());
        if a.drop_first() == b.drop_first() {
            assert(a =~= seq![a[0]] + a.drop_first());
            assert(b =~= seq![b[0]] + b.drop_first());
        }
    } else if a.len() == 0 && b.len() == 0 {
        assert(a =~= b);
    }
}

/// The order of texts is transitive.
pub proof fn lemma_precedes_trans(a: Seq<char>, b: Seq<char>, c: Seq<char>)
    requires
        precedes(a, b),
        precedes(b, c),
    ensures
        precedes(a, c),
    decreases a.len(),
{
    if a.len() > 0 && b.len() > 0 && c.len() > 0 && a[0] == b[0] && b[0] == c[0] {
        lemma_precedes_trans(a.drop_first(), b.drop_first(), c.drop_first());
    }
}

/// Joining one part more puts a separator before it.
pub proof fn lemma_joined_push(parts: Seq<Seq<char>>, sep: Seq<char>, p: Seq<char>)
    ensures
        parts.len() > 0 ==> joined(parts.push(p), sep) == joined(parts, sep) + sep + p,
        parts.len() == 0 ==> joined(parts.push(p), sep) == p,
{
    assert(parts.push(p).drop_last() =~= parts);
}

/// Where `pat` stands nowhere before `n`, the search may begin at `n`.
pub proof fn lemma_find_none_before(s: Seq<char>, pat: Seq<char>, n: int)
    requires
        0 <= n,
        forall|j: int| 0 <= j < n ==> !occurs_at(s, pat, j),
    ensures
        find_seq(s, pat) == find_from(s, pat, n),
{
    lemma_find_from(s, pat, 0);
    lemma_find_from(s, pat, n);
}

/// Where `pat` stands nowhere before the end of `a`, the search in `a + t` is
/// the search in `t`.
pub proof fn lemma_find_past(a: Seq<char>, t: Seq<char>, pat: Seq<char>)
    requires
        forall|j: int| 0 <= j < a.len() ==> !occurs_at(a + t, pat, j),
    ensures
        match find_seq(t, pat) {
            Some(i) => find_seq(a + t, pat) == Some(i + a.len()),
            None => find_seq(a + t, pat) is None,
        },
{
    let s = a + t;
    lemma_find_none_before(s, pat, a.len() as int);
    lemma_find_shift(s, pat, a.len() as int, a.len() as int);
    assert(s.skip(a.len() as int) =~= t);
}

/// The first occurrence of a character is known from the text before it.
pub proof fn lemma_find_char_at(a: Seq<char>, c: char, t: Seq<char>)
    requires
        forall|j: int| 0 <= j < a.len() ==> a[j] != c,
    ensures
        find_seq(a + seq![c] + t, seq![c]) == Some(a.len() as int),
        cut(a + seq![c] + t, seq![c]) == Some((a, t)),
{
    let s = a + seq![c] + t;
    assert forall|j: int| 0 <= j < a.len() implies !occurs_at(s, seq![c], j) by {
        lemma_occurs_char(s, c, j);
        assert(s[j] == a[j]);
    }
    lemma_occurs_char(s, c, a.len() as int);
    lemma_find_is(s, seq![c], a.len() as int);
    assert(s.take(a.len() as int) =~= a);
    assert(s.skip((a.len() + 1) as int) =~= t);
}

/// A character that a text does not hold is not found in it.
pub proof fn lemma_find_char_none(s: Seq<char>, c: char)
    requires
        forall|j: int| 0 <= j < s.len() ==> s[j] != c,
    ensures
        find_seq(s, seq![c]) is None,
{
    lemma_find_from(s, seq![c], 0);
    if let Some(i) = find_seq(s, seq![c]) {
        lemma_occurs_char(s, c, i);
    }
}

/// Every text has at least one piece.
pub proof fn lemma_pieces_some(s: Seq<char>, pat: Seq<char>)
    ensures
        pieces(s, pat).len() > 0,
{
}

/// Text that `pat` does not stand in goes to the head of the first piece.
pub proof fn lemma_pieces_past(a: Seq<char>, t: Seq<char>, pat: Seq<char>)
    requires
        pat.len() > 0,
        forall|j: int| 0 <= j < a.len() ==> !occurs_at(a + t, pat, j),
    ensures
        pieces(a + t, pat) == seq![a + pieces(t, pat)[0]] + pieces(t, pat).drop_first(),
{
    lemma_find_past(a, t, pat);
    lemma_find_from(t, pat, 0);
    match find_seq(t, pat) {
        Some(i) => {
            assert((a + t).take(i + a.len()) =~= a + t.take(i));
            assert((a + t).skip(i + a.len() + pat.len()) =~= t.skip(i + pat.len()));
            assert(pieces(t, pat) =~= seq![t.take(i)] + pieces(t.skip(i + pat.len()), pat));
            assert(pieces(t, pat).drop_first() =~= pieces(t.skip(i + pat.len()), pat));
        },
        None => {
            assert(pieces(t, pat).drop_first() =~= seq![]);
            assert(seq![a + t] + Seq::<Seq<char>>::empty() =~= seq![a + t]);
        },
    }
}

/// The separator at the head of a text sets off an empty piece.
pub proof fn lemma_pieces_at(t: Seq<char>, pat: Seq<char>)
    requires
        pat.len() > 0,
    ensures
        pieces(pat + t, pat) == seq![Seq::<char>::empty()] + pieces(t, pat),
{
    let s = pat + t;
    assert(s.subrange(0, pat.len() as int) =~= pat);
    assert(find_seq(s, pat) == Some(0int));
    assert(s.take(0) =~= Seq::<char>::empty());
    assert(s.skip(pat.len() as int) =~= t);
}

/// Joining from the front.
pub proof fn lemma_joined_cons(p: Seq<char>, parts: Seq<Seq<char>>, sep: Seq<char>)
    ensures
        parts.len() > 0 ==> joined(seq![p] + parts, sep) == p + sep + joined(parts, sep),
        parts.len() == 0 ==> joined(seq![p] + parts, sep) == p,
    decreases parts.len(),
{
    let all = seq![p] + parts;
    if parts.len() == 0 {
        assert(all[0] == p);
    } else if parts.len() == 1 {
        assert(all.drop_last() =~= seq![p]);
        assert(all.last() == parts[0]);
        assert(joined(seq![p], sep) == p);
    } else {
        lemma_joined_cons(p, parts.drop_last(), sep);
        assert(all.drop_last() =~= seq![p] + parts.drop_last());
        assert(all.last() == parts.last());
        assert(joined(all, sep) =~= p + sep + joined(parts, sep));
    }
}

/// What the first part begins with, the joined text begins with.
pub proof fn lemma_joined_head(a: Seq<char>, parts: Seq<Seq<char>>, sep: Seq<char>)
    requires
        parts.len() > 0,
    ensures
        joined(seq![a + parts[0]] + parts.drop_first(), sep) == a + joined(parts, sep),
{
    let rest = parts.drop_first();
    lemma_joined_cons(a + parts[0], rest, sep);
    lemma_joined_cons(parts[0], rest, sep);
    assert(seq![parts[0]] + rest =~= parts);
    if rest.len() > 0 {
        assert((a + parts[0]) + sep + joined(rest, sep) =~= a + (parts[0] + sep + joined(
            rest,
            sep,
        )));
    }
}

/// Replacing leaves text that `pat` does not stand in.
pub proof fn lemma_replaced_past(a: Seq<char>, t: Seq<char>, pat: Seq<char>, with: Seq<char>)
    requires
        pat.len() > 0,
        forall|j: int| 0 <= j < a.len() ==> !occurs_at(a + t, pat, j),
    ensures
        replaced(a + t, pat, with) == a + replaced(t, pat, with),
{
    lemma_pieces_past(a, t, pat);
    lemma_pieces_some(t, pat);
    lemma_joined_head(a, pieces(t, pat), with);
}

/// Replacing replaces what `pat` stands at.
pub proof fn lemma_replaced_at(t: Seq<char>, pat: Seq<char>, with: Seq<char>)
    requires
        pat.len() > 0,
    ensures
        replaced(pat + t, pat, with) == with + replaced(t, pat, with),
{
    lemma_pieces_at(t, pat);
    lemma_pieces_some(t, pat);
    lemma_joined_cons(Seq::<char>::empty(), pieces(t, pat), with);
    assert(Seq::<char>::empty() + with =~= with);
}

// ---------------------------------------------------------------------------
// The functions
// ---------------------------------------------------------------------------

/// `String::push`: appends the character to the end of the string.
pub assume_specification[ String::push ](s: &mut String, c: char)
    ensures
        final(s)@ == old(s)@.push(c),
;

/// What `str::to_lowercase` makes of a text.
pub uninterp spec fn lowercase(s: Seq<char>) -> Seq<char>;

/// `str::to_lowercase`: the lowercase equivalent of the text by the Unicode
/// properties, which depends on the text alone.
#[verifier::external_body]
pub(crate) fn to_lowercase(s: &str) -> (r: String)
    ensures
        r@ == lowercase(s@),
{
    s.to_lowercase()
}

/// The characters of `s`, in order.
pub fn chars_of(s: &str) -> (out: Vec<char>)
    ensures
        out@ == s@,
{
    let mut out: Vec<char> = Vec::new();
    for c in it: s.chars()
        invariant
            it.seq() == s@,
            out@ == s@.take(it.index()),
    {
        out.push(c);
    }
    out
}

/// The part of `s` from character `a` up to character `b`.
pub fn slice<'a>(s: &'a str, a: usize, b: usize) -> (r: &'a str)
    requires
        a <= b <= s@.len(),
    ensures
        r@ == s@.subrange(a as int, b as int),
{
    s.substring_char(a, b)
}

/// Whether `pat` stands in `s` at position `i`.
fn occurs(s: &Vec<char>, pat: &Vec<char>, i: usize) -> (r: bool)
    ensures
        r == occurs_at(s@, pat@, i as int),
{
    if pat.len() > s.len() || i > s.len() - pat.len() {
        return false;
    }
    let mut k: usize = 0;
    while k < pat.len()
        invariant
            i + pat.len() <= s.len(),
            k <= pat.len(),
            s@.subrange(i as int, i + k) == pat@.take(k as int),
        decreases pat.len() - k,
    {
        if s[i + k] != pat[k] {
            assert(s@.subrange(i as int, i + pat.len())[k as int] != pat@[k as int]);
            return false;
        }
        assert(s@.subrange(i as int, i + k + 1) =~= pat@.take(k + 1));
        k += 1;
    }
    assert(pat@.take(k as int) =~= pat@);
    true
}

/// The first position at or after `from` where `pat` stands in `s`.
pub fn find_chars(s: &Vec<char>, pat: &Vec<char>, from: usize) -> (r: Option<usize>)
    ensures
        opt_index(r) == find_from(s@, pat@, from as int),
        r matches Some(i) ==> i + pat@.len() <= s@.len() <= usize::MAX,
{
    if pat.len() > s.len() || from > s.len() - pat.len() {
        return None;
    }
    let last: usize = s.len() - pat.len();
    let mut i: usize = from;
    loop
        invariant
            i <= last,
            last + pat.len() == s.len(),
            find_from(s@, pat@, from as int) == find_from(s@, pat@, i as int),
        decreases last - i,
    {
        if occurs(s, pat, i) {
            return Some(i);
        }
        if i == last {
            assert(find_from(s@, pat@, i + 1) is None);
            return None;
        }
        i += 1;
    }
}

/// The first position where `pat` stands in `s`: `str::find`, in characters.
pub fn find(s: &str, pat: &str) -> (r: Option<usize>)
    ensures
        opt_index(r) == find_seq(s@, pat@),
        r matches Some(i) ==> i + pat@.len() <= s@.len() <= usize::MAX,
{
    find_chars(&chars_of(s), &chars_of(pat), 0)
}

/// The last position where `pat` stands in `s`: `str::rfind`, in characters.
pub fn rfind(s: &str, pat: &str) -> (r: Option<usize>)
    ensures
        opt_index(r) == rfind_seq(s@, pat@),
        r matches Some(i) ==> i + pat@.len() <= s@.len() <= usize::MAX,
{
    let cs = chars_of(s);
    let ps = chars_of(pat);
    if ps.len() > cs.len() {
        assert(rfind_from(s@, pat@, s@.len() - pat@.len()) is None);
        return None;
    }
    let mut i: usize = cs.len() - ps.len();
    loop
        invariant
            cs@ == s@,
            ps@ == pat@,
            i + ps.len() <= cs.len(),
            rfind_seq(s@, pat@) == rfind_from(s@, pat@, i as int),
        decreases i,
    {
        if occurs(&cs, &ps, i) {
            return Some(i);
        }
        if i == 0 {
            assert(rfind_from(s@, pat@, -1) is None);
            return None;
        }
        i -= 1;
    }
}

/// Whether `pat` stands anywhere in `s`.
pub fn contains(s: &str, pat: &str) -> (r: bool)
    ensures
        r == find_seq(s@, pat@) is Some,
{
    find(s, pat).is_some()
}

/// Whether two texts hold the same characters.
pub fn same(a: &str, b: &str) -> (r: bool)
    ensures
        r == (a@ == b@),
{
    let x = chars_of(a);
    let y = chars_of(b);
    if x.len() != y.len() {
        return false;
    }
    let r = occurs(&x, &y, 0);
    assert(a@.subrange(0, a@.len() as int) =~= a@);
    r
}

/// Whether an optional text is the given one.
pub fn is_some_text(a: &Option<String>, b: &str) -> (r: bool)
    ensures
        r == (opt_text(*a) == Some(b@)),
{
    match a {
        Some(s) => same(s.as_str(), b),
        None => false,
    }
}

/// Whether `s` begins with `pat`.
pub fn starts_with(s: &str, pat: &str) -> (r: bool)
    ensures
        r == begins(s@, pat@),
        r ==> pat@.len() <= s@.len(),
{
    occurs(&chars_of(s), &chars_of(pat), 0)
}

/// Whether `s` ends with `pat`.
pub fn ends_with(s: &str, pat: &str) -> (r: bool)
    ensures
        r == ends(s@, pat@),
        r ==> pat@.len() <= s@.len(),
{
    let cs = chars_of(s);
    let ps = chars_of(pat);
    ps.len() <= cs.len() && occurs(&cs, &ps, cs.len() - ps.len())
}

/// What follows the prefix `pat` of `s`.
pub fn strip_prefix<'a>(s: &'a str, pat: &str) -> (r: Option<&'a str>)
    ensures
        opt_str(r) == after_prefix(s@, pat@),
{
    if starts_with(s, pat) {
        let n: usize = s.unicode_len();
        let k: usize = pat.unicode_len();
        assert(s@.subrange(k as int, n as int) =~= s@.skip(k as int));
        Some(slice(s, k, n))
    } else {
        None
    }
}

/// What precedes the suffix `pat` of `s`.
pub fn strip_suffix<'a>(s: &'a str, pat: &str) -> (r: Option<&'a str>)
    ensures
        opt_str(r) == before_suffix(s@, pat@),
{
    if ends_with(s, pat) {
        let n: usize = s.unicode_len();
        let k: usize = pat.unicode_len();
        assert(s@.subrange(0, n - k) =~= s@.take(n - k));
        Some(slice(s, 0, n - k))
    } else {
        None
    }
}

/// `s` cut at the first `pat`: `str::split_once`.
pub fn split_once<'a>(s: &'a str, pat: &str) -> (r: Option<(&'a str, &'a str)>)
    ensures
        opt_pair(r) == cut(s@, pat@),
{
    match find(s, pat) {
        Some(i) => {
            let n: usize = s.unicode_len();
            let k: usize = i + pat.unicode_len();
            assert(s@.subrange(0, i as int) =~= s@.take(i as int));
            assert(s@.subrange(k as int, n as int) =~= s@.skip(k as int));
            Some((slice(s, 0, i), slice(s, k, n)))
        },
        None => None,
    }
}

/// The inside of `s` between one character at its start and one at its end.
pub fn unwrap_in<'a>(s: &'a str, open: char, close: char) -> (r: Option<&'a str>)
    ensures
        opt_str(r) == between(s@, open, close),
{
    let cs = chars_of(s);
    proof {
        lemma_occurs_char(s@, open, 0);
        if begins(s@, seq![open]) {
            lemma_occurs_char(s@.skip(1), close, s@.len() - 2);
        }
    }
    if cs.len() >= 2 && cs[0] == open && cs[cs.len() - 1] == close {
        assert(s@.subrange(1, s@.len() - 1) =~= s@.skip(1).take(s@.len() - 2));
        Some(slice(s, 1, cs.len() - 1))
    } else {
        None
    }
}

/// Whether `c` has the Unicode property White_Space.
pub fn is_white(c: char) -> (r: bool)
    ensures
        r == white(c),
{
    ('\u{9}' <= c && c <= '\u{d}') || c == ' ' || c == '\u{85}' || c == '\u{a0}' || c
        == '\u{1680}' || ('\u{2000}' <= c && c <= '\u{200a}') || c == '\u{2028}' || c
        == '\u{2029}' || c == '\u{202f}' || c == '\u{205f}' || c == '\u{3000}'
}

/// How many characters of `s` are leading white space.
fn leading_white(s: &Vec<char>) -> (lo: usize)
    ensures
        lo <= s@.len(),
        trim_left(s@) == s@.skip(lo as int),
{
    let mut lo: usize = 0;
    assert(s@.skip(0) =~= s@);
    while lo < s.len() && is_white(s[lo])
        invariant
            lo <= s.len(),
            trim_left(s@) == trim_left(s@.skip(lo as int)),
        decreases s.len() - lo,
    {
        assert(s@.skip(lo as int).drop_first() =~= s@.skip(lo + 1));
        lo += 1;
    }
    lo
}

/// Where the trailing white space of `s`, seen from `lo` on, begins.
fn trailing_white(s: &Vec<char>, lo: usize) -> (hi: usize)
    requires
        lo <= s@.len(),
    ensures
        lo <= hi <= s@.len(),
        trim_right(s@.skip(lo as int)) == s@.subrange(lo as int, hi as int),
{
    let mut hi: usize = s.len();
    assert(s@.subrange(lo as int, hi as int) =~= s@.skip(lo as int));
    while lo < hi && is_white(s[hi - 1])
        invariant
            lo <= hi <= s.len(),
            trim_right(s@.skip(lo as int)) == trim_right(s@.subrange(lo as int, hi as int)),
        decreases hi,
    {
        assert(s@.subrange(lo as int, hi as int).drop_last() =~= s@.subrange(lo as int, hi - 1));
        hi -= 1;
    }
    hi
}

/// `s` without leading and trailing white space: `str::trim`.
pub fn trim<'a>(s: &'a str) -> (r: &'a str)
    ensures
        r@ == trimmed(s@),
{
    let cs = chars_of(s);
    let lo: usize = leading_white(&cs);
    let hi: usize = trailing_white(&cs, lo);
    slice(s, lo, hi)
}

/// `s` without leading white space: `str::trim_start`.
pub fn trim_start<'a>(s: &'a str) -> (r: &'a str)
    ensures
        r@ == trim_left(s@),
{
    let cs = chars_of(s);
    let lo: usize = leading_white(&cs);
    assert(s@.subrange(lo as int, s@.len() as int) =~= s@.skip(lo as int));
    slice(s, lo, cs.len())
}

/// `s` without trailing white space: `str::trim_end`.
pub fn trim_end<'a>(s: &'a str) -> (r: &'a str)
    ensures
        r@ == trim_right(s@),
{
    let cs = chars_of(s);
    let hi: usize = trailing_white(&cs, 0);
    assert(s@.skip(0) =~= s@);
    slice(s, 0, hi)
}

/// Whether `set` holds `c`.
fn holds(set: &Vec<char>, c: char) -> (r: bool)
    ensures
        r == set@.contains(c),
{
    let mut i: usize = 0;
    while i < set.len()
        invariant
            i <= set.len(),
            forall|k: int| 0 <= k < i ==> set@[k] != c,
        decreases set.len() - i,
    {
        if set[i] == c {
            return true;
        }
        i += 1;
    }
    false
}

/// `s` without its trailing characters out of `set`: `str::trim_end_matches`.
pub fn trim_end_of<'a>(s: &'a str, set: &str) -> (r: &'a str)
    ensures
        r@ == trim_right_of(s@, set@),
{
    let cs = chars_of(s);
    let ks = chars_of(set);
    let mut hi: usize = cs.len();
    assert(s@.take(hi as int) =~= s@);
    while 0 < hi && holds(&ks, cs[hi - 1])
        invariant
            cs@ == s@,
            ks@ == set@,
            hi <= cs.len(),
            trim_right_of(s@, set@) == trim_right_of(s@.take(hi as int), set@),
        decreases hi,
    {
        assert(s@.take(hi as int).drop_last() =~= s@.take(hi - 1));
        hi -= 1;
    }
    assert(s@.subrange(0, hi as int) =~= s@.take(hi as int));
    slice(s, 0, hi)
}

/// The pieces of `s` between the occurrences of `pat`: `str::split`.
pub fn split<'a>(s: &'a str, pat: &str) -> (out: Vec<&'a str>)
    requires
        pat@.len() > 0,
    ensures
        views(out@) == pieces(s@, pat@),
{
    let cs = chars_of(s);
    let ps = chars_of(pat);
    let mut out: Vec<&'a str> = Vec::new();
    let mut start: usize = 0;
    assert(s@.skip(0) =~= s@);
    assert(views(out@) + pieces(s@, pat@) =~= pieces(s@, pat@));
    loop
        invariant
            cs@ == s@,
            ps@ == pat@,
            pat@.len() > 0,
            start <= s@.len(),
            pieces(s@, pat@) == views(out@) + pieces(s@.skip(start as int), pat@),
        decreases cs.len() - start,
    {
        let ghost rest = s@.skip(start as int);
        proof {
            lemma_find_shift(s@, pat@, start as int, start as int);
        }
        match find_chars(&cs, &ps, start) {
            Some(i) => {
                let piece = slice(s, start, i);
                let ghost before = out@;
                out.push(piece);
                proof {
                    assert(piece@ =~= rest.take(i - start));
                    assert(rest.skip(i - start + pat@.len()) =~= s@.skip(i + pat@.len()));
                    assert(views(out@) =~= views(before).push(piece@));
                    assert(views(before) + (seq![piece@] + pieces(s@.skip(i + pat@.len()), pat@))
                        =~= views(out@) + pieces(s@.skip(i + pat@.len()), pat@));
                }
                start = i + ps.len();
            },
            None => {
                let piece = slice(s, start, cs.len());
                let ghost before = out@;
                out.push(piece);
                proof {
                    assert(piece@ =~= rest);
                    assert(views(out@) =~= views(before) + seq![piece@]);
                }
                return out;
            },
        }
    }
}

/// Searching in what follows `base` is searching in the whole from there.
pub proof fn lemma_find_shift(s: Seq<char>, pat: Seq<char>, base: int, from: int)
    requires
        0 <= base <= from,
        base <= s.len(),
    ensures
        match find_from(s, pat, from) {
            Some(i) => find_from(s.skip(base), pat, from - base) == Some(i - base) && from <= i
                && i + pat.len() <= s.len(),
            None => find_from(s.skip(base), pat, from - base) is None,
        },
    decreases s.len() - from + 1,
{
    let t = s.skip(base);
    if from + pat.len() <= s.len() {
        assert(t.subrange(from - base, from - base + pat.len()) =~= s.subrange(
            from,
            from + pat.len(),
        ));
        if !occurs_at(s, pat, from) {
            lemma_find_shift(s, pat, base, from + 1);
        }
    }
}

/// The words of `s`: `str::split_whitespace`.
pub fn split_words<'a>(s: &'a str) -> (out: Vec<&'a str>)
    ensures
        views(out@) == words(s@),
{
    let cs = chars_of(s);
    let mut out: Vec<&'a str> = Vec::new();
    let mut i: usize = 0;
    assert(s@.skip(0) =~= s@);
    assert(views(out@) + words(s@) =~= words(s@));
    while i < cs.len()
        invariant
            cs@ == s@,
            i <= cs.len(),
            words(s@) == views(out@) + words(s@.skip(i as int)),
        decreases cs.len() - i,
    {
        let ghost rest = s@.skip(i as int);
        if is_white(cs[i]) {
            assert(rest.drop_first() =~= s@.skip(i + 1));
            i += 1;
        } else {
            let mut j: usize = i;
            assert(s@.skip(j as int) =~= rest);
            while j < cs.len() && !is_white(cs[j])
                invariant
                    cs@ == s@,
                    i <= j <= cs.len(),
                    rest == s@.skip(i as int),
                    word_len(rest) == (j - i) + word_len(s@.skip(j as int)),
                decreases cs.len() - j,
            {
                assert(s@.skip(j as int).drop_first() =~= s@.skip(j + 1));
                j += 1;
            }
            let word = slice(s, i, j);
            let ghost before = out@;
            out.push(word);
            proof {
                assert(word_len(rest) == j - i);
                assert(word@ =~= rest.take(j - i));
                assert(rest.skip(j - i) =~= s@.skip(j as int));
                assert(rest[0] == cs@[i as int]);
                assert(views(out@) =~= views(before).push(word@));
                assert(views(before) + (seq![word@] + words(s@.skip(j as int))) =~= views(out@)
                    + words(s@.skip(j as int)));
            }
            i = j;
        }
    }
    assert(views(out@) + words(s@.skip(i as int)) =~= views(out@));
    out
}

/// The lines of `s`: `str::lines`.
pub fn lines<'a>(s: &'a str) -> (out: Vec<&'a str>)
    ensures
        views(out@) == line_seq(s@),
{
    let cs = chars_of(s);
    let mut nl: Vec<char> = Vec::new();
    nl.push('\n');
    assert(nl@ =~= seq!['\n']);
    let mut out: Vec<&'a str> = Vec::new();
    let mut start: usize = 0;
    assert(s@.skip(0) =~= s@);
    assert(views(out@) + line_seq(s@) =~= line_seq(s@));
    while start < cs.len()
        invariant
            cs@ == s@,
            nl@ == seq!['\n'],
            start <= cs.len(),
            line_seq(s@) == views(out@) + line_seq(s@.skip(start as int)),
        decreases cs.len() - start,
    {
        let ghost rest = s@.skip(start as int);
        let ghost before = out@;
        proof {
            lemma_find_shift(s@, seq!['\n'], start as int, start as int);
        }
        match find_chars(&cs, &nl, start) {
            Some(i) => {
                let end: usize = if start < i && cs[i - 1] == '\r' {
                    i - 1
                } else {
                    i
                };
                let line = slice(s, start, end);
                out.push(line);
                proof {
                    assert(rest.take(i - start).len() == i - start);
                    if start < i {
                        assert(rest.take(i - start).last() == cs@[i - 1]);
                    }
                    assert(line@ =~= without_cr(rest.take(i - start)));
                    assert(rest.skip(i - start + 1) =~= s@.skip(i + 1));
                    assert(views(out@) =~= views(before).push(line@));
                    assert(views(before) + (seq![line@] + line_seq(s@.skip(i + 1))) =~= views(out@)
                        + line_seq(s@.skip(i + 1)));
                }
                start = i + 1;
            },
            None => {
                let line = slice(s, start, cs.len());
                out.push(line);
                proof {
                    assert(line@ =~= rest);
                    assert(views(out@) =~= views(before) + seq![line@]);
                }
                return out;
            },
        }
    }
    assert(views(out@) + line_seq(s@.skip(start as int)) =~= views(out@));
    out
}

/// The unsigned number up to `max` that `s` denotes.
pub fn parse_up_to(s: &str, max: u64) -> (r: Option<u64>)
    ensures
        r matches Some(n) ==> number_up_to(s@, max as nat) == Some(n as nat),
        r is None ==> number_up_to(s@, max as nat) is None,
{
    let cs = chars_of(s);
    let first: usize = if cs.len() > 0 && cs[0] == '+' {
        1
    } else {
        0
    };
    let ghost d = unsigned_digits(s@);
    assert(s@.skip(0) =~= s@);
    assert(d == s@.skip(first as int));
    if first == cs.len() {
        return None;
    }
    let mut i: usize = first;
    let mut value: u64 = 0;
    assert(d.take(0) =~= Seq::<char>::empty());
    while i < cs.len()
        invariant
            cs@ == s@,
            first <= i <= cs.len(),
            d == s@.skip(first as int),
            d == unsigned_digits(s@),
            forall|k: int| 0 <= k < i - first ==> is_digit(#[trigger] d[k]),
            value == digits_value(d.take(i - first)),
            value <= max,
        decreases cs.len() - i,
    {
        let c = cs[i];
        assert(d[i - first] == c);
        if c < '0' || c > '9' {
            return None;
        }
        let digit: u64 = (c as u32 - '0' as u32) as u64;
        proof {
            assert(d.take(i - first + 1).drop_last() =~= d.take(i - first));
            assert(d.take(i - first + 1).last() == c);
            assert(digits_value(d.take(i - first + 1)) == value * 10 + digit);
        }
        if digit > max || value > max / 10 || value * 10 > max - digit {
            proof {
                assert(value * 10 + digit > max) by {
                    if value > max / 10 {
                        assert(value * 10 > max) by (nonlinear_arith)
                            requires
                                value > max / 10,
                        ;
                    }
                }
                if all_digits(d) {
                    lemma_digits_grow(d, i - first + 1);
                }
            }
            return None;
        }
        value = value * 10 + digit;
        i += 1;
    }
    assert(d.take(i - first) =~= d);
    Some(value)
}

/// The `u64` that `s` denotes: `str::parse::<u64>`.
pub fn parse_u64(s: &str) -> (r: Option<u64>)
    ensures
        r == u64_of(s@),
{
    parse_up_to(s, u64::MAX)
}

/// The `u32` that `s` denotes: `str::parse::<u32>`.
pub fn parse_u32(s: &str) -> (r: Option<u32>)
    ensures
        r == u32_of(s@),
{
    match parse_up_to(s, 4294967295) {
        Some(n) => Some(n as u32),
        None => None,
    }
}

/// The character of a digit below ten.
fn digit(d: u64) -> (c: char)
    requires
        d < 10,
    ensures
        c == digit_char(d as nat),
{
    let byte: u8 = d as u8 + 48;
    byte as char
}

/// `n` in base ten: `u64::to_string`.
pub fn number(n: u64) -> (s: String)
    ensures
        s@ == decimal(n as nat),
    decreases n,
{
    let mut s = if n < 10 {
        String::new()
    } else {
        number(n / 10)
    };
    s.push(digit(n % 10));
    assert(n < 10 ==> s@ =~= seq![digit_char(n as nat)]);
    s
}

/// `n` in base ten: `u128::to_string`.
pub fn wide_number(n: u128) -> (s: String)
    ensures
        s@ == decimal(n as nat),
    decreases n,
{
    let mut s = if n < 10 {
        String::new()
    } else {
        wide_number(n / 10)
    };
    s.push(digit((n % 10) as u64));
    assert(n < 10 ==> s@ =~= seq![digit_char(n as nat)]);
    s
}

/// `n` in base ten, with its sign: `i64::to_string`.
pub fn signed_number(n: i64) -> (s: String)
    ensures
        s@ == signed_decimal(n as int),
{
    if n < 0 {
        let mut s = String::new();
        s.push('-');
        let magnitude: u64 = if n == i64::MIN {
            9223372036854775808
        } else {
            (-n) as u64
        };
        let digits = number(magnitude);
        s.append(digits.as_str());
        assert(s@ =~= seq!['-'] + decimal((-n) as nat));
        s
    } else {
        number(n as u64)
    }
}

/// `parts` in order, with `sep` between neighbours: `[&str]::join`.
pub fn join(parts: &Vec<&str>, sep: &str) -> (out: String)
    ensures
        out@ == joined(views(parts@), sep@),
{
    let mut out = String::new();
    let mut i: usize = 0;
    assert(views(parts@.take(0)) =~= Seq::<Seq<char>>::empty());
    while i < parts.len()
        invariant
            i <= parts.len(),
            out@ == joined(views(parts@.take(i as int)), sep@),
        decreases parts.len() - i,
    {
        proof {
            lemma_joined_push(views(parts@.take(i as int)), sep@, parts@[i as int]@);
            assert(views(parts@.take(i + 1)) =~= views(parts@.take(i as int)).push(
                parts@[i as int]@,
            ));
        }
        if i > 0 {
            out.append(sep);
        }
        let ghost before = out@;
        out.append(parts[i]);
        assert(i == 0 ==> before + parts@[0]@ =~= parts@[0]@);
        i += 1;
    }
    assert(parts@.take(i as int) =~= parts@);
    out
}

/// `parts` in order, with `sep` between neighbours: `[String]::join`.
pub fn join_texts(parts: &Vec<String>, sep: &str) -> (out: String)
    ensures
        out@ == joined(texts(parts@), sep@),
{
    let mut out = String::new();
    let mut i: usize = 0;
    assert(texts(parts@.take(0)) =~= Seq::<Seq<char>>::empty());
    while i < parts.len()
        invariant
            i <= parts.len(),
            out@ == joined(texts(parts@.take(i as int)), sep@),
        decreases parts.len() - i,
    {
        proof {
            lemma_joined_push(texts(parts@.take(i as int)), sep@, parts@[i as int]@);
            assert(texts(parts@.take(i + 1)) =~= texts(parts@.take(i as int)).push(
                parts@[i as int]@,
            ));
        }
        if i > 0 {
            out.append(sep);
        }
        let ghost before = out@;
        out.append(parts[i].as_str());
        assert(i == 0 ==> before + parts@[0]@ =~= parts@[0]@);
        i += 1;
    }
    assert(parts@.take(i as int) =~= parts@);
    out
}

/// `s` with every occurrence of `pat` replaced by `with`: `str::replace`.
pub fn replace(s: &str, pat: &str, with: &str) -> (out: String)
    requires
        pat@.len() > 0,
    ensures
        out@ == replaced(s@, pat@, with@),
{
    let parts = split(s, pat);
    join(&parts, with)
}

/// The first `n` characters of `s`, or all of it.
pub fn take_chars<'a>(s: &'a str, n: usize) -> (r: &'a str)
    ensures
        r@ == s@.take(if n <= s@.len() { n as int } else { s@.len() as int }),
{
    let len: usize = s.unicode_len();
    let k: usize = if n <= len {
        n
    } else {
        len
    };
    assert(s@.subrange(0, k as int) =~= s@.take(k as int));
    slice(s, 0, k)
}

/// Whether `a` comes before `b` in the order of character codes, which is the
/// order of `str`.
pub fn before(a: &str, b: &str) -> (r: bool)
    ensures
        r == precedes(a@, b@),
{
    let x = chars_of(a);
    let y = chars_of(b);
    let mut i: usize = 0;
    assert(a@.skip(0) =~= a@);
    assert(b@.skip(0) =~= b@);
    loop
        invariant
            x@ == a@,
            y@ == b@,
            i <= x.len(),
            i <= y.len(),
            precedes(a@, b@) == precedes(a@.skip(i as int), b@.skip(i as int)),
        decreases x.len() - i,
    {
        if i == y.len() {
            return false;
        }
        if i == x.len() {
            return true;
        }
        assert(a@.skip(i as int)[0] == x@[i as int]);
        assert(b@.skip(i as int)[0] == y@[i as int]);
        if x[i] != y[i] {
            return x[i] < y[i];
        }
        assert(a@.skip(i as int).drop_first() =~= a@.skip(i + 1));
        assert(b@.skip(i as int).drop_first() =~= b@.skip(i + 1));
        i += 1;
    }
}

/// An owned copy of a run of strings.
pub fn copy_texts(v: &Vec<String>) -> (out: Vec<String>)
    ensures
        texts(out@) == texts(v@),
{
    let mut out: Vec<String> = Vec::new();
    let mut i: usize = 0;
    while i < v.len()
        invariant
            i <= v.len(),
            texts(out@) == texts(v@.take(i as int)),
        decreases v.len() - i,
    {
        let ghost before = out@;
        out.push(v[i].clone());
        proof {
            assert(texts(out@) =~= texts(before).push(v@[i as int]@));
            assert(texts(v@.take(i + 1)) =~= texts(v@.take(i as int)).push(v@[i as int]@));
        }
        i += 1;
    }
    assert(v@.take(i as int) =~= v@);
    out
}

} // verus!
