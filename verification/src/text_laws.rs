//! What the operations on texts come to: what is left of a text that is trimmed,
//! cut, split or put together, and which numbers texts stand for.

use vstd::prelude::*;

use crate::text;

verus! {

/// Trimming takes away the white space at both ends and nothing else: what is left
/// is a stretch of the text that neither begins nor ends with white space, with
/// nothing but that round it.
pub proof fn law_trimming_takes_white_space(s: Seq<char>) -> (r: (int, int))
    ensures
        ({
            let (a, b) = r;
            &&& 0 <= a <= b <= s.len()
            &&& text::trimmed(s) == s.subrange(a, b)
            &&& forall|i: int| 0 <= i < a ==> text::white(#[trigger] s[i])
            &&& forall|i: int| b <= i < s.len() ==> text::white(#[trigger] s[i])
            &&& a < b ==> !text::white(s[a]) && !text::white(s[b - 1])
        }),
{
    let a = lemma_left(s);
    let rest = s.skip(a);
    let n = lemma_right(rest);
    assert(text::trimmed(s) =~= s.subrange(a, a + n));
    assert forall|i: int| a + n <= i < s.len() implies text::white(#[trigger] s[i]) by {
        assert(rest[i - a] == s[i]);
    }
    if n > 0 {
        assert(rest[0] == s[a]);
        assert(rest[n - 1] == s[a + n - 1]);
    }
    (a, a + n)
}

/// Where a text begins once its first white space is gone.
proof fn lemma_left(s: Seq<char>) -> (a: int)
    ensures
        0 <= a <= s.len(),
        text::trim_left(s) == s.skip(a),
        forall|i: int| 0 <= i < a ==> text::white(#[trigger] s[i]),
        a < s.len() ==> !text::white(s[a]),
    decreases s.len(),
{
    if s.len() > 0 && text::white(s[0]) {
        let rest = s.drop_first();
        let a = lemma_left(rest);
        assert(rest.skip(a) =~= s.skip(a + 1));
        assert forall|i: int| 0 <= i < a + 1 implies text::white(#[trigger] s[i]) by {
            if i > 0 {
                assert(rest[i - 1] == s[i]);
            }
        }
        if a < rest.len() {
            assert(rest[a] == s[a + 1]);
        }
        a + 1
    } else {
        assert(s.skip(0) =~= s);
        0
    }
}

/// Where a text ends once its last white space is gone.
proof fn lemma_right(s: Seq<char>) -> (n: int)
    ensures
        0 <= n <= s.len(),
        text::trim_right(s) == s.take(n),
        forall|i: int| n <= i < s.len() ==> text::white(#[trigger] s[i]),
        n > 0 ==> !text::white(s[n - 1]),
    decreases s.len(),
{
    if s.len() > 0 && text::white(s.last()) {
        let front = s.drop_last();
        let n = lemma_right(front);
        assert(front.take(n) =~= s.take(n));
        assert forall|i: int| n <= i < s.len() implies text::white(#[trigger] s[i]) by {
            if i < front.len() {
                assert(front[i] == s[i]);
            }
        }
        if n > 0 {
            assert(front[n - 1] == s[n - 1]);
        }
        n
    } else {
        assert(s.take(s.len() as int) =~= s);
        s.len() as int
    }
}

/// Trimming the end takes away the white space there and nothing else.
pub proof fn law_trimming_the_end(s: Seq<char>) -> (n: int)
    ensures
        0 <= n <= s.len(),
        text::trim_right(s) == s.take(n),
        forall|i: int| n <= i < s.len() ==> text::white(#[trigger] s[i]),
        n > 0 ==> !text::white(s[n - 1]),
{
    lemma_right(s)
}

/// White space is what Unicode calls so: the controls from tab to carriage return,
/// the spaces, and the separators of lines and paragraphs. No letter, digit or sign
/// of ASCII is.
pub proof fn law_white_space_is_what_unicode_calls_so(c: char)
    ensures
        c == ' ' || c == '\t' || c == '\n' || c == '\r' || c == '\u{b}' || c == '\u{c}'
            ==> text::white(c),
        '!' <= c <= '~' ==> !text::white(c),
        c == '\u{85}' || c == '\u{a0}' || c == '\u{1680}' || c == '\u{2028}' || c == '\u{2029}' || c
            == '\u{202f}' || c == '\u{205f}' || c == '\u{3000}' ==> text::white(c),
        '\u{2000}' <= c <= '\u{200a}' ==> text::white(c),
        c == '\u{200b}' || c == '\u{180e}' || c == '\u{feff}' ==> !text::white(c),
{
}

/// Cutting a text gives what stands before the first place of a pattern and what
/// stands behind it; there is nothing to cut where the pattern does not stand.
pub proof fn law_cutting_at_the_first(s: Seq<char>, pat: Seq<char>)
    ensures
        match text::cut(s, pat) {
            Some((a, b)) => s == a + pat + b && forall|i: int|
                0 <= i < a.len() ==> #[trigger] s.subrange(i, i + pat.len()) != pat,
            None => forall|i: int|
                0 <= i && i + pat.len() <= s.len() ==> #[trigger] s.subrange(i, i + pat.len())
                    != pat,
        },
{
    text::lemma_find_from(s, pat, 0);
    if let Some(i) = text::find_seq(s, pat) {
        assert(s =~= s.take(i) + s.subrange(i, i + pat.len()) + s.skip(i + pat.len()));
        assert forall|k: int| 0 <= k < i implies #[trigger] s.subrange(k, k + pat.len()) != pat by {
            assert(!text::occurs_at(s, pat, k));
        }
    } else {
        assert forall|i: int| 0 <= i && i + pat.len() <= s.len() implies #[trigger] s.subrange(
            i,
            i + pat.len(),
        ) != pat by {
            assert(!text::occurs_at(s, pat, i));
        }
    }
}

/// A text is found at its last place.
pub proof fn law_last_place_is_the_last(s: Seq<char>, pat: Seq<char>)
    ensures
        match text::rfind_seq(s, pat) {
            Some(i) => 0 <= i && i + pat.len() <= s.len() && s.subrange(i, i + pat.len()) == pat
                && forall|k: int|
                i < k && k + pat.len() <= s.len() ==> #[trigger] s.subrange(k, k + pat.len())
                    != pat,
            None => forall|k: int|
                0 <= k && k + pat.len() <= s.len() ==> #[trigger] s.subrange(k, k + pat.len())
                    != pat,
        },
{
    text::lemma_rfind_from(s, pat, s.len() - pat.len());
    let r = text::rfind_seq(s, pat);
    assert forall|k: int|
        (r is None || r->0 < k) && 0 <= k && k + pat.len() <= s.len() implies #[trigger] s.subrange(
        k,
        k + pat.len(),
    ) != pat by {
        assert(!text::occurs_at(s, pat, k));
    }
}

/// A text begins with what its first characters are and ends with what its last
/// are; what is left without them makes up the text with them.
pub proof fn law_beginnings_and_ends(s: Seq<char>, pat: Seq<char>)
    ensures
        text::begins(s, pat) <==> exists|rest: Seq<char>| #[trigger] (pat + rest) == s,
        text::ends(s, pat) <==> exists|rest: Seq<char>| #[trigger] (rest + pat) == s,
        text::after_prefix(s, pat) matches Some(rest) ==> pat + rest == s,
        text::after_prefix(s, pat) is None <==> !text::begins(s, pat),
        text::before_suffix(s, pat) matches Some(rest) ==> rest + pat == s,
        text::before_suffix(s, pat) is None <==> !text::ends(s, pat),
{
    let n = pat.len() as int;
    if text::begins(s, pat) {
        assert(s.subrange(0, n) == pat);
        assert(pat + s.skip(n) =~= s);
    }
    if exists|rest: Seq<char>| #[trigger] (pat + rest) == s {
        let rest = choose|rest: Seq<char>| #[trigger] (pat + rest) == s;
        assert(s.subrange(0, n) =~= pat);
    }
    if text::ends(s, pat) {
        assert(s.subrange(s.len() - n, s.len() as int) == pat);
        assert(s.take(s.len() - n) + pat =~= s);
    }
    if exists|rest: Seq<char>| #[trigger] (rest + pat) == s {
        let rest = choose|rest: Seq<char>| #[trigger] (rest + pat) == s;
        assert(s.subrange(s.len() - n, s.len() as int) =~= pat);
    }
}

/// The pieces of a text make it up with the pattern between them, and the pattern
/// stands in none of them.
pub proof fn law_pieces_make_up_the_text(s: Seq<char>, pat: Seq<char>)
    requires
        pat.len() > 0,
    ensures
        text::pieces(s, pat).len() > 0,
        text::joined(text::pieces(s, pat), pat) == s,
        forall|i: int|
            0 <= i < text::pieces(s, pat).len() ==> text::find_seq(
                #[trigger] text::pieces(s, pat)[i],
                pat,
            ) is None,
    decreases s.len(),
{
    let all = text::pieces(s, pat);
    text::lemma_find_from(s, pat, 0);
    match text::find_seq(s, pat) {
        Some(i) => {
            let first = s.take(i);
            let rest = s.skip(i + pat.len());
            let more = text::pieces(rest, pat);
            law_pieces_make_up_the_text(rest, pat);
            assert(all == seq![first] + more);
            lemma_joined_first(first, more, pat);
            assert(s =~= first + s.subrange(i, i + pat.len()) + rest);
            text::lemma_find_from(first, pat, 0);
            if let Some(k) = text::find_seq(first, pat) {
                assert(first.subrange(k, k + pat.len()) =~= s.subrange(k, k + pat.len()));
                assert(text::occurs_at(s, pat, k));
            }
            assert forall|j: int| 0 <= j < all.len() implies text::find_seq(
                #[trigger] all[j],
                pat,
            ) is None by {
                if j > 0 {
                    assert(all[j] == more[j - 1]);
                }
            }
        },
        None => {
            assert(all[0] == s);
        },
    }
}

/// Joining with one more part in front.
proof fn lemma_joined_first(first: Seq<char>, more: Seq<Seq<char>>, sep: Seq<char>)
    requires
        more.len() > 0,
    ensures
        text::joined(seq![first] + more, sep) == first + sep + text::joined(more, sep),
    decreases more.len(),
{
    let all = seq![first] + more;
    if more.len() == 1 {
        assert(all.drop_last() =~= seq![first]);
        assert(all.last() == more[0]);
        assert(text::joined(all.drop_last(), sep) == first);
    } else {
        let front = more.drop_last();
        lemma_joined_first(first, front, sep);
        assert(all.drop_last() =~= seq![first] + front);
        assert(all.last() == more.last());
        assert(first + sep + text::joined(front, sep) + sep + more.last() =~= first + sep + (
        text::joined(front, sep) + sep + more.last()));
    }
}

/// Parts are joined with the separator between any two, and nowhere else.
pub proof fn law_joining(first: Seq<char>, more: Seq<Seq<char>>, sep: Seq<char>)
    ensures
        text::joined(Seq::empty(), sep) == Seq::<char>::empty(),
        text::joined(seq![first], sep) == first,
        more.len() > 0 ==> text::joined(seq![first] + more, sep) == first + sep + text::joined(
            more,
            sep,
        ),
{
    if more.len() > 0 {
        lemma_joined_first(first, more, sep);
    }
}

/// The words of a text hold no white space and are not empty; one behind the other
/// they are all that is in the text but its white space.
pub proof fn law_words_are_what_is_not_white(s: Seq<char>)
    ensures
        forall|i: int| 0 <= i < text::words(s).len() ==> (#[trigger] text::words(s)[i]).len() > 0,
        forall|i: int, k: int|
            0 <= i < text::words(s).len() && 0 <= k < text::words(s)[i].len() ==> !text::white(
                #[trigger] text::words(s)[i][k],
            ),
        text::words(s).flatten() == s.filter(|c: char| !text::white(c)),
    decreases s.len(),
{
    let keep = |c: char| !text::white(c);
    if s.len() == 0 {
        reveal(Seq::filter);
        assert(text::words(s).flatten() =~= s.filter(keep));
    } else if text::white(s[0]) {
        let rest = s.drop_first();
        law_words_are_what_is_not_white(rest);
        assert(s =~= seq![s[0]] + rest);
        lemma_filter_first(s[0], rest, keep);
    } else {
        text::lemma_word_len(s);
        let n = text::word_len(s);
        let word = s.take(n);
        let rest = s.skip(n);
        law_words_are_what_is_not_white(rest);
        let all = text::words(s);
        let more = text::words(rest);
        assert(all == seq![word] + more);
        assert forall|i: int| 0 <= i < all.len() implies (#[trigger] all[i]).len() > 0 by {
            if i > 0 {
                assert(all[i] == more[i - 1]);
            }
        }
        assert forall|i: int, k: int| 0 <= i < all.len() && 0 <= k < all[i].len() implies !text::white(
            #[trigger] all[i][k],
        ) by {
            if i > 0 {
                assert(all[i] == more[i - 1]);
                assert(!text::white(more[i - 1][k]));
            } else {
                assert(word[k] == s[k]);
            }
        }
        assert(all.drop_first() =~= more);
        assert(all.first() == word);
        assert(s =~= word + rest);
        lemma_filter_whole(word, rest, keep);
        assert forall|i: int| 0 <= i < word.len() implies keep(#[trigger] word[i]) by {
            assert(word[i] == s[i]);
        }
    }
}

/// A word ends where white space stands, and nowhere else; white space before a
/// word does not count.
pub proof fn law_words_end_at_white_space(word: Seq<char>, c: char, rest: Seq<char>)
    requires
        word.len() > 0,
        forall|i: int| 0 <= i < word.len() ==> !text::white(#[trigger] word[i]),
        text::white(c),
    ensures
        text::words(word + seq![c] + rest) == seq![word] + text::words(rest),
        text::words(seq![c] + rest) == text::words(rest),
        text::words(word) == seq![word],
{
    let s = word + seq![c] + rest;
    let n = word.len() as int;
    let t = seq![c] + rest;
    assert(t.drop_first() =~= rest);
    text::lemma_word_len(s);
    let k = text::word_len(s);
    assert(s[n] == c);
    if k < n {
        assert(s[k] == word[k]);
    }
    if k > n {
        assert(!text::white(s[n]));
    }
    assert(k == n);
    assert(s[0] == word[0]);
    assert(s.take(n) =~= word);
    assert(s.skip(n) =~= t);
    assert(t[0] == c);
    assert(text::words(t) == text::words(rest));
    assert(text::words(s) == seq![s.take(n)] + text::words(s.skip(n)));
    text::lemma_word_len(word);
    let m = text::word_len(word);
    assert(word.take(n) =~= word);
    assert(word.skip(n) =~= Seq::empty());
    assert(text::words(Seq::<char>::empty()) =~= Seq::empty());
    assert(text::words(word) =~= seq![word]);
}

/// A first character that is not kept does not count.
proof fn lemma_filter_first(c: char, rest: Seq<char>, keep: spec_fn(char) -> bool)
    requires
        !keep(c),
    ensures
        (seq![c] + rest).filter(keep) == rest.filter(keep),
    decreases rest.len(),
{
    reveal(Seq::filter);
    if rest.len() == 0 {
        assert((seq![c] + rest).drop_last() =~= Seq::empty());
        assert((seq![c] + rest).last() == c);
        assert((seq![c] + rest).drop_last().filter(keep) =~= Seq::empty());
        assert(rest.filter(keep) =~= Seq::empty());
    } else {
        lemma_filter_first(c, rest.drop_last(), keep);
        assert((seq![c] + rest).drop_last() =~= seq![c] + rest.drop_last());
        assert((seq![c] + rest).last() == rest.last());
    }
}

/// First characters that are all kept stay in front.
proof fn lemma_filter_whole(word: Seq<char>, rest: Seq<char>, keep: spec_fn(char) -> bool)
    ensures
        (forall|i: int| 0 <= i < word.len() ==> keep(#[trigger] word[i])) ==> (word + rest).filter(
            keep,
        ) == word + rest.filter(keep),
    decreases rest.len(),
{
    reveal(Seq::filter);
    if rest.len() == 0 {
        assert(word + rest =~= word);
        assert(rest.filter(keep) =~= Seq::empty());
        assert(word + rest.filter(keep) =~= word);
        lemma_filter_all(word, keep);
    } else {
        lemma_filter_whole(word, rest.drop_last(), keep);
        assert((word + rest).drop_last() =~= word + rest.drop_last());
        assert((word + rest).last() == rest.last());
        let before = rest.drop_last().filter(keep);
        assert(word + before.push(rest.last()) =~= (word + before).push(rest.last()));
    }
}

/// Characters that are all kept stay as they are.
proof fn lemma_filter_all(word: Seq<char>, keep: spec_fn(char) -> bool)
    ensures
        (forall|i: int| 0 <= i < word.len() ==> keep(#[trigger] word[i])) ==> word.filter(keep)
            == word,
    decreases word.len(),
{
    reveal(Seq::filter);
    if word.len() > 0 && (forall|i: int| 0 <= i < word.len() ==> keep(#[trigger] word[i])) {
        let front = word.drop_last();
        assert forall|i: int| 0 <= i < front.len() implies keep(#[trigger] front[i]) by {
            assert(keep(word[i]));
        }
        lemma_filter_all(front, keep);
        assert(keep(word[word.len() - 1]));
        assert(front.push(word.last()) =~= word);
    } else if word.len() == 0 {
        assert(word.filter(keep) =~= word);
    }
}

/// A number is written in digits that stand for it, without a zero in front, and is
/// read back from them; a plus in front is passed over.
pub proof fn law_numbers_are_read_as_written(n: u64)
    ensures
        text::all_digits(text::decimal(n as nat)),
        n > 0 ==> text::decimal(n as nat)[0] != '0',
        text::u64_of(text::decimal(n as nat)) == Some(n),
        text::u64_of(seq!['+'] + text::decimal(n as nat)) == Some(n),
{
    text::lemma_u64_of_decimal(n);
    text::lemma_decimal_value(n as nat);
    lemma_no_zero(n as nat);
    let d = text::decimal(n as nat);
    let p = seq!['+'] + d;
    assert(p.skip(1) =~= d);
    assert(p[0] == '+');
}

/// No number but zero begins with a zero.
proof fn lemma_no_zero(n: nat)
    ensures
        text::decimal(n).len() > 0,
        n > 0 ==> text::decimal(n)[0] != '0',
    decreases n,
{
    if n >= 10 {
        lemma_no_zero(n / 10);
    }
}

/// Whether a text is digits from first to last.
pub open spec fn is_digits(s: Seq<char>) -> bool {
    s.len() > 0 && forall|i: int| 0 <= i < s.len() ==> '0' <= #[trigger] s[i] <= '9'
}

/// What follows a plus, or all.
pub open spec fn without_plus(s: Seq<char>) -> Seq<char> {
    if s.len() > 0 && s[0] == '+' {
        s.skip(1)
    } else {
        s
    }
}

/// A text stands for a number only where it is made of digits, with a plus before
/// them or none, and the number is not too large.
pub proof fn law_only_digits_stand_for_numbers(s: Seq<char>)
    ensures
        text::u64_of(s) is Some <==> is_digits(without_plus(s)) && text::digits_value(
            without_plus(s),
        ) <= u64::MAX,
        text::u32_of(s) is Some <==> is_digits(without_plus(s)) && text::digits_value(
            without_plus(s),
        ) <= u32::MAX,
        text::u64_of(s) is Some ==> text::u64_of(s)->0 == text::digits_value(without_plus(s)),
        text::u32_of(s) is Some ==> text::u32_of(s)->0 == text::digits_value(without_plus(s)),
{
    let digits = without_plus(s);
    assert(text::unsigned_digits(s) == digits);
    if text::all_digits(digits) {
        assert forall|i: int| 0 <= i < digits.len() implies '0' <= #[trigger] digits[i] <= '9' by {
            assert(text::is_digit(digits[i]));
        }
    }
    if is_digits(digits) {
        assert forall|i: int| 0 <= i < digits.len() implies text::is_digit(
            #[trigger] digits[i],
        ) by {}
    }
    assert(is_digits(digits) <==> text::all_digits(digits));
}

/// Texts are in the order of their first characters that differ; one that ends
/// before the other comes first.
pub proof fn law_order_of_texts(a: Seq<char>, b: Seq<char>, i: int)
    requires
        0 <= i <= a.len(),
        i <= b.len(),
        a.take(i) == b.take(i),
    ensures
        i < a.len() && i < b.len() && a[i] != b[i] ==> (text::precedes(a, b) <==> a[i] < b[i]),
        i == a.len() && i < b.len() ==> text::precedes(a, b),
        i == b.len() ==> !text::precedes(a, b),
    decreases a.len(),
{
    if i > 0 {
        assert(a.take(i)[0] == a[0]);
        assert(b.take(i)[0] == b[0]);
        let x = a.drop_first();
        let y = b.drop_first();
        assert forall|k: int| 0 <= k < i - 1 implies #[trigger] x[k] == y[k] by {
            assert(a.take(i)[k + 1] == a[k + 1]);
            assert(b.take(i)[k + 1] == b[k + 1]);
        }
        assert(x.take(i - 1) =~= y.take(i - 1));
        law_order_of_texts(x, y, i - 1);
    }
}

} // verus!
