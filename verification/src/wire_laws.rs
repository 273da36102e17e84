//! The shared files round-trip: what one pane writes, another reads back.

use vstd::prelude::*;
use vstd::string::*;

use crate::modes::{TodoFilter, TodoSort};
use crate::text;
use crate::wire;
use crate::wire::ViewState;

verus! {

// ---------------------------------------------------------------------------
// Flat objects
// ---------------------------------------------------------------------------

/// A key that can stand between quotes and before a colon.
pub open spec fn plain_key(k: Seq<char>) -> bool {
    k.len() > 0 && forall|i: int| 0 <= i < k.len() ==> #[trigger] k[i] != '"' && k[i] != ':'
}

/// The mark of one key does not stand in a field of another.
proof fn lemma_mark_not_in_field(k: Seq<char>, key: Seq<char>, value: nat, t: Seq<char>)
    requires
        plain_key(k),
        plain_key(key),
        k != key,
    ensures
        forall|j: int|
            0 <= j < wire::field_text(key, value).len() ==> !text::occurs_at(
                wire::field_text(key, value) + t,
                wire::field_mark(k),
                j,
            ),
{
    reveal_strlit("\"");
    reveal_strlit("\":");
    text::lemma_decimal_value(value);
    let f = wire::field_text(key, value);
    let s = f + t;
    let m = wire::field_mark(k);
    let n = key.len() as int;
    let kn = k.len() as int;
    assert(s[0] == '"');
    assert forall|j: int| 1 <= j < 1 + n implies s[j] == key[j - 1] by {}
    assert(s[1 + n] == '"');
    assert(s[2 + n] == ':');
    assert forall|j: int| 3 + n <= j < f.len() implies text::is_digit(s[j]) by {
        assert(s[j] == text::decimal(value)[j - 3 - n]);
    }
    assert(m[0] == '"');
    assert forall|i: int| 1 <= i < 1 + kn implies m[i] == k[i - 1] by {}
    assert(m[1 + kn] == '"');
    assert forall|j: int| 0 <= j < f.len() implies !text::occurs_at(s, m, j) by {
        if text::occurs_at(s, m, j) {
            let w = s.subrange(j, j + m.len());
            assert forall|i: int| 0 <= i < m.len() implies s[j + i] == m[i] by {
                assert(w[i] == s[j + i]);
            }
            assert(s[j + 0] == m[0]);
            if j == 0 {
                assert(s[0 + (1 + kn)] == m[1 + kn]);
                if kn < n {
                    assert(s[1 + kn] == key[kn]);
                } else if kn > n {
                    assert(s[0 + (1 + n)] == m[1 + n]);
                    assert(m[1 + n] == k[n]);
                } else {
                    assert forall|i: int| 0 <= i < n implies k[i] == key[i] by {
                        assert(s[0 + (i + 1)] == m[i + 1]);
                    }
                    assert(k =~= key);
                }
            } else if j == 1 + n {
                assert(s[j + 1] == m[1]);
                assert(m[1] == k[0]);
            } else if j < 1 + n {
                assert(s[j] == key[j - 1]);
            } else if j == 2 + n {
            } else {
                assert(text::is_digit(s[j]));
            }
        }
    }
}

/// A run of digits ends where something else begins.
proof fn lemma_digit_run_is(d: Seq<char>, t: Seq<char>)
    requires
        forall|i: int| 0 <= i < d.len() ==> text::is_digit(#[trigger] d[i]),
        t.len() > 0 ==> !text::is_digit(t[0]),
    ensures
        wire::digit_run(d + t) == d.len(),
    decreases d.len(),
{
    if d.len() == 0 {
        assert(d + t =~= t);
    } else {
        assert((d + t).drop_first() =~= d.drop_first() + t);
        assert forall|i: int| 0 <= i < d.drop_first().len() implies text::is_digit(
            #[trigger] d.drop_first()[i],
        ) by {
            assert(d.drop_first()[i] == d[i + 1]);
        }
        lemma_digit_run_is(d.drop_first(), t);
        assert((d + t)[0] == d[0]);
    }
}

/// The field of a key at the head of a text is read as its value.
proof fn lemma_field_at_head(key: Seq<char>, value: nat, t: Seq<char>)
    requires
        value <= u64::MAX,
        t.len() > 0 ==> !text::is_digit(t[0]),
    ensures
        wire::field_value(wire::field_text(key, value) + t, key) == Some(value as u64),
{
    let s = wire::field_text(key, value) + t;
    let m = wire::field_mark(key);
    let d = text::decimal(value);
    assert(s.subrange(0, m.len() as int) =~= m);
    assert(text::find_seq(s, m) == Some(0int));
    assert(s.skip(m.len() as int) =~= d + t);
    text::lemma_decimal_value(value);
    lemma_digit_run_is(d, t);
    assert((d + t).take(d.len() as int) =~= d);
}

/// Every field of a list of fields is read as its value, whatever ends the
/// list.
proof fn lemma_fields_read(fields: Seq<(Seq<char>, nat)>, i: int, end: Seq<char>)
    requires
        0 <= i < fields.len(),
        forall|j: int| 0 <= j < fields.len() ==> plain_key(#[trigger] fields[j].0),
        forall|j: int, k: int|
            0 <= j < k < fields.len() ==> #[trigger] fields[j].0 != #[trigger] fields[k].0,
        fields[i].1 <= u64::MAX,
        end.len() > 0 ==> !text::is_digit(end[0]),
    ensures
        wire::field_value(wire::fields_text(fields) + end, fields[i].0) == Some(fields[i].1 as u64),
    decreases fields.len(),
{
    reveal_strlit(",");
    let head = fields[0];
    let rest = fields.drop_first();
    let parts = fields.map_values(|f: (Seq<char>, nat)| wire::field_text(f.0, f.1));
    let rest_parts = rest.map_values(|f: (Seq<char>, nat)| wire::field_text(f.0, f.1));
    let here = wire::field_text(head.0, head.1);
    assert(parts =~= seq![here] + rest_parts);
    text::lemma_joined_cons(here, rest_parts, ","@);
    let t = if rest.len() > 0 {
        ","@ + wire::fields_text(rest) + end
    } else {
        end
    };
    assert(wire::fields_text(fields) + end =~= here + t);
    if rest.len() > 0 {
        assert(t[0] == ',');
    }
    if i == 0 {
        lemma_field_at_head(head.0, head.1, t);
    } else {
        assert(rest[i - 1] == fields[i]);
        assert forall|j: int| 0 <= j < rest.len() implies plain_key(#[trigger] rest[j].0) by {
            assert(rest[j] == fields[j + 1]);
        }
        assert forall|j: int, k: int| 0 <= j < k < rest.len() implies #[trigger] rest[j].0
            != #[trigger] rest[k].0 by {
            assert(rest[j] == fields[j + 1]);
            assert(rest[k] == fields[k + 1]);
        }
        lemma_fields_read(rest, i - 1, end);
        let key = fields[i].0;
        let m = wire::field_mark(key);
        let tail = wire::fields_text(rest) + end;
        assert(plain_key(fields[0].0) && plain_key(fields[i].0));
        assert(fields[0].0 != fields[i].0);
        lemma_mark_not_in_field(key, head.0, head.1, t);
        text::lemma_find_past(here, t, m);
        assert(t =~= ","@ + tail);
        reveal_strlit("\"");
        assert(m[0] == '"');
        assert(!text::occurs_at(","@ + tail, m, 0)) by {
            assert((","@ + tail).subrange(0, m.len() as int)[0] == ',' || (","@ + tail).len()
                < m.len());
        }
        text::lemma_find_past(","@, tail, m);
        text::lemma_find_from(tail, m, 0);
        if let Some(p) = text::find_seq(tail, m) {
            assert((here + t).skip(p + 1 + here.len() + m.len()) =~= tail.skip(p + m.len()));
        }
    }
}

/// Every field of a flat object is read as its value.
proof fn lemma_flat_read(f: Seq<(Seq<char>, nat)>, i: int)
    requires
        0 <= i < f.len(),
        forall|j: int| 0 <= j < f.len() ==> plain_key(#[trigger] f[j].0),
        forall|j: int, k: int| 0 <= j < k < f.len() ==> #[trigger] f[j].0 != #[trigger] f[k].0,
        f[i].1 <= u64::MAX,
    ensures
        wire::field_value(wire::flat_text(f), f[i].0) == Some(f[i].1 as u64),
{
    reveal_strlit("{");
    reveal_strlit("}");
    reveal_strlit("\"");
    lemma_fields_read(f, i, "}"@);
    let tail = wire::fields_text(f) + "}"@;
    let m = wire::field_mark(f[i].0);
    assert(wire::flat_text(f) =~= "{"@ + tail);
    assert(m[0] == '"');
    assert(!text::occurs_at("{"@ + tail, m, 0)) by {
        assert(("{"@ + tail).subrange(0, m.len() as int)[0] == '{' || ("{"@ + tail).len()
            < m.len());
    }
    text::lemma_find_past("{"@, tail, m);
    text::lemma_find_from(tail, m, 0);
    if let Some(p) = text::find_seq(tail, m) {
        assert(("{"@ + tail).skip(p + 1 + m.len()) =~= tail.skip(p + m.len()));
    }
}

/// The keys of a view state are plain, and no two are the same.
proof fn lemma_view_keys(v: ViewState)
    ensures
        ({
            let f = wire::view_fields(v);
            &&& forall|j: int| 0 <= j < f.len() ==> plain_key(#[trigger] f[j].0)
            &&& forall|j: int, k: int|
                0 <= j < k < f.len() ==> #[trigger] f[j].0 != #[trigger] f[k].0
        }),
{
    reveal_strlit("cursor");
    reveal_strlit("scroll");
    reveal_strlit("filter");
    reveal_strlit("sort1");
    reveal_strlit("sort2");
    reveal_strlit("help");
    reveal_strlit("seq");
    let f = wire::view_fields(v);
    assert("sort1"@[4] == '1' && "sort2"@[4] == '2');
    assert("cursor"@[0] == 'c');
    assert("scroll"@[0] == 's' && "scroll"@.len() == 6);
    assert("seq"@.len() == 3 && "sort1"@.len() == 5 && "sort2"@.len() == 5);
    assert("filter"@[0] == 'f' && "help"@[0] == 'h');
    assert forall|j: int| 0 <= j < f.len() implies plain_key(#[trigger] f[j].0) by {}
    assert forall|j: int, k: int| 0 <= j < k < f.len() implies #[trigger] f[j].0
        != #[trigger] f[k].0 by {}
}

/// Every field of a published view state is there, with the value that it was
/// written for.
pub proof fn law_view_fields_are_read(v: ViewState)
    ensures
        wire::field_value(wire::view_text(v), "cursor"@) == Some(v.cursor as u64),
        wire::field_value(wire::view_text(v), "scroll"@) == Some(v.scroll as u64),
        wire::field_value(wire::view_text(v), "filter"@) == Some(v.filter.code() as u64),
        wire::field_value(wire::view_text(v), "sort1"@) == Some(v.sort_1.code() as u64),
        wire::field_value(wire::view_text(v), "sort2"@) == Some(v.sort_2.code() as u64),
        wire::field_value(wire::view_text(v), "help"@) == Some(
            if v.show_help {
                1u64
            } else {
                0u64
            },
        ),
        wire::field_value(wire::view_text(v), "seq"@) == Some(v.seq),
{
    let f = wire::view_fields(v);
    lemma_view_keys(v);
    TodoFilter::lemma_code_distinct(v.filter, v.filter);
    TodoSort::lemma_code_distinct(v.sort_1, v.sort_1);
    TodoSort::lemma_code_distinct(v.sort_2, v.sort_2);
    lemma_flat_read(f, 0);
    lemma_flat_read(f, 1);
    lemma_flat_read(f, 2);
    lemma_flat_read(f, 3);
    lemma_flat_read(f, 4);
    lemma_flat_read(f, 5);
    lemma_flat_read(f, 6);
}

/// A list of fields has no field of another key.
proof fn lemma_fields_lack(fields: Seq<(Seq<char>, nat)>, key: Seq<char>)
    requires
        plain_key(key),
        forall|j: int|
            0 <= j < fields.len() ==> plain_key(#[trigger] fields[j].0) && fields[j].0 != key,
    ensures
        text::find_seq(wire::fields_text(fields) + "}"@, wire::field_mark(key)) is None,
    decreases fields.len(),
{
    reveal_strlit(",");
    reveal_strlit("}");
    reveal_strlit("\"");
    reveal_strlit("\":");
    let m = wire::field_mark(key);
    let parts = fields.map_values(|f: (Seq<char>, nat)| wire::field_text(f.0, f.1));
    assert(m[0] == '"' && m.len() > 1);
    text::lemma_find_from("}"@, m, 0);
    if fields.len() == 0 {
        assert(parts =~= seq![]);
        assert(wire::fields_text(fields) + "}"@ =~= "}"@);
    } else {
        let head = fields[0];
        let rest = fields.drop_first();
        let rest_parts = rest.map_values(|f: (Seq<char>, nat)| wire::field_text(f.0, f.1));
        let here = wire::field_text(head.0, head.1);
        assert(parts =~= seq![here] + rest_parts);
        text::lemma_joined_cons(here, rest_parts, ","@);
        assert forall|j: int| 0 <= j < rest.len() implies plain_key(#[trigger] rest[j].0)
            && rest[j].0 != key by {
            assert(rest[j] == fields[j + 1]);
        }
        lemma_fields_lack(rest, key);
        let tail = wire::fields_text(rest) + "}"@;
        let t = if rest.len() > 0 {
            ","@ + tail
        } else {
            "}"@
        };
        assert(wire::fields_text(fields) + "}"@ =~= here + t);
        assert(!text::occurs_at(","@ + tail, m, 0)) by {
            assert((","@ + tail).subrange(0, m.len() as int)[0] == ',' || (","@ + tail).len()
                < m.len());
        }
        text::lemma_find_past(","@, tail, m);
        lemma_mark_not_in_field(key, head.0, head.1, t);
        text::lemma_find_past(here, t, m);
    }
}

/// A published view state has no field but its seven.
pub proof fn law_view_has_no_other_field(v: ViewState, key: Seq<char>)
    requires
        plain_key(key),
        forall|j: int|
            0 <= j < wire::view_fields(v).len() ==> (#[trigger] wire::view_fields(v)[j]).0 != key,
    ensures
        wire::field_value(wire::view_text(v), key) is None,
{
    reveal_strlit("{");
    reveal_strlit("\"");
    let f = wire::view_fields(v);
    let tail = wire::fields_text(f) + "}"@;
    let m = wire::field_mark(key);
    lemma_view_keys(v);
    lemma_fields_lack(f, key);
    assert(wire::flat_text(f) =~= "{"@ + tail);
    assert(m[0] == '"');
    assert(!text::occurs_at("{"@ + tail, m, 0)) by {
        assert(("{"@ + tail).subrange(0, m.len() as int)[0] == '{' || ("{"@ + tail).len()
            < m.len());
    }
    text::lemma_find_past("{"@, tail, m);
}

/// A published view state is read back as it was: every pane that adopts it
/// shows what its writer showed.
pub proof fn law_view_state_round_trip(v: ViewState)
    ensures
        wire::view_in(wire::view_text(v), v),
        forall|w: ViewState| #[trigger] wire::view_in(wire::view_text(v), w) ==> w == v,
{
    law_view_fields_are_read(v);
    vstd::arithmetic::div_mod::lemma_small_mod(v.cursor as nat, (usize::MAX + 1) as nat);
    vstd::arithmetic::div_mod::lemma_small_mod(v.scroll as nat, (usize::MAX + 1) as nat);
    TodoFilter::lemma_code_distinct(v.filter, v.filter);
    TodoSort::lemma_code_distinct(v.sort_1, v.sort_1);
    TodoSort::lemma_code_distinct(v.sort_2, v.sort_2);
    assert forall|w: ViewState| #[trigger] wire::view_in(wire::view_text(v), w) implies w == v by {
        TodoFilter::lemma_code_distinct(v.filter, w.filter);
        TodoSort::lemma_code_distinct(v.sort_1, w.sort_1);
        TodoSort::lemma_code_distinct(v.sort_2, w.sort_2);
    }
}

// ---------------------------------------------------------------------------
// Agent labels
// ---------------------------------------------------------------------------

/// How the label file writes one character.
pub open spec fn escaped_char(c: char) -> Seq<char> {
    if c == '\\' {
        seq!['\\', '\\']
    } else if c == '"' {
        seq!['\\', '"']
    } else {
        seq![c]
    }
}

/// A label, written character by character.
pub open spec fn escaped_each(label: Seq<char>) -> Seq<char>
    decreases label.len(),
{
    if label.len() == 0 {
        seq![]
    } else {
        escaped_char(label[0]) + escaped_each(label.drop_first())
    }
}

/// A label with only its backslashes written twice.
spec fn doubled_each(label: Seq<char>) -> Seq<char>
    decreases label.len(),
{
    if label.len() == 0 {
        seq![]
    } else {
        (if label[0] == '\\' {
            seq!['\\', '\\']
        } else {
            seq![label[0]]
        }) + doubled_each(label.drop_first())
    }
}

/// Replacing in the empty text gives the empty text.
proof fn lemma_replaced_empty(pat: Seq<char>, with: Seq<char>)
    requires
        pat.len() > 0,
    ensures
        text::replaced(seq![], pat, with) == Seq::<char>::empty(),
{
    let e = Seq::<char>::empty();
    assert(text::find_seq(e, pat) is None);
    assert(text::pieces(e, pat) == seq![e]);
}

/// One character that does not begin the pattern is passed over.
proof fn lemma_replaced_char(c: char, t: Seq<char>, pat: Seq<char>, with: Seq<char>)
    requires
        pat.len() > 0,
        pat[0] != c,
    ensures
        text::replaced(seq![c] + t, pat, with) == seq![c] + text::replaced(t, pat, with),
{
    let s = seq![c] + t;
    assert(!text::occurs_at(s, pat, 0)) by {
        if text::occurs_at(s, pat, 0) {
            assert(s.subrange(0, pat.len() as int)[0] == c);
        }
    }
    text::lemma_replaced_past(seq![c], t, pat, with);
}

/// The first replacement of the writer doubles the backslashes.
proof fn lemma_doubled(label: Seq<char>)
    ensures
        text::replaced(label, "\\"@, "\\\\"@) == doubled_each(label),
    decreases label.len(),
{
    reveal_strlit("\\");
    reveal_strlit("\\\\");
    let one = "\\"@;
    let two = "\\\\"@;
    assert(one =~= seq!['\\']);
    assert(two =~= seq!['\\', '\\']);
    if label.len() == 0 {
        assert(label =~= seq![]);
        lemma_replaced_empty(one, two);
    } else {
        let t = label.drop_first();
        lemma_doubled(t);
        assert(label =~= seq![label[0]] + t);
        if label[0] == '\\' {
            text::lemma_replaced_at(t, one, two);
        } else {
            lemma_replaced_char(label[0], t, one, two);
        }
    }
}

/// The second replacement of the writer escapes the quotes.
proof fn lemma_quotes_escaped(label: Seq<char>)
    ensures
        text::replaced(doubled_each(label), "\""@, "\\\""@) == escaped_each(label),
    decreases label.len(),
{
    reveal_strlit("\"");
    reveal_strlit("\\\"");
    let pat = "\""@;
    let with = "\\\""@;
    assert(pat =~= seq!['"']);
    assert(with =~= seq!['\\', '"']);
    if label.len() == 0 {
        lemma_replaced_empty(pat, with);
    } else {
        let t = label.drop_first();
        let d = doubled_each(t);
        lemma_quotes_escaped(t);
        if label[0] == '\\' {
            assert(doubled_each(label) =~= seq!['\\'] + (seq!['\\'] + d));
            lemma_replaced_char('\\', seq!['\\'] + d, pat, with);
            lemma_replaced_char('\\', d, pat, with);
            assert(seq!['\\'] + (seq!['\\'] + escaped_each(t)) =~= escaped_each(label));
        } else if label[0] == '"' {
            assert(doubled_each(label) =~= pat + d);
            text::lemma_replaced_at(d, pat, with);
        } else {
            lemma_replaced_char(label[0], d, pat, with);
        }
    }
}

/// An escaped label never begins with a bare quote.
proof fn lemma_escaped_head(label: Seq<char>)
    ensures
        escaped_each(label).len() > 0 ==> escaped_each(label)[0] != '"',
{
    if label.len() > 0 {
        assert(escaped_each(label)[0] == escaped_char(label[0])[0]);
    }
}

/// The first replacement of the reader gives the quotes back.
proof fn lemma_quotes_back(label: Seq<char>)
    ensures
        text::replaced(escaped_each(label), "\\\""@, "\""@) == doubled_each(label),
    decreases label.len(),
{
    reveal_strlit("\"");
    reveal_strlit("\\\"");
    let with = "\""@;
    let pat = "\\\""@;
    assert(with =~= seq!['"']);
    assert(pat =~= seq!['\\', '"']);
    if label.len() == 0 {
        lemma_replaced_empty(pat, with);
    } else {
        let t = label.drop_first();
        let e = escaped_each(t);
        lemma_quotes_back(t);
        if label[0] == '\\' {
            let two = seq!['\\', '\\'];
            let s = two + e;
            lemma_escaped_head(t);
            assert forall|j: int| 0 <= j < two.len() implies !text::occurs_at(s, pat, j) by {
                if text::occurs_at(s, pat, j) {
                    assert(s.subrange(j, j + 2)[1] == s[j + 1]);
                    assert(j == 1 ==> s[2] == e[0]);
                }
            }
            text::lemma_replaced_past(two, e, pat, with);
        } else if label[0] == '"' {
            assert(escaped_each(label) =~= pat + e);
            text::lemma_replaced_at(e, pat, with);
        } else {
            lemma_replaced_char(label[0], e, pat, with);
        }
    }
}

/// The second replacement of the reader halves the backslashes.
proof fn lemma_halved(label: Seq<char>)
    ensures
        text::replaced(doubled_each(label), "\\\\"@, "\\"@) == label,
    decreases label.len(),
{
    reveal_strlit("\\");
    reveal_strlit("\\\\");
    let one = "\\"@;
    let two = "\\\\"@;
    assert(one =~= seq!['\\']);
    assert(two =~= seq!['\\', '\\']);
    if label.len() == 0 {
        assert(label =~= seq![]);
        lemma_replaced_empty(two, one);
    } else {
        let t = label.drop_first();
        let d = doubled_each(t);
        lemma_halved(t);
        assert(label =~= seq![label[0]] + t);
        if label[0] == '\\' {
            assert(doubled_each(label) =~= two + d);
            text::lemma_replaced_at(d, two, one);
        } else {
            lemma_replaced_char(label[0], d, two, one);
        }
    }
}

/// Reading undoes writing, for every label.
pub proof fn law_label_unescapes(label: Seq<char>)
    ensures
        wire::escaped_label(label) == escaped_each(label),
        wire::unescaped_label(wire::escaped_label(label)) == label,
{
    lemma_doubled(label);
    lemma_quotes_escaped(label);
    lemma_quotes_back(label);
    lemma_halved(label);
}

/// Characters without a meaning of their own go to the current piece.
proof fn lemma_top_plain(a: Seq<char>, t: Seq<char>, cur: Seq<char>, quoted: bool)
    requires
        forall|i: int|
            0 <= i < a.len() ==> #[trigger] a[i] != '\\' && a[i] != '"' && a[i] != ',',
    ensures
        wire::top_pieces(a + t, ',', cur, quoted, false) == wire::top_pieces(
            t,
            ',',
            cur + a,
            quoted,
            false,
        ),
    decreases a.len(),
{
    if a.len() == 0 {
        assert(a + t =~= t);
        assert(cur + a =~= cur);
    } else {
        let b = a.drop_first();
        assert((a + t).drop_first() =~= b + t);
        assert((a + t)[0] == a[0]);
        assert forall|i: int| 0 <= i < b.len() implies #[trigger] b[i] != '\\' && b[i] != '"'
            && b[i] != ',' by {
            assert(b[i] == a[i + 1]);
        }
        lemma_top_plain(b, t, cur.push(a[0]), quoted);
        assert(cur.push(a[0]) + b =~= cur + a);
    }
}

/// An escaped label inside a string goes to the current piece.
proof fn lemma_top_escaped(label: Seq<char>, t: Seq<char>, cur: Seq<char>)
    ensures
        wire::top_pieces(escaped_each(label) + t, ',', cur, true, false) == wire::top_pieces(
            t,
            ',',
            cur + escaped_each(label),
            true,
            false,
        ),
    decreases label.len(),
{
    if label.len() == 0 {
        assert(escaped_each(label) + t =~= t);
        assert(cur + escaped_each(label) =~= cur);
    } else {
        let rest = label.drop_first();
        let x = escaped_char(label[0]);
        let tail = escaped_each(rest) + t;
        let s = escaped_each(label) + t;
        assert(s =~= x + tail);
        lemma_top_escaped(rest, t, cur + x);
        assert(cur + x + escaped_each(rest) =~= cur + escaped_each(label));
        assert(s[0] == x[0]);
        if x.len() == 2 {
            assert(s.drop_first() =~= seq![x[1]] + tail);
            assert(s.drop_first()[0] == x[1]);
            assert(s.drop_first().drop_first() =~= tail);
            assert(cur.push(x[0]).push(x[1]) =~= cur + x);
            assert(wire::top_pieces(s, ',', cur, true, false) == wire::top_pieces(
                s.drop_first(),
                ',',
                cur.push(x[0]),
                true,
                true,
            ));
            assert(wire::top_pieces(s.drop_first(), ',', cur.push(x[0]), true, true)
                == wire::top_pieces(tail, ',', cur + x, true, false));
        } else {
            assert(s.drop_first() =~= tail);
            assert(cur.push(x[0]) =~= cur + x);
        }
    }
}

/// One quote toggles the string.
proof fn lemma_top_quote(t: Seq<char>, cur: Seq<char>, quoted: bool)
    ensures
        wire::top_pieces(seq!['"'] + t, ',', cur, quoted, false) == wire::top_pieces(
            t,
            ',',
            cur.push('"'),
            !quoted,
            false,
        ),
{
    assert((seq!['"'] + t).drop_first() =~= t);
}

/// An entry goes to the current piece as a whole.
proof fn lemma_top_entry(e: (u32, Seq<char>), t: Seq<char>)
    ensures
        wire::top_pieces(wire::entry_text(e) + t, ',', seq![], false, false) == wire::top_pieces(
            t,
            ',',
            wire::entry_text(e),
            false,
            false,
        ),
{
    reveal_strlit("\"");
    reveal_strlit("\":\"");
    law_label_unescapes(e.1);
    text::lemma_decimal_value(e.0 as nat);
    let q = seq!['"'];
    let d = text::decimal(e.0 as nat);
    let l = escaped_each(e.1);
    assert("\""@ =~= q);
    assert("\":\""@ =~= q + seq![':'] + q);
    let t4 = q + t;
    let t3 = l + t4;
    let t2 = q + t3;
    let t1 = seq![':'] + t2;
    let t0 = q + t1;
    let all = wire::entry_text(e) + t;
    assert(all =~= q + (d + t0));
    lemma_top_quote(d + t0, seq![], false);
    assert(Seq::<char>::empty().push('"') =~= q);
    lemma_top_plain(d, t0, q, true);
    lemma_top_quote(t1, q + d, true);
    assert((q + d).push('"') =~= q + d + q);
    lemma_top_plain(seq![':'], t2, q + d + q, false);
    lemma_top_quote(t3, q + d + q + seq![':'], false);
    assert((q + d + q + seq![':']).push('"') =~= q + d + q + seq![':'] + q);
    lemma_top_escaped(e.1, t4, q + d + q + seq![':'] + q);
    lemma_top_quote(t, q + d + q + seq![':'] + q + l, true);
    assert((q + d + q + seq![':'] + q + l).push('"') =~= wire::entry_text(e));
}

/// The entries of a label file come apart at its commas.
proof fn lemma_top_entries(labels: Seq<(u32, Seq<char>)>)
    requires
        labels.len() > 0,
    ensures
        wire::top_pieces(wire::entries_text(labels), ',', seq![], false, false)
            == labels.map_values(|e: (u32, Seq<char>)| wire::entry_text(e)),
    decreases labels.len(),
{
    reveal_strlit(",");
    let head = wire::entry_text(labels[0]);
    let rest = labels.drop_first();
    let parts = labels.map_values(|e: (u32, Seq<char>)| wire::entry_text(e));
    let rest_parts = rest.map_values(|e: (u32, Seq<char>)| wire::entry_text(e));
    assert(parts =~= seq![head] + rest_parts);
    text::lemma_joined_cons(head, rest_parts, ","@);
    if rest.len() == 0 {
        lemma_top_entry(labels[0], seq![]);
        assert(head + Seq::<char>::empty() =~= head);
        assert(parts =~= seq![head]);
    } else {
        let t = ","@ + wire::entries_text(rest);
        lemma_top_entry(labels[0], t);
        assert(head + ","@ + wire::entries_text(rest) =~= head + t);
        assert(t.drop_first() =~= wire::entries_text(rest));
        assert(t[0] == ',');
        lemma_top_entries(rest);
    }
}

/// One written entry is read as the pane and the label that it was written
/// for.
proof fn lemma_entry_reads(e: (u32, Seq<char>))
    ensures
        wire::label_entry(wire::entry_text(e)) == Some(e),
{
    reveal_strlit("\"");
    reveal_strlit("\":\"");
    reveal_strlit(":");
    law_label_unescapes(e.1);
    text::lemma_decimal_value(e.0 as nat);
    text::lemma_u32_of_decimal(e.0);
    let q = seq!['"'];
    let d = text::decimal(e.0 as nat);
    let l = escaped_each(e.1);
    let s = wire::entry_text(e);
    assert(":"@ =~= seq![':']);
    let key = q + d + q;
    let value = q + l + q;
    assert(s =~= key + seq![':'] + value);
    assert(s[0] == '"' && s.last() == '"');
    text::lemma_trim_nothing(s);
    assert forall|j: int| 0 <= j < key.len() implies key[j] != ':' by {
        if 1 <= j < 1 + d.len() {
            assert(key[j] == d[j - 1]);
        }
    }
    text::lemma_find_char_at(key, ':', value);
    text::lemma_trim_nothing(key);
    text::lemma_trim_nothing(value);
    lemma_between(d);
    lemma_between(l);
}

/// The inside of a quoted text is that text.
proof fn lemma_between(x: Seq<char>)
    ensures
        text::between(seq!['"'] + x + seq!['"'], '"', '"') == Some(x),
{
    let s = seq!['"'] + x + seq!['"'];
    text::lemma_occurs_char(s, '"', 0);
    assert(s.skip(1) =~= x + seq!['"']);
    text::lemma_occurs_char(s.skip(1), '"', s.skip(1).len() - 1);
    assert(s.skip(1).take(x.len() as int) =~= x);
}

/// The labels of the entries of a label file are those it was written for.
proof fn lemma_entries_read(labels: Seq<(u32, Seq<char>)>)
    ensures
        wire::label_entries(labels.map_values(|e: (u32, Seq<char>)| wire::entry_text(e))) == labels,
{
    let parts = labels.map_values(|e: (u32, Seq<char>)| wire::entry_text(e));
    assert forall|i: int| 0 <= i < parts.len() implies wire::label_entry(#[trigger] parts[i])
        == Some(labels[i]) by {
        lemma_entry_reads(labels[i]);
    }
    assert(wire::label_entries(parts) =~= labels);
}

/// A label file with an entry that cannot be read names no label.
pub proof fn law_malformed_labels_name_none(body: Seq<char>, i: int)
    requires
        text::between(text::trimmed(body), '{', '}') matches Some(inner) && {
            let entries = wire::top_pieces(inner, ',', seq![], false, false);
            0 <= i < entries.len() && wire::label_entry(entries[i]) is None
        },
    ensures
        wire::labels_in(body).len() == 0,
{
}

/// The label file is read back as the labels it was written for, whatever
/// characters they hold.
pub proof fn law_agent_labels_round_trip(labels: Seq<(u32, Seq<char>)>)
    ensures
        wire::labels_in(wire::labels_text(labels)) == labels,
{
    reveal_strlit("{");
    reveal_strlit("}");
    reveal_strlit("\"");
    let inner = wire::entries_text(labels);
    let body = wire::labels_text(labels);
    assert(body =~= seq!['{'] + inner + seq!['}']);
    lemma_object(inner);
    if labels.len() == 0 {
        assert(labels =~= seq![]);
        assert(inner =~= seq![]) by {
            assert(labels.map_values(|e: (u32, Seq<char>)| wire::entry_text(e)).len() == 0);
        }
        assert(text::trimmed(inner).len() == 0);
    } else {
        lemma_top_entries(labels);
        lemma_entries_read(labels);
        let parts = labels.map_values(|e: (u32, Seq<char>)| wire::entry_text(e));
        let rest = parts.drop_first();
        assert(parts =~= seq![parts[0]] + rest);
        text::lemma_joined_cons(parts[0], rest, ","@);
        assert(parts[0] == wire::entry_text(labels[0]));
        assert(inner[0] == '"');
        text::lemma_trim_right(inner);
        assert(text::trim_left(inner) == inner);
        if text::trimmed(inner).len() == 0 {
            lemma_all_white(inner);
        }
    }
}

/// What trims away to nothing is white space throughout.
proof fn lemma_all_white(s: Seq<char>)
    requires
        text::trim_right(s).len() == 0,
    ensures
        forall|i: int| 0 <= i < s.len() ==> text::white(#[trigger] s[i]),
    decreases s.len(),
{
    if s.len() > 0 {
        lemma_all_white(s.drop_last());
        assert forall|i: int| 0 <= i < s.len() implies text::white(#[trigger] s[i]) by {
            if i < s.len() - 1 {
                assert(s.drop_last()[i] == s[i]);
            }
        }
    }
}

// ---------------------------------------------------------------------------
// Viewer routing
// ---------------------------------------------------------------------------

/// The entry of the kind in a routing file.
spec fn kind_entry(kind: Seq<char>) -> Seq<char> {
    seq!['"'] + "kind"@ + seq!['"'] + seq![':'] + (seq!['"'] + kind + seq!['"'])
}

/// The entry of the id in a routing file.
spec fn id_entry(id: u64) -> Seq<char> {
    seq!['"'] + "id"@ + seq!['"'] + seq![':'] + text::decimal(id as nat)
}

/// The entry of the kind names it.
proof fn lemma_kind_entry(kind: Seq<char>)
    ensures
        wire::routing(seq![kind_entry(kind)]) == (Some(kind), None::<u64>),
{
    reveal_strlit("kind");
    let none: Seq<Seq<char>> = seq![];
    lemma_entry_parts("kind"@, seq!['"'] + kind + seq!['"']);
    lemma_between("kind"@);
    lemma_between(kind);
    assert(seq![kind_entry(kind)].drop_last() =~= none);
    assert(seq![kind_entry(kind)].last() == kind_entry(kind));
    assert(wire::routing(none) == (None::<Seq<char>>, None::<u64>));
}

/// The entry of the id adds it.
proof fn lemma_id_entry(entries: Seq<Seq<char>>, id: u64)
    ensures
        wire::routing(entries.push(id_entry(id))) == (wire::routing(entries).0, Some(id)),
{
    reveal_strlit("kind");
    reveal_strlit("id");
    assert("kind"@[0] == 'k' && "id"@[0] == 'i');
    text::lemma_decimal_value(id as nat);
    text::lemma_u64_of_decimal(id);
    lemma_entry_parts("id"@, text::decimal(id as nat));
    lemma_between("id"@);
    assert(entries.push(id_entry(id)).drop_last() =~= entries);
    assert(entries.push(id_entry(id)).last() == id_entry(id));
}

/// The inside of an object is what stands between its braces.
proof fn lemma_object(inner: Seq<char>)
    ensures
        text::between(text::trimmed(seq!['{'] + inner + seq!['}']), '{', '}') == Some(inner),
{
    let body = seq!['{'] + inner + seq!['}'];
    text::lemma_trim_nothing(body);
    text::lemma_occurs_char(body, '{', 0);
    assert(body.skip(1) =~= inner + seq!['}']);
    text::lemma_occurs_char(body.skip(1), '}', body.skip(1).len() - 1);
    assert(body.skip(1).take(inner.len() as int) =~= inner);
}

/// The entry of a kind without a comma holds none.
proof fn lemma_kind_entry_commas(kind: Seq<char>)
    requires
        forall|i: int| 0 <= i < kind.len() ==> #[trigger] kind[i] != ',',
    ensures
        forall|j: int| 0 <= j < kind_entry(kind).len() ==> kind_entry(kind)[j] != ',',
{
    reveal_strlit("kind");
    let e = kind_entry(kind);
    assert forall|j: int| 0 <= j < e.len() implies e[j] != ',' by {
        if 8 <= j < 8 + kind.len() {
            assert(e[j] == kind[j - 8]);
        }
    }
}

/// A routing file is read back as the kind and the id it was written for,
/// where the kind holds no comma.
pub proof fn law_routing_round_trip(kind: Seq<char>, id: Option<u64>)
    requires
        forall|i: int| 0 <= i < kind.len() ==> #[trigger] kind[i] != ',',
    ensures
        wire::routing_in(wire::routing_text(kind, id)) == (Some(kind), id),
{
    reveal_strlit("{\"kind\":\"");
    reveal_strlit("\",\"id\":");
    reveal_strlit("}");
    reveal_strlit("\"}");
    reveal_strlit(",");
    reveal_strlit("kind");
    reveal_strlit("id");
    assert(","@ =~= seq![',']);
    let first = kind_entry(kind);
    lemma_kind_entry(kind);
    lemma_kind_entry_commas(kind);
    match id {
        None => {
            assert(wire::routing_text(kind, id) =~= seq!['{'] + first + seq!['}']);
            lemma_object(first);
            text::lemma_find_char_none(first, ',');
            assert(text::pieces(first, ","@) =~= seq![first]);
        },
        Some(i) => {
            let second = id_entry(i);
            let inner = first + seq![','] + second;
            assert(wire::routing_text(kind, id) =~= seq!['{'] + inner + seq!['}']);
            lemma_object(inner);
            text::lemma_decimal_value(i as nat);
            text::lemma_find_char_at(first, ',', second);
            assert forall|j: int| 0 <= j < second.len() implies second[j] != ',' by {
                if 5 <= j {
                    assert(second[j] == text::decimal(i as nat)[j - 5]);
                }
            }
            text::lemma_find_char_none(second, ',');
            assert(text::pieces(second, ","@) =~= seq![second]);
            assert(inner.take(first.len() as int) =~= first);
            assert(inner.skip((first.len() + 1) as int) =~= second);
            assert(text::pieces(inner, ","@) =~= seq![first].push(second));
            lemma_id_entry(seq![first], i);
        },
    }
}

/// An entry of a quoted key and a value comes apart at its first colon.
proof fn lemma_entry_parts(key: Seq<char>, value: Seq<char>)
    requires
        forall|i: int| 0 <= i < key.len() ==> #[trigger] key[i] != ':',
        value.len() > 0 && !text::white(value[0]) && !text::white(value.last()),
    ensures
        wire::entry_parts(seq!['"'] + key + seq!['"'] + seq![':'] + value) == Some(
            (seq!['"'] + key + seq!['"'], value),
        ),
{
    reveal_strlit(":");
    assert(":"@ =~= seq![':']);
    let quoted = seq!['"'] + key + seq!['"'];
    let s = quoted + seq![':'] + value;
    assert(s[0] == '"' && s.last() == value.last());
    text::lemma_trim_nothing(s);
    assert forall|j: int| 0 <= j < quoted.len() implies quoted[j] != ':' by {
        if 1 <= j < 1 + key.len() {
            assert(quoted[j] == key[j - 1]);
        }
    }
    text::lemma_find_char_at(quoted, ':', value);
    text::lemma_trim_nothing(quoted);
    text::lemma_trim_nothing(value);
}

} // verus!
