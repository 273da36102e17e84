//! Input queued for a running process: one line of JSON each, written by the
//! daemon and typed by the sidebar.

use vstd::prelude::*;
use vstd::string::*;

use crate::text;

verus! {

/// A queued input that was not delivered yet.
#[derive(Debug)]
pub struct PendingInput {
    pub id: i64,
    pub process_id: u64,
    pub content: String,
}

impl View for PendingInput {
    type V = (i64, u64, Seq<char>);

    open spec fn view(&self) -> (i64, u64, Seq<char>) {
        (self.id, self.process_id, self.content@)
    }
}

/// A queued input as the sidebar reads it.
#[derive(Debug)]
pub struct PendingInputRow {
    pub seq: i64,
    pub process_id: u64,
    pub content: String,
}

impl View for PendingInputRow {
    type V = (i64, u64, Seq<char>);

    open spec fn view(&self) -> (i64, u64, Seq<char>) {
        (self.seq, self.process_id, self.content@)
    }
}

/// The contents of queued inputs.
pub open spec fn input_views(v: Seq<PendingInput>) -> Seq<(i64, u64, Seq<char>)> {
    v.map_values(|p: PendingInput| p@)
}

/// The contents of inputs that were read.
pub open spec fn row_views(v: Seq<PendingInputRow>) -> Seq<(i64, u64, Seq<char>)> {
    v.map_values(|p: PendingInputRow| p@)
}

/// The contents of an input that was read, if there is one.
pub open spec fn opt_row(o: Option<PendingInputRow>) -> Option<(i64, u64, Seq<char>)> {
    match o {
        Some(p) => Some(p@),
        None => None,
    }
}

/// A JSON value.
#[verifier::external_type_specification]
#[verifier::external_body]
pub struct ExJsonValue(serde_json::Value);

/// Why a text is no JSON.
#[verifier::external_type_specification]
#[verifier::external_body]
pub struct ExJsonError(serde_json::Error);

/// What `serde_json::from_str` makes of a text, if it is JSON.
pub uninterp spec fn json_of(s: Seq<char>) -> Option<serde_json::Value>;

/// What `serde_json::Value::get` finds in an object under a key.
pub uninterp spec fn json_field(v: serde_json::Value, key: Seq<char>) -> Option<serde_json::Value>;

/// What `serde_json::Value::as_i64` makes of a number.
pub uninterp spec fn json_i64(v: serde_json::Value) -> Option<i64>;

/// What `serde_json::Value::as_u64` makes of a number.
pub uninterp spec fn json_u64(v: serde_json::Value) -> Option<u64>;

/// What `serde_json::Value::as_str` makes of a string.
pub uninterp spec fn json_str(v: serde_json::Value) -> Option<Seq<char>>;

/// The JSON string that `serde_json::to_string` writes for a text.
pub uninterp spec fn json_string(s: Seq<char>) -> Seq<char>;

/// One line of the queue.
pub open spec fn input_text(input: (i64, u64, Seq<char>)) -> Seq<char> {
    "{\"seq\":"@ + text::signed_decimal(input.0 as int) + ",\"process_id\":"@ + text::decimal(
        input.1 as nat,
    ) + ",\"content\":"@ + json_string(input.2) + "}"@
}

/// The three fields of an input, where a value has them all.
pub open spec fn input_fields(v: serde_json::Value) -> Option<(i64, u64, Seq<char>)> {
    input_parts(
        match json_field(v, "seq"@) {
            Some(f) => json_i64(f),
            None => None,
        },
        match json_field(v, "process_id"@) {
            Some(f) => json_u64(f),
            None => None,
        },
        match json_field(v, "content"@) {
            Some(f) => json_str(f),
            None => None,
        },
    )
}

/// An input, where all its parts are there.
pub open spec fn input_parts(
    seq: Option<i64>,
    process_id: Option<u64>,
    content: Option<Seq<char>>,
) -> Option<(i64, u64, Seq<char>)> {
    match (seq, process_id, content) {
        (Some(s), Some(p), Some(c)) => Some((s, p, c)),
        _ => None,
    }
}

/// The input on a line, if there is one.
pub open spec fn input_of(line: Seq<char>) -> Option<(i64, u64, Seq<char>)> {
    if text::trimmed(line).len() == 0 {
        None
    } else {
        match json_of(text::trimmed(line)) {
            Some(v) => input_fields(v),
            None => None,
        }
    }
}

/// The inputs on lines.
pub open spec fn inputs_on(lines: Seq<Seq<char>>) -> Seq<(i64, u64, Seq<char>)>
    decreases lines.len(),
{
    if lines.len() == 0 {
        seq![]
    } else {
        match input_of(lines.last()) {
            Some(input) => inputs_on(lines.drop_last()).push(input),
            None => inputs_on(lines.drop_last()),
        }
    }
}

/// The queue, one line to an input.
pub open spec fn inputs_text(inputs: Seq<(i64, u64, Seq<char>)>) -> Seq<char>
    decreases inputs.len(),
{
    if inputs.len() == 0 {
        seq![]
    } else {
        input_text(inputs[0]) + seq!['\n'] + inputs_text(inputs.drop_first())
    }
}

/// Whether a text stays on one line.
pub open spec fn is_flat(s: Seq<char>) -> bool {
    forall|i: int| 0 <= i < s.len() ==> (#[trigger] s[i]) != '\n'
}

/// Whether the JSON of every content stays on one line.
pub open spec fn all_flat(inputs: Seq<(i64, u64, Seq<char>)>) -> bool {
    forall|i: int| 0 <= i < inputs.len() ==> is_flat(json_string((#[trigger] inputs[i]).2))
}

/// `serde_json::from_str`: parses a text. Whether it is JSON, and which value
/// it denotes, depends on the text alone; an object with an integer, another
/// and a string that `serde_json` wrote itself gives back all three.
#[verifier::external_body]
fn parse_json(s: &str) -> (r: Result<serde_json::Value, serde_json::Error>)
    ensures
        match r {
            Ok(v) => json_of(s@) == Some(v),
            Err(_) => json_of(s@) is None,
        },
        forall|input: (i64, u64, Seq<char>)|
            s@ == #[trigger] input_text(input) ==> r is Ok && input_fields(r->Ok_0) == Some(input),
{
    serde_json::from_str(s)
}

/// `serde_json::Value::get` with a text for a key: the value under the key of
/// an object.
#[verifier::external_body]
fn get_field<'a>(v: &'a serde_json::Value, key: &str) -> (r: Option<&'a serde_json::Value>)
    ensures
        match r {
            Some(f) => json_field(*v, key@) == Some(*f),
            None => json_field(*v, key@) is None,
        },
{
    v.get(key)
}

/// `serde_json::Value::as_i64`: the integer, where the value is one that fits.
#[verifier::external_body]
fn as_i64(v: &serde_json::Value) -> (r: Option<i64>)
    ensures
        r == json_i64(*v),
{
    v.as_i64()
}

/// `serde_json::Value::as_u64`: the integer, where the value is one that fits.
#[verifier::external_body]
fn as_u64(v: &serde_json::Value) -> (r: Option<u64>)
    ensures
        r == json_u64(*v),
{
    v.as_u64()
}

/// `serde_json::Value::as_str`: the text, where the value is a string.
#[verifier::external_body]
fn as_str(v: &serde_json::Value) -> (r: Option<&str>)
    ensures
        text::opt_str(r) == json_str(*v),
{
    v.as_str()
}

/// `serde_json::to_string` of a text: its JSON string. Writing a text never
/// fails, and every control character is escaped, the line feed too.
#[verifier::external_body]
fn write_json(s: &str) -> (r: Result<String, serde_json::Error>)
    ensures
        r is Ok,
        r->Ok_0@ == json_string(s@),
        is_flat(r->Ok_0@),
{
    serde_json::to_string(s)
}

/// An input, where all its parts are there.
pub fn input_row(seq: Option<i64>, process_id: Option<u64>, content: Option<&str>) -> (r: Option<
    PendingInputRow,
>)
    ensures
        opt_row(r) == input_parts(seq, process_id, text::opt_str(content)),
{
    match (seq, process_id, content) {
        (Some(seq), Some(process_id), Some(content)) => Some(
            PendingInputRow { seq, process_id, content: content.to_owned() },
        ),
        _ => None,
    }
}

/// The signed number in a decimal begins with a sign or a digit, and holds no
/// line feed.
proof fn lemma_signed_flat(n: int)
    ensures
        is_flat(text::signed_decimal(n)),
{
    text::lemma_decimal_value(if n < 0 {
        (-n) as nat
    } else {
        n as nat
    });
    reveal_strlit("-");
}

/// A line of the queue is one line, without white space at its ends.
proof fn lemma_input_line(input: (i64, u64, Seq<char>))
    requires
        is_flat(json_string(input.2)),
    ensures
        is_flat(input_text(input)),
        input_text(input).len() > 0,
        input_text(input)[0] == '{',
        input_text(input).last() == '}',
        text::trimmed(input_text(input)) == input_text(input),
{
    reveal_strlit("{\"seq\":");
    reveal_strlit(",\"process_id\":");
    reveal_strlit(",\"content\":");
    reveal_strlit("}");
    lemma_signed_flat(input.0 as int);
    text::lemma_decimal_value(input.1 as nat);
    let a = "{\"seq\":"@;
    let b = text::signed_decimal(input.0 as int);
    let c = ",\"process_id\":"@;
    let d = text::decimal(input.1 as nat);
    let e = ",\"content\":"@;
    let f = json_string(input.2);
    assert(is_flat(a) && is_flat(b) && is_flat(c) && is_flat(d) && is_flat(e));
    assert(is_flat(a + b));
    assert(is_flat(a + b + c));
    assert(is_flat(a + b + c + d));
    assert(is_flat(a + b + c + d + e));
    assert(is_flat(a + b + c + d + e + f));
    text::lemma_trim_nothing(input_text(input));
}

/// The lines of the queue are its inputs' lines.
proof fn lemma_queue_lines(inputs: Seq<(i64, u64, Seq<char>)>)
    requires
        all_flat(inputs),
    ensures
        text::line_seq(inputs_text(inputs)) == inputs.map_values(
            |input: (i64, u64, Seq<char>)| input_text(input),
        ),
    decreases inputs.len(),
{
    let goal = inputs.map_values(|input: (i64, u64, Seq<char>)| input_text(input));
    if inputs.len() == 0 {
        assert(text::line_seq(inputs_text(inputs)) =~= goal);
    } else {
        let line = input_text(inputs[0]);
        let rest = inputs.drop_first();
        assert(is_flat(json_string(inputs[0].2)));
        lemma_input_line(inputs[0]);
        assert forall|i: int| 0 <= i < rest.len() implies is_flat(
            json_string((#[trigger] rest[i]).2),
        ) by {
            assert(rest[i] == inputs[i + 1]);
        }
        lemma_queue_lines(rest);
        let t = inputs_text(rest);
        text::lemma_find_char_at(line, '\n', t);
        let whole = line + seq!['\n'] + t;
        assert(whole.take(line.len() as int) =~= line);
        assert(whole.skip(line.len() as int + 1) =~= t);
        assert(text::without_cr(line) == line);
        assert(text::line_seq(whole) == seq![line] + text::line_seq(t));
        assert(seq![line] + text::line_seq(t) =~= goal);
    }
}

/// The input on a line, or nothing where the line is blank or malformed. What
/// the daemon wrote comes back.
pub fn parse_input_line(line: &str) -> (r: Option<PendingInputRow>)
    ensures
        opt_row(r) == input_of(line@),
        forall|input: (i64, u64, Seq<char>)|
            line@ == #[trigger] input_text(input) && is_flat(json_string(input.2)) ==> opt_row(r)
                == Some(input),
{
    let line = text::trim(line);
    proof {
        assert forall|input: (i64, u64, Seq<char>)|
            is_flat(json_string(input.2)) implies text::trimmed(#[trigger] input_text(input))
            == input_text(input) && input_text(input).len() > 0 by {
            lemma_input_line(input);
        }
    }
    if line.is_empty() {
        return None;
    }
    let v = match parse_json(line) {
        Ok(v) => v,
        Err(_) => {
            return None;
        },
    };
    let seq = match get_field(&v, "seq") {
        Some(f) => as_i64(f),
        None => None,
    };
    let process_id = match get_field(&v, "process_id") {
        Some(f) => as_u64(f),
        None => None,
    };
    let content = match get_field(&v, "content") {
        Some(f) => as_str(f),
        None => None,
    };
    input_row(seq, process_id, content)
}

/// The inputs of the queue; lines that hold none are skipped. What the daemon
/// wrote comes back.
pub fn parse_inputs(body: &str) -> (out: Vec<PendingInputRow>)
    ensures
        row_views(out@) == inputs_on(text::line_seq(body@)),
        forall|inputs: Seq<(i64, u64, Seq<char>)>|
            body@ == #[trigger] inputs_text(inputs) && all_flat(inputs) ==> row_views(out@)
                == inputs,
{
    let lines = text::lines(body);
    let ghost all = text::views(lines@);
    let mut out: Vec<PendingInputRow> = Vec::new();
    let mut i: usize = 0;
    assert(all.take(0) =~= seq![]);
    assert(row_views(out@) =~= seq![]);
    while i < lines.len()
        invariant
            i <= lines.len(),
            all == text::views(lines@),
            row_views(out@) == inputs_on(all.take(i as int)),
            forall|k: int, input: (i64, u64, Seq<char>)|
                0 <= k < i && #[trigger] all[k] == #[trigger] input_text(input) && is_flat(
                    json_string(input.2),
                ) ==> input_of(all[k]) == Some(input),
        decreases lines.len() - i,
    {
        let ghost before = out@;
        proof {
            assert(all.take(i + 1).drop_last() =~= all.take(i as int));
            assert(all.take(i + 1).last() == lines@[i as int]@);
            assert(all[i as int] == lines@[i as int]@);
        }
        match parse_input_line(lines[i]) {
            Some(row) => {
                out.push(row);
                assert(row_views(out@) =~= row_views(before).push(row@));
            },
            None => {},
        }
        i += 1;
    }
    assert(all.take(i as int) =~= all);
    proof {
        assert forall|inputs: Seq<(i64, u64, Seq<char>)>|
            body@ == #[trigger] inputs_text(inputs) && all_flat(inputs) implies row_views(out@)
            == inputs by {
            lemma_queue_lines(inputs);
            assert forall|k: int| 0 <= k < inputs.len() implies input_of(#[trigger] all[k]) == Some(
                inputs[k],
            ) by {
                assert(all[k] == input_text(inputs[k]));
                assert(is_flat(json_string(inputs[k].2)));
            }
            lemma_all_read(all, inputs);
        }
    }
    out
}

/// Where every line holds an input, these are the inputs.
proof fn lemma_all_read(lines: Seq<Seq<char>>, inputs: Seq<(i64, u64, Seq<char>)>)
    requires
        lines.len() == inputs.len(),
        forall|k: int| 0 <= k < inputs.len() ==> input_of(#[trigger] lines[k]) == Some(inputs[k]),
    ensures
        inputs_on(lines) == inputs,
    decreases lines.len(),
{
    if lines.len() > 0 {
        let front = lines.drop_last();
        assert forall|k: int| 0 <= k < inputs.drop_last().len() implies input_of(
            #[trigger] front[k],
        ) == Some(inputs.drop_last()[k]) by {
            assert(front[k] == lines[k]);
        }
        lemma_all_read(front, inputs.drop_last());
        assert(input_of(lines[lines.len() - 1]) == Some(inputs[inputs.len() - 1]));
        assert(inputs.drop_last().push(inputs.last()) =~= inputs);
    } else {
        assert(inputs_on(lines) =~= inputs);
    }
}

/// One line of the queue.
fn render_input(input: &PendingInput) -> (r: String)
    ensures
        r@ == input_text(input@),
        is_flat(json_string(input@.2)),
{
    let content = match write_json(input.content.as_str()) {
        Ok(content) => content,
        Err(_) => String::new(),
    };
    let mut out = "{\"seq\":".to_owned();
    out.append(text::signed_number(input.id).as_str());
    out.append(",\"process_id\":");
    out.append(text::number(input.process_id).as_str());
    out.append(",\"content\":");
    out.append(content.as_str());
    out.append("}");
    out
}

/// The queue, one line to an input.
pub fn render_inputs(inputs: &Vec<PendingInput>) -> (r: String)
    ensures
        r@ == inputs_text(input_views(inputs@)),
        all_flat(input_views(inputs@)),
{
    let ghost all = input_views(inputs@);
    let mut out = String::new();
    let mut i: usize = 0;
    assert(all.skip(0) =~= all);
    assert(out@ + inputs_text(all) =~= inputs_text(all));
    while i < inputs.len()
        invariant
            i <= inputs.len(),
            all == input_views(inputs@),
            out@ + inputs_text(all.skip(i as int)) == inputs_text(all),
            forall|k: int| 0 <= k < i ==> is_flat(json_string((#[trigger] all[k]).2)),
        decreases inputs.len() - i,
    {
        let ghost before = out@;
        let line = render_input(&inputs[i]);
        out.append(line.as_str());
        out.push('\n');
        proof {
            let rest = all.skip(i as int);
            assert(rest[0] == inputs@[i as int]@);
            assert(rest.drop_first() =~= all.skip(i + 1));
            let t = inputs_text(all.skip(i + 1));
            assert(inputs_text(rest) == line@ + seq!['\n'] + t);
            assert(before + (line@ + seq!['\n'] + t) =~= out@ + t);
            assert(all[i as int] == inputs@[i as int]@);
        }
        i += 1;
    }
    assert(out@ + inputs_text(all.skip(i as int)) =~= out@);
    out
}

} // verus!
