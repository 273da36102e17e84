//! Templates: text in which `{{name}}` stands for a fact, and `{{file:NAME}}`
//! for the path of a file that is written before an agent starts.

use vstd::prelude::*;
use vstd::string::*;

use crate::text;
use crate::textmap::TextMap;

verus! {

/// Where a placeholder opens.
pub open spec fn opening() -> Seq<char> {
    seq!['{', '{']
}

/// Where a placeholder closes.
pub open spec fn closing() -> Seq<char> {
    seq!['}', '}']
}

/// A template cut at its first placeholder: what comes before, the name, and
/// what comes after. A placeholder that is not closed gives no name.
pub enum Cut {
    Plain,
    Open,
    Named { before: Seq<char>, name: Seq<char>, after: Seq<char> },
}

/// A template, cut at its first placeholder.
pub open spec fn first_cut(t: Seq<char>) -> Cut {
    match text::cut(t, opening()) {
        None => Cut::Plain,
        Some((before, rest)) => match text::cut(rest, closing()) {
            None => Cut::Open,
            Some((name, after)) => Cut::Named { before, name: text::trimmed(name), after },
        },
    }
}

/// What comes after a placeholder is shorter than the template.
pub proof fn lemma_after_is_shorter(t: Seq<char>)
    ensures
        first_cut(t) matches Cut::Named { after, .. } ==> after.len() < t.len(),
{
    text::lemma_find_from(t, opening(), 0);
    if let Some((_, rest)) = text::cut(t, opening()) {
        text::lemma_find_from(rest, closing(), 0);
    }
}

/// The names of the placeholders of a template, in order. One that is not
/// closed ends the search.
pub open spec fn names(t: Seq<char>) -> Seq<Seq<char>>
    decreases t.len(),
{
    match first_cut(t) {
        Cut::Named { name, after, .. } => {
            proof {
                lemma_after_is_shorter(t);
            }
            seq![name] + names(after)
        },
        _ => seq![],
    }
}

/// Whether every placeholder of a template is closed.
pub open spec fn is_closed(t: Seq<char>) -> bool
    decreases t.len(),
{
    match first_cut(t) {
        Cut::Plain => true,
        Cut::Open => false,
        Cut::Named { after, .. } => {
            proof {
                lemma_after_is_shorter(t);
            }
            is_closed(after)
        },
    }
}

/// The values that stand for the names.
#[derive(Debug)]
pub struct Facts {
    /// The path of the running launcher.
    pub panopt_bin: String,
    /// Where the daemon listens.
    pub host: String,
    pub port: u16,
    /// The path of the workspace.
    pub ws: String,
    /// The identity of the project.
    pub project: String,
    /// The stable id of the agent.
    pub agent_id: String,
    /// The friendly name of the agent.
    pub name: String,
    /// The bearer token of the daemon.
    pub token: String,
    /// The model, where one is pinned.
    pub model: Option<String>,
    /// The id of the process, where there is one.
    pub process_id: Option<u64>,
}

/// The contents of [`Facts`].
pub struct FactsView {
    pub panopt_bin: Seq<char>,
    pub host: Seq<char>,
    pub port: u16,
    pub ws: Seq<char>,
    pub project: Seq<char>,
    pub agent_id: Seq<char>,
    pub name: Seq<char>,
    pub token: Seq<char>,
    pub model: Option<Seq<char>>,
    pub process_id: Option<u64>,
}

impl View for Facts {
    type V = FactsView;

    open spec fn view(&self) -> FactsView {
        FactsView {
            panopt_bin: self.panopt_bin@,
            host: self.host@,
            port: self.port,
            ws: self.ws@,
            project: self.project@,
            agent_id: self.agent_id@,
            name: self.name@,
            token: self.token@,
            model: text::opt_text(self.model),
            process_id: self.process_id,
        }
    }
}

impl FactsView {
    /// The value of a fact.
    pub open spec fn fact(self, name: Seq<char>) -> Option<Seq<char>> {
        if name == "panopt_bin"@ {
            Some(self.panopt_bin)
        } else if name == "host"@ {
            Some(self.host)
        } else if name == "port"@ {
            Some(text::decimal(self.port as nat))
        } else if name == "ws"@ {
            Some(self.ws)
        } else if name == "project"@ {
            Some(self.project)
        } else if name == "agent_id"@ {
            Some(self.agent_id)
        } else if name == "name"@ {
            Some(self.name)
        } else if name == "token"@ {
            Some(self.token)
        } else if name == "model"@ {
            Some(
                match self.model {
                    Some(m) => m,
                    None => seq![],
                },
            )
        } else if name == "process_id"@ {
            Some(
                match self.process_id {
                    Some(n) => text::decimal(n as nat),
                    None => seq![],
                },
            )
        } else {
            None
        }
    }
}

impl Default for Facts {
    fn default() -> (f: Facts)
        ensures
            f@ == (FactsView {
                panopt_bin: seq![],
                host: seq![],
                port: 0,
                ws: seq![],
                project: seq![],
                agent_id: seq![],
                name: seq![],
                token: seq![],
                model: None,
                process_id: None,
            }),
    {
        Facts {
            panopt_bin: String::new(),
            host: String::new(),
            port: 0,
            ws: String::new(),
            project: String::new(),
            agent_id: String::new(),
            name: String::new(),
            token: String::new(),
            model: None,
            process_id: None,
        }
    }
}

impl Facts {
    /// The value of a fact.
    pub fn lookup(&self, name: &str) -> (r: Option<String>)
        ensures
            text::opt_text(r) == self@.fact(name@),
    {
        if text::same(name, "panopt_bin") {
            Some(self.panopt_bin.clone())
        } else if text::same(name, "host") {
            Some(self.host.clone())
        } else if text::same(name, "port") {
            Some(text::number(self.port as u64))
        } else if text::same(name, "ws") {
            Some(self.ws.clone())
        } else if text::same(name, "project") {
            Some(self.project.clone())
        } else if text::same(name, "agent_id") {
            Some(self.agent_id.clone())
        } else if text::same(name, "name") {
            Some(self.name.clone())
        } else if text::same(name, "token") {
            Some(self.token.clone())
        } else if text::same(name, "model") {
            match &self.model {
                Some(m) => Some(m.clone()),
                None => Some(String::new()),
            }
        } else if text::same(name, "process_id") {
            match self.process_id {
                Some(n) => Some(text::number(n)),
                None => Some(String::new()),
            }
        } else {
            None
        }
    }
}

/// Why a template cannot be filled in.
#[derive(Debug)]
pub enum RenderError {
    /// A placeholder is not closed.
    Unterminated,
    /// A name is no fact.
    UnknownPlaceholder(String),
    /// A file is not declared.
    UnknownFile(String),
}

/// The contents of a [`RenderError`].
pub enum RenderFault {
    Unterminated,
    UnknownPlaceholder(Seq<char>),
    UnknownFile(Seq<char>),
}

impl View for RenderError {
    type V = RenderFault;

    open spec fn view(&self) -> RenderFault {
        match *self {
            RenderError::Unterminated => RenderFault::Unterminated,
            RenderError::UnknownPlaceholder(n) => RenderFault::UnknownPlaceholder(n@),
            RenderError::UnknownFile(n) => RenderFault::UnknownFile(n@),
        }
    }
}

impl RenderFault {
    /// What an error says.
    pub open spec fn words(self) -> Seq<char> {
        match self {
            RenderFault::Unterminated => "unterminated '{{' in spawn template"@,
            RenderFault::UnknownPlaceholder(n) =>
                "spawn template references unknown placeholder '"@ + n + "'"@,
            RenderFault::UnknownFile(n) => "spawn template references undeclared file '"@ + n
                + "'"@,
        }
    }
}

impl RenderError {
    /// What the error says.
    pub fn message(&self) -> (r: String)
        ensures
            r@ == self@.words(),
    {
        match self {
            RenderError::Unterminated => "unterminated '{{' in spawn template".to_owned(),
            RenderError::UnknownPlaceholder(n) => {
                let mut out = "spawn template references unknown placeholder '".to_owned();
                out.append(n.as_str());
                out.append("'");
                out
            },
            RenderError::UnknownFile(n) => {
                let mut out = "spawn template references undeclared file '".to_owned();
                out.append(n.as_str());
                out.append("'");
                out
            },
        }
    }
}

/// The result of filling in, with the contents of its error.
pub open spec fn rendered(r: Result<String, RenderError>) -> Result<Seq<char>, RenderFault> {
    match r {
        Ok(s) => Ok(s@),
        Err(e) => Err(e@),
    }
}

/// The paths of files, by name.
pub type Paths = Map<Seq<char>, Seq<char>>;

/// The texts that a map holds.
pub open spec fn contents(m: TextMap<String>) -> Paths {
    Map::new(|k: Seq<char>| m.has(k), |k: Seq<char>| m.value(k)@)
}

/// The paths that there are.
pub open spec fn known_paths(files: Option<&TextMap<String>>) -> Option<Paths> {
    match files {
        Some(f) => Some(contents(*f)),
        None => None,
    }
}

/// What stands for a name: a fact, or the path of a file. Where there are no
/// files at all, a name that asks for one is refused whole.
pub open spec fn resolved(
    name: Seq<char>,
    facts: FactsView,
    files: Option<Paths>,
) -> Result<Seq<char>, RenderFault> {
    match text::after_prefix(name, "file:"@) {
        Some(file) => match files {
            Some(files) => if files.dom().contains(file) {
                Ok(files[file])
            } else {
                Err(RenderFault::UnknownFile(file))
            },
            None => Err(RenderFault::UnknownFile(name)),
        },
        None => match facts.fact(name) {
            Some(v) => Ok(v),
            None => Err(RenderFault::UnknownPlaceholder(name)),
        },
    }
}

/// A template with every placeholder filled in; the first that cannot be is
/// the error.
pub open spec fn filled(
    t: Seq<char>,
    facts: FactsView,
    files: Option<Paths>,
) -> Result<Seq<char>, RenderFault>
    decreases t.len(),
{
    match first_cut(t) {
        Cut::Plain => Ok(t),
        Cut::Open => Err(RenderFault::Unterminated),
        Cut::Named { before, name, after } => {
            proof {
                lemma_after_is_shorter(t);
            }
            match resolved(name, facts, files) {
                Err(e) => Err(e),
                Ok(v) => match filled(after, facts, files) {
                    Err(e) => Err(e),
                    Ok(rest) => Ok(before + v + rest),
                },
            }
        },
    }
}

/// A template is filled in exactly where every placeholder is closed and
/// stands for something.
pub proof fn law_filled_where_all_resolve(
    t: Seq<char>,
    facts: FactsView,
    files: Option<Paths>,
)
    ensures
        filled(t, facts, files) is Ok <==> (is_closed(t) && forall|i: int|
            0 <= i < names(t).len() ==> resolved(#[trigger] names(t)[i], facts, files) is Ok),
    decreases t.len(),
{
    if let Cut::Named { name, after, .. } = first_cut(t) {
        lemma_after_is_shorter(t);
        law_filled_where_all_resolve(after, facts, files);
        let all = names(t);
        let rest = names(after);
        assert(all == seq![name] + rest);
        assert(all[0] == name);
        if resolved(name, facts, files) is Ok {
            assert forall|i: int| 0 <= i < rest.len() implies #[trigger] rest[i] == all[i + 1] by {}
            if filled(after, facts, files) is Ok {
                assert forall|i: int| 0 <= i < all.len() implies resolved(
                    #[trigger] all[i],
                    facts,
                    files,
                ) is Ok by {
                    if i > 0 {
                        assert(all[i] == rest[i - 1]);
                    }
                }
            } else if is_closed(t) {
                let k = choose|k: int|
                    0 <= k < rest.len() && !(resolved(#[trigger] rest[k], facts, files) is Ok);
                assert(all[k + 1] == rest[k]);
            }
        }
    } else {
        assert(names(t).len() == 0);
    }
}

/// The first name that stands for nothing, and why.
pub open spec fn first_fault(
    names: Seq<Seq<char>>,
    facts: FactsView,
    files: Option<Paths>,
) -> Option<RenderFault>
    decreases names.len(),
{
    if names.len() == 0 {
        None
    } else {
        match resolved(names[0], facts, files) {
            Err(e) => Some(e),
            Ok(_) => first_fault(names.drop_first(), facts, files),
        }
    }
}

/// The texts around the placeholders of a closed template, in order: one more
/// than there are placeholders.
pub open spec fn plain_parts(t: Seq<char>) -> Seq<Seq<char>>
    decreases t.len(),
{
    match first_cut(t) {
        Cut::Plain => seq![t],
        Cut::Open => seq![],
        Cut::Named { before, after, .. } => {
            proof {
                lemma_after_is_shorter(t);
            }
            seq![before] + plain_parts(after)
        },
    }
}

/// Texts with values between them.
pub open spec fn woven(parts: Seq<Seq<char>>, values: Seq<Seq<char>>) -> Seq<char>
    decreases values.len(),
{
    if values.len() == 0 {
        parts[0]
    } else {
        parts[0] + values[0] + woven(parts.drop_first(), values.drop_first())
    }
}

/// What stands for names, where all stand for something.
pub open spec fn values_of(
    names: Seq<Seq<char>>,
    facts: FactsView,
    files: Option<Paths>,
) -> Seq<Seq<char>> {
    names.map_values(|n: Seq<char>| resolved(n, facts, files)->Ok_0)
}

/// The placeholders are looked up in their order, and the first that stands for
/// nothing is the error. Where all stand for something, one that is not closed
/// is the error. Else each gives way to what it stands for, which is not looked
/// through again, and the text around them stays.
pub proof fn law_filled_in_order(t: Seq<char>, facts: FactsView, files: Option<Paths>)
    ensures
        filled(t, facts, files) == (match first_fault(names(t), facts, files) {
            Some(e) => Err::<Seq<char>, RenderFault>(e),
            None => if !is_closed(t) {
                Err(RenderFault::Unterminated)
            } else {
                Ok(woven(plain_parts(t), values_of(names(t), facts, files)))
            },
        }),
        is_closed(t) ==> plain_parts(t).len() == names(t).len() + 1,
    decreases t.len(),
{
    match first_cut(t) {
        Cut::Plain => {
            assert(values_of(names(t), facts, files).len() == 0);
        },
        Cut::Open => {},
        Cut::Named { before, name, after } => {
            lemma_after_is_shorter(t);
            law_filled_in_order(after, facts, files);
            let all = names(t);
            let parts = plain_parts(t);
            let values = values_of(all, facts, files);
            assert(all[0] == name);
            assert(all.drop_first() =~= names(after));
            assert(parts[0] == before);
            assert(parts.drop_first() =~= plain_parts(after));
            assert(values.drop_first() =~= values_of(names(after), facts, files));
        },
    }
}

/// Text without placeholders is left as it is.
pub proof fn law_plain_text_stays(t: Seq<char>, facts: FactsView, files: Option<Paths>)
    requires
        text::find_seq(t, opening()) is None,
    ensures
        filled(t, facts, files) == Ok::<Seq<char>, RenderFault>(t),
{
}

/// A template, cut at its first placeholder.
pub enum Piece<'a> {
    Plain,
    Open,
    Named { before: &'a str, name: &'a str, after: &'a str },
}

/// The contents of a [`Piece`].
pub open spec fn cut_of(p: Piece) -> Cut {
    match p {
        Piece::Plain => Cut::Plain,
        Piece::Open => Cut::Open,
        Piece::Named { before, name, after } => Cut::Named {
            before: before@,
            name: name@,
            after: after@,
        },
    }
}

/// Cuts a template at its first placeholder.
fn cut_first<'a>(t: &'a str) -> (p: Piece<'a>)
    ensures
        cut_of(p) == first_cut(t@),
{
    proof {
        reveal_strlit("{{");
        reveal_strlit("}}");
        assert("{{"@ =~= opening());
        assert("}}"@ =~= closing());
    }
    match text::split_once(t, "{{") {
        None => Piece::Plain,
        Some((before, rest)) => match text::split_once(rest, "}}") {
            None => Piece::Open,
            Some((name, after)) => Piece::Named { before, name: text::trim(name), after },
        },
    }
}

/// The names of the placeholders of a template, in order.
pub fn placeholders<'a>(template: &'a str) -> (out: Vec<&'a str>)
    ensures
        text::views(out@) == names(template@),
{
    let mut out: Vec<&'a str> = Vec::new();
    let mut rest: &'a str = template;
    assert(text::views(out@) =~= seq![]);
    assert(seq![] + names(template@) =~= names(template@));
    loop
        invariant
            text::views(out@) + names(rest@) == names(template@),
        decreases rest@.len(),
    {
        proof {
            lemma_after_is_shorter(rest@);
        }
        match cut_first(rest) {
            Piece::Named { before: _, name, after } => {
                let ghost was = out@;
                out.push(name);
                proof {
                    assert(text::views(out@) =~= text::views(was).push(name@));
                    assert(text::views(out@) + names(after@) =~= text::views(was) + names(rest@));
                }
                rest = after;
            },
            _ => {
                assert(text::views(out@) + names(rest@) =~= text::views(out@));
                return out;
            },
        }
    }
}

/// What stands for a name.
fn resolve(name: &str, facts: &Facts, files: Option<&TextMap<String>>) -> (r: Result<
    String,
    RenderError,
>)
    requires
        files matches Some(f) ==> f.wf(),
    ensures
        rendered(r) == resolved(
            name@,
            facts@,
            known_paths(files),
        ),
{
    match text::strip_prefix(name, "file:") {
        Some(file) => match files {
            Some(files) => match files.get(file) {
                Some(p) => Ok(p.clone()),
                None => Err(RenderError::UnknownFile(file.to_owned())),
            },
            None => Err(RenderError::UnknownFile(name.to_owned())),
        },
        None => match facts.lookup(name) {
            Some(v) => Ok(v),
            None => Err(RenderError::UnknownPlaceholder(name.to_owned())),
        },
    }
}

/// Fills in a template.
pub fn substitute(template: &str, facts: &Facts, files: Option<&TextMap<String>>) -> (r: Result<
    String,
    RenderError,
>)
    requires
        files matches Some(f) ==> f.wf(),
    ensures
        rendered(r) == filled(
            template@,
            facts@,
            known_paths(files),
        ),
    decreases template@.len(),
{
    proof {
        lemma_after_is_shorter(template@);
    }
    match cut_first(template) {
        Piece::Plain => Ok(template.to_owned()),
        Piece::Open => Err(RenderError::Unterminated),
        Piece::Named { before, name, after } => match resolve(name, facts, files) {
            Err(e) => Err(e),
            Ok(v) => match substitute(after, facts, files) {
                Err(e) => Err(e),
                Ok(rest) => {
                    let mut out = before.to_owned();
                    out.append(v.as_str());
                    out.append(rest.as_str());
                    Ok(out)
                },
            },
        },
    }
}

/// Whether a character may stand in the name of a file.
pub open spec fn is_safe(c: char) -> bool {
    text::is_alnum(c) || c == '_' || c == '-'
}

/// The name of a file as one segment of a path: what may not stand there
/// becomes an underscore.
pub open spec fn sanitized(name: Seq<char>) -> Seq<char> {
    name.map_values(
        |c: char|
            if is_safe(c) {
                c
            } else {
                '_'
            },
    )
}

/// A sanitized name keeps its characters one for one, with an underscore for
/// each that is no ASCII letter, no digit, no underscore and no dash. So it is
/// one segment that does not lead out of its directory: it holds no separator
/// and no dot. Sanitizing it again changes nothing.
pub proof fn law_sanitized_is_one_segment(name: Seq<char>)
    ensures
        sanitized(name).len() == name.len(),
        forall|i: int|
            0 <= i < name.len() ==> #[trigger] sanitized(name)[i] == (if is_safe(name[i]) {
                name[i]
            } else {
                '_'
            }),
        forall|i: int| 0 <= i < sanitized(name).len() ==> is_safe(#[trigger] sanitized(name)[i]),
        !sanitized(name).contains('/'),
        !sanitized(name).contains('\\'),
        !sanitized(name).contains('.'),
        sanitized(sanitized(name)) == sanitized(name),
{
    assert forall|i: int| 0 <= i < sanitized(name).len() implies is_safe(
        #[trigger] sanitized(name)[i],
    ) by {}
    assert(sanitized(sanitized(name)) =~= sanitized(name));
}

/// A name as one segment of a path.
pub fn sanitize(name: &str) -> (out: String)
    ensures
        out@ == sanitized(name@),
{
    let chars = text::chars_of(name);
    let mut out = String::new();
    let mut i: usize = 0;
    let ghost goal = sanitized(name@);
    assert(out@ =~= goal.take(0));
    while i < chars.len()
        invariant
            i <= chars.len(),
            chars@ == name@,
            goal == sanitized(name@),
            out@ == goal.take(i as int),
        decreases chars.len() - i,
    {
        let c = chars[i];
        let safe = (('a' <= c && c <= 'z') || ('A' <= c && c <= 'Z') || ('0' <= c && c <= '9')) || c
            == '_' || c == '-';
        assert(goal.take(i + 1) =~= goal.take(i as int).push(goal[i as int]));
        if safe {
            out.push(c);
        } else {
            out.push('_');
        }
        i += 1;
    }
    assert(goal.take(i as int) =~= goal);
    out
}

} // verus!
