//! What an agent is doing, read off its output by the patterns of its type.

use vstd::prelude::*;
use vstd::string::*;

use crate::text;
use crate::textmap::TextMap;

verus! {

/// What an agent is doing.
#[derive(Clone, Copy, PartialEq, Eq, PartialOrd, Ord, Debug, Structural)]
pub enum AgentState {
    Thinking,
    Idle,
    Waiting,
    Done,
}

impl AgentState {
    /// The name of a state in files and reports.
    pub open spec fn name(self) -> Seq<char> {
        match self {
            AgentState::Thinking => "thinking"@,
            AgentState::Idle => "idle"@,
            AgentState::Waiting => "waiting"@,
            AgentState::Done => "done"@,
        }
    }

    /// No two states share a name.
    pub proof fn lemma_names_distinct(a: AgentState, b: AgentState)
        ensures
            a.name() == b.name() ==> a == b,
    {
        reveal_strlit("thinking");
        reveal_strlit("idle");
        reveal_strlit("waiting");
        reveal_strlit("done");
        assert("thinking"@[0] == 't' && "idle"@[0] == 'i' && "waiting"@[0] == 'w' && "done"@[0]
            == 'd');
    }

    /// The name of the state.
    pub fn as_str(self) -> (r: &'static str)
        ensures
            r@ == self.name(),
    {
        match self {
            AgentState::Thinking => "thinking",
            AgentState::Idle => "idle",
            AgentState::Waiting => "waiting",
            AgentState::Done => "done",
        }
    }

    /// The state that `s` names.
    pub fn parse(s: &str) -> (r: Option<AgentState>)
        ensures
            match r {
                Some(a) => s@ == a.name(),
                None => forall|a: AgentState| s@ != #[trigger] a.name(),
            },
    {
        if text::same(s, "thinking") {
            Some(AgentState::Thinking)
        } else if text::same(s, "idle") {
            Some(AgentState::Idle)
        } else if text::same(s, "waiting") {
            Some(AgentState::Waiting)
        } else if text::same(s, "done") {
            Some(AgentState::Done)
        } else {
            None
        }
    }
}

/// A compiled regular expression.
#[verifier::external_type_specification]
#[verifier::external_body]
pub struct ExRegex(regex::Regex);

/// Why a text is no regular expression.
#[verifier::external_type_specification]
#[verifier::external_body]
pub struct ExRegexError(regex::Error);

/// What `regex::Regex::new` compiles a pattern to, if it is a valid one.
pub uninterp spec fn regex_of(pattern: Seq<char>) -> Option<regex::Regex>;

/// Whether `regex::Regex::is_match` finds an expression anywhere in a text.
pub uninterp spec fn regex_matches(re: regex::Regex, haystack: Seq<char>) -> bool;

/// `regex::Regex::new`: compiles a pattern. Whether it is valid, and what it
/// compiles to, depends on the pattern alone.
#[verifier::external_body]
fn compile_regex(pattern: &str) -> (r: Result<regex::Regex, regex::Error>)
    ensures
        match r {
            Ok(re) => regex_of(pattern@) == Some(re),
            Err(_) => regex_of(pattern@) is None,
        },
{
    regex::Regex::new(pattern)
}

/// `regex::Regex::is_match`: whether the expression matches anywhere in the
/// text.
#[verifier::external_body]
fn regex_is_match(re: &regex::Regex, haystack: &str) -> (r: bool)
    ensures
        r == regex_matches(*re, haystack@),
{
    re.is_match(haystack)
}

/// Whether one of the expressions matches.
pub open spec fn any_matches(patterns: Seq<regex::Regex>, output: Seq<char>) -> bool {
    exists|i: int| 0 <= i < patterns.len() && #[trigger] regex_matches(patterns[i], output)
}

/// Whether one of the expressions matches.
fn any_match(patterns: &Vec<regex::Regex>, output: &str) -> (r: bool)
    ensures
        r == any_matches(patterns@, output@),
{
    let mut i: usize = 0;
    while i < patterns.len()
        invariant
            i <= patterns.len(),
            forall|k: int| 0 <= k < i ==> !#[trigger] regex_matches(patterns@[k], output@),
        decreases patterns.len() - i,
    {
        if regex_is_match(&patterns[i], output) {
            return true;
        }
        i += 1;
    }
    false
}

/// The status rules of an agent type: for each state, the patterns that tell
/// it. A state stands at most once; of several, the first counts.
#[derive(Debug)]
pub struct StatusRules {
    pub rules: Vec<(AgentState, Vec<String>)>,
}

impl Default for StatusRules {
    /// No rules.
    fn default() -> (r: StatusRules)
        ensures
            r.rules@.len() == 0,
    {
        StatusRules { rules: Vec::new() }
    }
}

/// The patterns that a list of rules has for a state.
pub open spec fn patterns_in(
    rules: Seq<(AgentState, Vec<String>)>,
    state: AgentState,
) -> Option<Seq<Seq<char>>>
    decreases rules.len(),
{
    if rules.len() == 0 {
        None
    } else if rules[0].0 == state {
        Some(text::texts(rules[0].1@))
    } else {
        patterns_in(rules.drop_first(), state)
    }
}

impl StatusRules {
    /// The patterns for a state.
    pub open spec fn patterns(self, state: AgentState) -> Option<Seq<Seq<char>>> {
        patterns_in(self.rules@, state)
    }

    /// The patterns for a state, none where it has none.
    pub open spec fn pattern_list(self, state: AgentState) -> Seq<Seq<char>> {
        match self.patterns(state) {
            Some(p) => p,
            None => seq![],
        }
    }

    /// The patterns for a state.
    pub fn get(&self, state: AgentState) -> (r: Option<&Vec<String>>)
        ensures
            match r {
                Some(v) => self.patterns(state) == Some(text::texts(v@)),
                None => self.patterns(state) is None,
            },
    {
        let mut i: usize = 0;
        assert(self.rules@.skip(0) =~= self.rules@);
        while i < self.rules.len()
            invariant
                i <= self.rules.len(),
                self.patterns(state) == patterns_in(self.rules@.skip(i as int), state),
            decreases self.rules.len() - i,
        {
            assert(self.rules@.skip(i as int)[0] == self.rules@[i as int]);
            if self.rules[i].0 == state {
                return Some(&self.rules[i].1);
            }
            assert(self.rules@.skip(i as int).drop_first() =~= self.rules@.skip(i + 1));
            i += 1;
        }
        None
    }
}

/// Why the status rules of a type cannot be used.
#[derive(Debug)]
pub enum StatusError {
    /// A pattern that is no regular expression.
    Pattern { state: AgentState, pattern: String, source: regex::Error },
}

/// The compiled patterns of an agent type.
#[derive(Debug)]
pub struct StatusMatcher {
    waiting: Vec<regex::Regex>,
    thinking: Vec<regex::Regex>,
    done: Vec<regex::Regex>,
}

/// The first pattern that is no regular expression.
pub open spec fn first_invalid(patterns: Seq<Seq<char>>) -> Option<Seq<char>>
    decreases patterns.len(),
{
    if patterns.len() == 0 {
        None
    } else if regex_of(patterns[0]) is None {
        Some(patterns[0])
    } else {
        first_invalid(patterns.drop_first())
    }
}

/// What a run of valid patterns compiles to.
pub open spec fn compiled(patterns: Seq<Seq<char>>) -> Seq<regex::Regex> {
    patterns.map_values(|p: Seq<char>| regex_of(p)->0)
}

/// The first invalid pattern of a type's rules, in the order of precedence.
pub open spec fn invalid_rule(rules: StatusRules) -> Option<(AgentState, Seq<char>)> {
    match first_invalid(rules.pattern_list(AgentState::Waiting)) {
        Some(p) => Some((AgentState::Waiting, p)),
        None => match first_invalid(rules.pattern_list(AgentState::Thinking)) {
            Some(p) => Some((AgentState::Thinking, p)),
            None => match first_invalid(rules.pattern_list(AgentState::Done)) {
                Some(p) => Some((AgentState::Done, p)),
                None => None,
            },
        },
    }
}

impl StatusMatcher {
    /// The expressions for a state; idle has none.
    pub closed spec fn patterns(self, state: AgentState) -> Seq<regex::Regex> {
        match state {
            AgentState::Waiting => self.waiting@,
            AgentState::Thinking => self.thinking@,
            AgentState::Done => self.done@,
            AgentState::Idle => seq![],
        }
    }

    /// What an output shows: waiting for a human before thinking before done,
    /// and idle where nothing matches.
    pub open spec fn state_of(self, output: Seq<char>) -> AgentState {
        if any_matches(self.patterns(AgentState::Waiting), output) {
            AgentState::Waiting
        } else if any_matches(self.patterns(AgentState::Thinking), output) {
            AgentState::Thinking
        } else if any_matches(self.patterns(AgentState::Done), output) {
            AgentState::Done
        } else {
            AgentState::Idle
        }
    }

    /// A matcher without patterns.
    fn empty() -> (m: StatusMatcher)
        ensures
            forall|s: AgentState| #[trigger] m.patterns(s) == Seq::<regex::Regex>::empty(),
    {
        let m = StatusMatcher { waiting: Vec::new(), thinking: Vec::new(), done: Vec::new() };
        assert forall|s: AgentState| #[trigger] m.patterns(s) == Seq::<regex::Regex>::empty() by {
            assert(m.patterns(s) =~= Seq::<regex::Regex>::empty());
        }
        m
    }

    /// Adds one expression for a state; one for idle changes nothing.
    fn add(&mut self, state: AgentState, re: regex::Regex)
        ensures
            forall|s: AgentState|
                #[trigger] final(self).patterns(s) == (if s == state && s != AgentState::Idle {
                    old(self).patterns(s).push(re)
                } else {
                    old(self).patterns(s)
                }),
    {
        match state {
            AgentState::Waiting => self.waiting.push(re),
            AgentState::Thinking => self.thinking.push(re),
            AgentState::Done => self.done.push(re),
            AgentState::Idle => {},
        }
    }

    /// Compiles the rules of a type. The first pattern that is no regular
    /// expression, in the order of precedence, is the error.
    pub fn compile(rules: &StatusRules) -> (r: Result<StatusMatcher, StatusError>)
        ensures
            match r {
                Ok(m) => {
                    &&& invalid_rule(*rules) is None
                    &&& forall|s: AgentState|
                        s != AgentState::Idle ==> #[trigger] m.patterns(s) == compiled(
                            rules.pattern_list(s),
                        )
                },
                Err(StatusError::Pattern { state, pattern, source }) => invalid_rule(*rules)
                    == Some((state, pattern@)),
            },
    {
        let waiting = match compile_state(rules, AgentState::Waiting) {
            Ok(v) => v,
            Err(e) => {
                return Err(e);
            },
        };
        let thinking = match compile_state(rules, AgentState::Thinking) {
            Ok(v) => v,
            Err(e) => {
                return Err(e);
            },
        };
        let done = match compile_state(rules, AgentState::Done) {
            Ok(v) => v,
            Err(e) => {
                return Err(e);
            },
        };
        Ok(StatusMatcher { waiting, thinking, done })
    }

    /// What an output snapshot shows.
    pub fn classify(&self, output: &str) -> (r: AgentState)
        ensures
            r == self.state_of(output@),
    {
        state_from(
            any_match(&self.waiting, output),
            any_match(&self.thinking, output),
            any_match(&self.done, output),
        )
    }
}

/// The state that an output shows, given which states have a pattern that
/// matches it: waiting comes before thinking, thinking before done, and where
/// none matches the agent is idle.
pub fn state_from(waiting: bool, thinking: bool, done: bool) -> (r: AgentState)
    ensures
        r == AgentState::Waiting <==> waiting,
        r == AgentState::Thinking <==> thinking && !waiting,
        r == AgentState::Done <==> done && !thinking && !waiting,
        r == AgentState::Idle <==> !done && !thinking && !waiting,
{
    if waiting {
        AgentState::Waiting
    } else if thinking {
        AgentState::Thinking
    } else if done {
        AgentState::Done
    } else {
        AgentState::Idle
    }
}

/// Compiles the patterns of one state.
fn compile_state(rules: &StatusRules, state: AgentState) -> (r: Result<
    Vec<regex::Regex>,
    StatusError,
>)
    ensures
        match r {
            Ok(v) => first_invalid(rules.pattern_list(state)) is None && v@ == compiled(
                rules.pattern_list(state),
            ),
            Err(StatusError::Pattern { state: s, pattern, source }) => s == state && first_invalid(
                rules.pattern_list(state),
            ) == Some(pattern@),
        },
{
    let mut out: Vec<regex::Regex> = Vec::new();
    let ghost all = rules.pattern_list(state);
    let patterns = match rules.get(state) {
        Some(p) => p,
        None => {
            assert(out@ =~= compiled(all));
            return Ok(out);
        },
    };
    let mut i: usize = 0;
    assert(all.skip(0) =~= all);
    while i < patterns.len()
        invariant
            i <= patterns.len(),
            all == rules.pattern_list(state),
            all == text::texts(patterns@),
            out@ == compiled(all.take(i as int)),
            first_invalid(all) == first_invalid(all.skip(i as int)),
        decreases patterns.len() - i,
    {
        assert(all.skip(i as int)[0] == patterns@[i as int]@);
        match compile_regex(patterns[i].as_str()) {
            Ok(re) => {
                let ghost before = out@;
                out.push(re);
                proof {
                    assert(all.skip(i as int).drop_first() =~= all.skip(i + 1));
                    assert(out@ =~= compiled(all.take(i + 1))) by {
                        assert(all.take(i + 1) =~= all.take(i as int).push(all[i as int]));
                    }
                }
            },
            Err(source) => {
                return Err(StatusError::Pattern { state, pattern: patterns[i].clone(), source });
            },
        }
        i += 1;
    }
    assert(all.take(i as int) =~= all);
    Ok(out)
}

/// How many lines up from the bottom of a pane count as its live region.
pub const LIVE_REGION_LINES: usize = 12;

/// A line that holds nothing but white space.
pub open spec fn blank(line: Seq<char>) -> bool {
    text::trimmed(line).len() == 0
}

/// The lines that are not blank, in order.
pub open spec fn filled_lines(lines: Seq<Seq<char>>) -> Seq<Seq<char>> {
    lines.filter(|l: Seq<char>| !blank(l))
}

/// The last of the lines, at most `n`.
pub open spec fn last_lines(lines: Seq<Seq<char>>, n: int) -> Seq<Seq<char>> {
    if lines.len() <= n {
        lines
    } else {
        lines.skip(lines.len() - n)
    }
}

/// The live region of a viewport: the last of its lines that are not blank, one
/// to a line.
pub open spec fn live_region(lines: Seq<Seq<char>>) -> Seq<char> {
    text::joined(last_lines(filled_lines(lines), LIVE_REGION_LINES as int), "\n"@)
}

/// The lines of a viewport that are not blank.
fn filled_of<'a>(viewport: &'a [String]) -> (out: Vec<&'a str>)
    ensures
        text::views(out@) == filled_lines(text::texts(viewport@)),
{
    let ghost all = text::texts(viewport@);
    let mut out: Vec<&'a str> = Vec::new();
    let mut i: usize = 0;
    proof {
        reveal(Seq::filter);
        assert(all.take(0) =~= seq![]);
        assert(text::views(out@) =~= filled_lines(all.take(0)));
    }
    while i < viewport.len()
        invariant
            i <= viewport.len(),
            all == text::texts(viewport@),
            text::views(out@) == filled_lines(all.take(i as int)),
        decreases viewport.len() - i,
    {
        let ghost before = out@;
        let line = viewport[i].as_str();
        proof {
            reveal(Seq::filter);
            assert(all.take(i + 1).drop_last() =~= all.take(i as int));
            assert(all.take(i + 1).last() == line@);
        }
        if text::trim(line).unicode_len() > 0 {
            out.push(line);
            assert(text::views(out@) =~= text::views(before).push(line@));
        }
        i += 1;
    }
    assert(all.take(i as int) =~= all);
    out
}

/// The part of a viewport that an agent repaints in place: its last lines that
/// are not blank.
pub fn viewport_live_region(viewport: &[String]) -> (r: String)
    ensures
        r@ == live_region(text::texts(viewport@)),
{
    let lines = filled_of(viewport);
    let ghost all = text::views(lines@);
    let start: usize = if lines.len() <= LIVE_REGION_LINES {
        0
    } else {
        lines.len() - LIVE_REGION_LINES
    };
    let mut parts: Vec<&str> = Vec::new();
    let mut i: usize = start;
    while i < lines.len()
        invariant
            start <= i <= lines.len(),
            all == text::views(lines@),
            text::views(parts@) == all.subrange(start as int, i as int),
        decreases lines.len() - i,
    {
        let ghost before = parts@;
        parts.push(lines[i]);
        proof {
            assert(text::views(parts@) =~= text::views(before).push(lines@[i as int]@));
            assert(all.subrange(start as int, i + 1) =~= all.subrange(start as int, i as int).push(
                all[i as int],
            ));
        }
        i += 1;
    }
    assert(all.subrange(start as int, i as int) =~= last_lines(all, LIVE_REGION_LINES as int));
    text::join(&parts, "\n")
}

// ---------------------------------------------------------------------------
// The projected patterns of every type
// ---------------------------------------------------------------------------

/// One pattern of the projection: the type it belongs to, the state it tells
/// and the expression.
pub struct TypePattern {
    pub tool_type: Seq<char>,
    pub state: AgentState,
    pub re: regex::Regex,
}

/// The type that the last heading names.
pub open spec fn heading(lines: Seq<Seq<char>>) -> Option<Seq<char>>
    decreases lines.len(),
{
    if lines.len() == 0 {
        None
    } else {
        match text::after_prefix(text::trimmed(lines.last()), "## "@) {
            Some(name) => Some(text::trimmed(name)),
            None => heading(lines.drop_last()),
        }
    }
}

/// A state that a text names.
pub open spec fn named_state(s: Seq<char>) -> Option<AgentState> {
    if s == AgentState::Thinking.name() {
        Some(AgentState::Thinking)
    } else if s == AgentState::Idle.name() {
        Some(AgentState::Idle)
    } else if s == AgentState::Waiting.name() {
        Some(AgentState::Waiting)
    } else if s == AgentState::Done.name() {
        Some(AgentState::Done)
    } else {
        None
    }
}

/// What a pattern line says: `<state> = <expression>`.
pub open spec fn pattern_line(line: Seq<char>) -> Option<(AgentState, regex::Regex)> {
    match text::cut(line, " = "@) {
        None => None,
        Some((left, right)) => match (
            named_state(text::trimmed(left)),
            regex_of(text::trimmed(right)),
        ) {
            (Some(state), Some(re)) => Some((state, re)),
            _ => None,
        },
    }
}

/// The patterns that the lines of the projection give, in order. A line that
/// cannot be read gives none.
pub open spec fn type_patterns(lines: Seq<Seq<char>>) -> Seq<TypePattern>
    decreases lines.len(),
{
    if lines.len() == 0 {
        seq![]
    } else {
        let before = type_patterns(lines.drop_last());
        let line = text::trimmed(lines.last());
        if text::begins(line, "## "@) {
            before
        } else {
            match (heading(lines.drop_last()), pattern_line(line)) {
                (Some(tool_type), Some((state, re))) => before.push(
                    TypePattern { tool_type, state, re },
                ),
                _ => before,
            }
        }
    }
}

/// The expressions among the patterns that tell a state of a type, in order.
pub open spec fn expressions(
    patterns: Seq<TypePattern>,
    tool_type: Seq<char>,
    state: AgentState,
) -> Seq<regex::Regex>
    decreases patterns.len(),
{
    if patterns.len() == 0 {
        seq![]
    } else {
        let before = expressions(patterns.drop_last(), tool_type, state);
        if patterns.last().tool_type == tool_type && patterns.last().state == state {
            before.push(patterns.last().re)
        } else {
            before
        }
    }
}

/// Whether one of the patterns belongs to a type.
pub open spec fn has_type(patterns: Seq<TypePattern>, tool_type: Seq<char>) -> bool {
    exists|i: int| 0 <= i < patterns.len() && #[trigger] patterns[i].tool_type == tool_type
}

/// The matchers hold what the patterns say: a matcher for each type with a
/// pattern, and in it the type's expressions.
pub open spec fn matchers_of(m: TextMap<StatusMatcher>, patterns: Seq<TypePattern>) -> bool {
    &&& m.wf()
    &&& forall|t: Seq<char>| #[trigger] m.has(t) <==> has_type(patterns, t)
    &&& forall|t: Seq<char>, s: AgentState|
        m.has(t) && s != AgentState::Idle ==> #[trigger] m.value(t).patterns(s) == expressions(
            patterns,
            t,
            s,
        )
}

/// Names are told apart.
proof fn lemma_named_state(s: Seq<char>, a: AgentState)
    ensures
        s == a.name() ==> named_state(s) == Some(a),
{
    AgentState::lemma_names_distinct(a, AgentState::Thinking);
    AgentState::lemma_names_distinct(a, AgentState::Idle);
    AgentState::lemma_names_distinct(a, AgentState::Waiting);
    AgentState::lemma_names_distinct(a, AgentState::Done);
}

/// The state and the expression of a pattern line.
fn parse_pattern_line(line: &str) -> (r: Option<(AgentState, regex::Regex)>)
    ensures
        r == pattern_line(line@),
{
    match text::split_once(line, " = ") {
        None => None,
        Some((left, right)) => match AgentState::parse(text::trim(left)) {
            None => None,
            Some(state) => {
                proof {
                    lemma_named_state(text::trimmed(left@), state);
                }
                match compile_regex(text::trim(right)) {
                    Ok(re) => Some((state, re)),
                    Err(_) => None,
                }
            },
        },
    }
}

/// Without a pattern for a type, it has no expressions.
proof fn lemma_no_expressions(patterns: Seq<TypePattern>, t: Seq<char>, s: AgentState)
    requires
        !has_type(patterns, t),
    ensures
        expressions(patterns, t, s) == Seq::<regex::Regex>::empty(),
    decreases patterns.len(),
{
    if patterns.len() > 0 {
        assert(patterns[patterns.len() - 1].tool_type != t);
        assert(!has_type(patterns.drop_last(), t)) by {
            if has_type(patterns.drop_last(), t) {
                let i = choose|i: int|
                    0 <= i < patterns.len() - 1 && patterns.drop_last()[i].tool_type == t;
                assert(patterns[i].tool_type == t);
            }
        }
        lemma_no_expressions(patterns.drop_last(), t, s);
    }
}

/// Adds one pattern to the matchers.
fn add_pattern(
    m: &mut TextMap<StatusMatcher>,
    tool_type: &str,
    state: AgentState,
    re: regex::Regex,
    patterns: Ghost<Seq<TypePattern>>,
)
    requires
        matchers_of(*old(m), patterns@),
    ensures
        matchers_of(*final(m), patterns@.push((TypePattern { tool_type: tool_type@, state, re }))),
{
    let ghost p = TypePattern { tool_type: tool_type@, state, re };
    let ghost all = patterns@.push(p);
    let ghost before = *m;
    let taken = m.remove(tool_type);
    let mut matcher = match taken {
        Some(matcher) => matcher,
        None => {
            proof {
                assert forall|s: AgentState| expressions(patterns@, tool_type@, s) == Seq::<
                    regex::Regex,
                >::empty() by {
                    lemma_no_expressions(patterns@, tool_type@, s);
                }
            }
            StatusMatcher::empty()
        },
    };
    let ghost held = matcher;
    matcher.add(state, re);
    m.insert(tool_type.to_owned(), matcher);
    proof {
        assert(all.drop_last() =~= patterns@);
        assert forall|t: Seq<char>| #[trigger] m.has(t) <==> has_type(all, t) by {
            if has_type(patterns@, t) {
                let i = choose|i: int|
                    0 <= i < patterns@.len() && #[trigger] patterns@[i].tool_type == t;
                assert(all[i].tool_type == t);
            }
            assert(all[all.len() - 1].tool_type == tool_type@);
            if has_type(all, t) && t != tool_type@ {
                let i = choose|i: int| 0 <= i < all.len() && #[trigger] all[i].tool_type == t;
                assert(patterns@[i].tool_type == t);
            }
            assert(before.has(t) <==> has_type(patterns@, t));
        }
        assert forall|t: Seq<char>, s: AgentState| m.has(t) && s != AgentState::Idle implies
            #[trigger] m.value(t).patterns(s) == expressions(all, t, s) by {
            if t == tool_type@ {
                assert(held.patterns(s) == expressions(patterns@, t, s)) by {
                    if before.has(t) {
                        assert(before.value(t).patterns(s) == expressions(patterns@, t, s));
                    }
                }
            } else {
                assert(before.has(t));
                assert(before.value(t).patterns(s) == expressions(patterns@, t, s));
            }
        }
    }
}

/// The matcher of every agent type in the projected patterns: headings
/// `## <type>`, each followed by lines `<state> = <expression>`. Tolerant: a
/// line that cannot be read, or whose expression is invalid, is left out.
pub fn parse_agent_type_matchers(body: &str) -> (m: TextMap<StatusMatcher>)
    ensures
        matchers_of(m, type_patterns(text::line_seq(body@))),
{
    let mut m: TextMap<StatusMatcher> = TextMap::new();
    let mut current: Option<String> = None;
    let lines = text::lines(body);
    let ghost all = text::views(lines@);
    let mut i: usize = 0;
    proof {
        assert(all.take(0) =~= seq![]);
        assert forall|t: Seq<char>| !m.has(t) by {}
    }
    while i < lines.len()
        invariant
            i <= lines.len(),
            all == text::views(lines@),
            matchers_of(m, type_patterns(all.take(i as int))),
            text::opt_text(current) == heading(all.take(i as int)),
        decreases lines.len() - i,
    {
        proof {
            assert(all.take(i + 1).drop_last() =~= all.take(i as int));
            assert(all.take(i + 1).last() == lines@[i as int]@);
        }
        let line = text::trim(lines[i]);
        match text::strip_prefix(line, "## ") {
            Some(name) => {
                current = Some(text::trim(name).to_owned());
            },
            None => {
                if let Some(tool_type) = &current {
                    if let Some((state, re)) = parse_pattern_line(line) {
                        add_pattern(
                            &mut m,
                            tool_type.as_str(),
                            state,
                            re,
                            Ghost(type_patterns(all.take(i as int))),
                        );
                    }
                }
            },
        }
        i += 1;
    }
    assert(all.take(i as int) =~= all);
    m
}

} // verus!
