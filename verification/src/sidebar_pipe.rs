//! Messages that come to the sidebar through named pipes.

use vstd::prelude::*;
use vstd::string::*;

use crate::host;
use crate::host::{Action, ActionView, PaneId};
use crate::modes::Mode;
use crate::sidebar::{PanoptPane, Refusal};
use crate::sidebar_events;
use crate::sidebar_gate;
use crate::sidebar_slots;
use crate::text;

verus! {

/// A message that every pane of the sidebar takes, and what it leads to: the
/// state, the actions, and whether the pane is to be drawn again.
pub open spec fn shared_message(s: PanoptPane, name: Seq<char>, payload: Option<Seq<char>>) -> Option<
    (PanoptPane, Seq<ActionView>, bool),
> {
    if name == "panopt:close-search"@ {
        let (after, acts) = sidebar_slots::search_closed(s);
        Some((after, acts, true))
    } else if name == "panopt:show-result"@ {
        let (after, acts) = sidebar_gate::search_answered(s, payload);
        Some((after, acts, true))
    } else if name == "panopt:view-sync"@ {
        if payload == Some(s.mode.slug_text()) {
            Some((s, seq![ActionView::AdoptView], true))
        } else {
            Some((s, seq![], false))
        }
    } else if name == "panopt:focus-pane"@ {
        Some(
            (
                s,
                if payload == Some(s.mode.slug_text()) && !s.focused_is_floating {
                    sidebar_events::refocus(s)
                } else {
                    seq![]
                },
                true,
            ),
        )
    } else {
        None
    }
}

/// A message that only the gatekeeper takes, and what it leads to.
pub open spec fn gate_message(
    s: PanoptPane,
    name: Seq<char>,
    payload: Option<Seq<char>>,
    running: Seq<(PaneId, Seq<Seq<char>>)>,
) -> Option<(PanoptPane, Seq<ActionView>)> {
    if name == "panopt:spawn-agent"@ {
        Some(sidebar_gate::agent_asked(s, payload))
    } else if name == "panopt:spawn-blank-pane"@ {
        Some(
            if s.sidebar_focused {
                sidebar_gate::refused(s, Refusal::CreateFromSidebar)
            } else {
                sidebar_gate::blank_opened(s)
            },
        )
    } else if name == "panopt:close-focus-request"@ {
        Some(sidebar_gate::focus_gated(s, running))
    } else if name == "panopt:close-tab-request"@ {
        Some(sidebar_gate::tab_gated(s, running))
    } else if name == "panopt:copy-to-clipboard"@ {
        Some(
            (
                s,
                match payload {
                    Some(t) => seq![ActionView::Copy(t)],
                    None => seq![],
                },
            ),
        )
    } else if name == "panopt:quit-request"@ {
        Some(sidebar_gate::quit_gated(s, running))
    } else if name == "panopt:close-gate-decision"@ {
        Some(sidebar_gate::close_answered(s, payload))
    } else if name == "panopt:delete-gate-decision"@ {
        Some((s, sidebar_gate::delete_answered(s, payload)))
    } else if name == "panopt:open-search"@ {
        Some((s, sidebar_slots::search_opened(s)))
    } else {
        None
    }
}

/// What a message leads to.
pub open spec fn piped(
    s: PanoptPane,
    name: Seq<char>,
    payload: Option<Seq<char>>,
    running: Seq<(PaneId, Seq<Seq<char>>)>,
) -> (PanoptPane, Seq<ActionView>, bool) {
    match shared_message(s, name, payload) {
        Some(r) => r,
        None => if s.mode != Mode::Todos {
            (s, seq![], false)
        } else {
            match gate_message(s, name, payload, running) {
                Some((after, acts)) => (after, acts, true),
                None => (s, seq![], false),
            }
        },
    }
}

/// Only the gatekeeper closes, quits and spawns: what the other panes are sent
/// leaves them as they are, but for the search, the shared view and the focus.
pub proof fn law_only_gatekeeper_gates(
    s: PanoptPane,
    name: Seq<char>,
    payload: Option<Seq<char>>,
    running: Seq<(PaneId, Seq<Seq<char>>)>,
)
    requires
        s.mode != Mode::Todos,
        name != "panopt:close-search"@,
        name != "panopt:show-result"@,
        name != "panopt:view-sync"@,
        name != "panopt:focus-pane"@,
    ensures
        piped(s, name, payload, running) == (s, Seq::<ActionView>::empty(), false),
{
}

/// Whether a text is there and equals another.
fn is_text(o: Option<&str>, s: &str) -> (r: bool)
    ensures
        r == (text::opt_str(o) == Some(s@)),
{
    match o {
        Some(t) => text::same(t, s),
        None => false,
    }
}

impl PanoptPane {
    /// Acts on a message that every pane takes.
    fn take_shared(&mut self, name: &str, payload: Option<&str>) -> (r: Option<(bool, Vec<Action>)>)
        requires
            old(self).next_viewer_slot < u32::MAX,
        ensures
            match r {
                Some((dirty, out)) => shared_message(*old(self), name@, text::opt_str(payload))
                    == Some((*final(self), host::actions(out@), dirty)),
                None => shared_message(*old(self), name@, text::opt_str(payload)) is None
                    && *final(self) == *old(self),
            },
            old(self).wf() ==> final(self).wf(),
    {
        if text::same(name, "panopt:close-search") {
            Some((true, self.close_search_pane()))
        } else if text::same(name, "panopt:show-result") {
            Some((true, self.handle_search_result(payload)))
        } else if text::same(name, "panopt:view-sync") {
            if is_text(payload, self.mode.slug()) {
                Some((true, host::one_action(Action::AdoptView)))
            } else {
                Some((false, host::no_actions()))
            }
        } else if text::same(name, "panopt:focus-pane") {
            if is_text(payload, self.mode.slug()) && !self.focused_is_floating {
                Some((true, self.take_focus_back()))
            } else {
                Some((true, host::no_actions()))
            }
        } else {
            None
        }
    }

    /// Acts on a request to close or to quit.
    fn take_request(&mut self, name: &str, running: &Vec<(PaneId, Vec<String>)>) -> (r: Option<
        Vec<Action>,
    >)
        requires
            old(self).wf(),
        ensures
            ({
                let rv = sidebar_gate::running_views(running@);
                match r {
                    Some(out) => {
                        ||| name@ == "panopt:close-focus-request"@ && (
                            *final(self),
                            host::actions(out@),
                        ) == sidebar_gate::focus_gated(*old(self), rv)
                        ||| name@ == "panopt:close-tab-request"@ && (
                            *final(self),
                            host::actions(out@),
                        ) == sidebar_gate::tab_gated(*old(self), rv)
                        ||| name@ == "panopt:quit-request"@ && (*final(self), host::actions(out@))
                            == sidebar_gate::quit_gated(*old(self), rv)
                    },
                    None => {
                        &&& name@ != "panopt:close-focus-request"@
                        &&& name@ != "panopt:close-tab-request"@
                        &&& name@ != "panopt:quit-request"@
                        &&& *final(self) == *old(self)
                    },
                }
            }),
            final(self).wf(),
    {
        if text::same(name, "panopt:close-focus-request") {
            Some(self.gate_close_focus(running))
        } else if text::same(name, "panopt:close-tab-request") {
            Some(self.gate_close_tab(running))
        } else if text::same(name, "panopt:quit-request") {
            Some(self.gate_quit(running))
        } else {
            None
        }
    }

    /// Acts on any other message that only the gatekeeper takes.
    fn take_order(&mut self, name: &str, payload: Option<&str>) -> (r: Option<Vec<Action>>)
        requires
            old(self).wf(),
            old(self).next_viewer_slot < u32::MAX,
            old(self).next_agent < u32::MAX,
            name@ != "panopt:close-focus-request"@,
            name@ != "panopt:close-tab-request"@,
            name@ != "panopt:quit-request"@,
        ensures
            forall|running: Seq<(PaneId, Seq<Seq<char>>)>|
                match r {
                    Some(out) => #[trigger] gate_message(
                        *old(self),
                        name@,
                        text::opt_str(payload),
                        running,
                    ) == Some((*final(self), host::actions(out@))),
                    None => gate_message(*old(self), name@, text::opt_str(payload), running) is None
                        && *final(self) == *old(self),
                },
            final(self).wf(),
    {
        if text::same(name, "panopt:spawn-agent") {
            Some(self.spawn_agent_pane(payload))
        } else if text::same(name, "panopt:spawn-blank-pane") {
            Some(self.spawn_blank_pane())
        } else if text::same(name, "panopt:copy-to-clipboard") {
            match payload {
                Some(t) => Some(host::one_action(Action::Copy(t.to_owned()))),
                None => Some(host::no_actions()),
            }
        } else if text::same(name, "panopt:close-gate-decision") {
            Some(self.handle_gate_decision(payload))
        } else if text::same(name, "panopt:delete-gate-decision") {
            Some(self.handle_delete_decision(payload))
        } else if text::same(name, "panopt:open-search") {
            Some(self.spawn_search_dialog())
        } else {
            None
        }
    }

    /// Acts on a message, given what the panes run. Returns whether the pane
    /// is to be drawn again.
    pub fn pipe(
        &mut self,
        name: &str,
        payload: Option<&str>,
        running: &Vec<(PaneId, Vec<String>)>,
    ) -> (r: (bool, Vec<Action>))
        requires
            old(self).wf(),
            old(self).next_viewer_slot < u32::MAX,
            old(self).next_agent < u32::MAX,
        ensures
            (*final(self), host::actions(r.1@), r.0) == piped(
                *old(self),
                name@,
                text::opt_str(payload),
                sidebar_gate::running_views(running@),
            ),
            final(self).wf(),
    {
        if let Some(r) = self.take_shared(name, payload) {
            return r;
        }
        if self.mode != Mode::Todos {
            return (false, host::no_actions());
        }
        let ghost rv = sidebar_gate::running_views(running@);
        proof {
            lemma_requests_distinct();
        }
        if let Some(out) = self.take_request(name, running) {
            return (true, out);
        }
        let ghost message = gate_message(*self, name@, text::opt_str(payload), rv);
        match self.take_order(name, payload) {
            Some(out) => (true, out),
            None => (false, host::no_actions()),
        }
    }
}

/// The requests are told apart from the messages named before them.
proof fn lemma_requests_distinct()
    ensures
        "panopt:close-focus-request"@ != "panopt:spawn-agent"@,
        "panopt:close-focus-request"@ != "panopt:spawn-blank-pane"@,
        "panopt:close-tab-request"@ != "panopt:spawn-agent"@,
        "panopt:close-tab-request"@ != "panopt:spawn-blank-pane"@,
        "panopt:close-tab-request"@ != "panopt:close-focus-request"@,
        "panopt:quit-request"@ != "panopt:spawn-agent"@,
        "panopt:quit-request"@ != "panopt:spawn-blank-pane"@,
        "panopt:quit-request"@ != "panopt:close-focus-request"@,
        "panopt:quit-request"@ != "panopt:close-tab-request"@,
        "panopt:quit-request"@ != "panopt:copy-to-clipboard"@,
{
    reveal_strlit("panopt:close-focus-request");
    reveal_strlit("panopt:close-tab-request");
    reveal_strlit("panopt:quit-request");
    reveal_strlit("panopt:spawn-agent");
    reveal_strlit("panopt:spawn-blank-pane");
    reveal_strlit("panopt:copy-to-clipboard");
    assert("panopt:close-focus-request"@[7] == 'c' && "panopt:close-focus-request"@[13] == 'f');
    assert("panopt:close-tab-request"@[7] == 'c' && "panopt:close-tab-request"@[13] == 't');
    assert("panopt:quit-request"@[7] == 'q');
    assert("panopt:spawn-agent"@[7] == 's');
    assert("panopt:spawn-blank-pane"@[7] == 's');
    assert("panopt:copy-to-clipboard"@[7] == 'c');
}

} // verus!
