use panopt::host::{PaneId, PaneInfo, PaneManifest};
use panopt::modes::Mode;
use panopt::rows::ProcessRow;
use panopt::sidebar::{ItemTarget, PanoptPane};
use std::collections::HashSet;

fn one_tab(panes: Vec<PaneInfo>) -> PaneManifest {
    PaneManifest {
        tabs: vec![(0, panes)],
    }
}

fn pane_with(mode: Mode) -> PanoptPane {
    let mut pane = PanoptPane::blank(mode);
    pane.mode_known = true;
    pane.permitted = true;
    pane.last_rows = 10;
    pane
}

fn todos_pane(n: usize) -> PanoptPane {
    let mut pane = pane_with(Mode::Todos);
    pane.todos = (0..n).map(|i| (i as u64, format!("todo {i}"))).collect();
    pane.rebuild_items();
    pane
}

#[test]
fn cursor_walks_each_item_and_clamps_at_the_ends() {
    let mut pane = todos_pane(3);
    assert_eq!(pane.cursor, 0);
    assert!(!pane.move_cursor(-1));
    assert!(pane.move_cursor(1));
    assert_eq!(pane.cursor, 1);
    assert!(pane.move_cursor(1));
    assert_eq!(pane.cursor, 2);
    assert!(!pane.move_cursor(1));
    assert_eq!(pane.cursor, 2);
}

#[test]
fn cursor_no_movement_on_empty_list() {
    let mut pane = pane_with(Mode::Todos);
    assert!(!pane.move_cursor(1));
    assert!(!pane.move_cursor(-1));
}

#[test]
fn scroll_pages_when_cursor_passes_the_visible_window() {
    // last_rows = 10, Todos pane reserves the bottom row for the sort
    // status line, so list_rows() = 9 items visible.
    let mut pane = todos_pane(20);
    // Move cursor down through the visible window; the 9th step lands
    // on cursor 8, which is the last row still in view (scroll stays).
    for _ in 0..8 {
        pane.move_cursor(1);
    }
    assert_eq!(pane.cursor, 8);
    assert_eq!(pane.scroll, 0, "scroll: {}", pane.scroll);
    // The next step pushes cursor past the bottom edge, scroll jumps to 1.
    pane.move_cursor(1);
    assert_eq!(pane.cursor, 9);
    assert_eq!(pane.scroll, 1);
    // Continue past the end: scroll keeps pace.
    for _ in 0..10 {
        pane.move_cursor(1);
    }
    assert_eq!(pane.cursor, 19);
    assert_eq!(pane.scroll, 11); // cursor(19) + 1 - visible(9) = 11
}

#[test]
fn scroll_resets_when_list_shrinks_under_cursor() {
    let mut pane = todos_pane(20);
    for _ in 0..15 {
        pane.move_cursor(1);
    }
    assert_eq!(pane.cursor, 15);
    // The list shrinks below the cursor; clamp_cursor keeps things sane.
    pane.todos.truncate(5);
    pane.rebuild_items();
    assert_eq!(pane.cursor, 4);
    let visible = pane.last_rows.saturating_sub(1).max(1);
    assert!(pane.scroll <= pane.items.len().saturating_sub(visible));
}

#[test]
fn focused_target_reads_the_cursor() {
    let mut pane = todos_pane(2);
    assert!(matches!(pane.focused_target(), Some(ItemTarget::Todo(0))));
    pane.move_cursor(1);
    assert!(matches!(pane.focused_target(), Some(ItemTarget::Todo(1))));
}

#[test]
fn disposed_reconciled_panes_selects_only_gone_or_terminal_rows() {
    let mut pane = pane_with(Mode::Todos);
    let row = |id: u64, status: &str| ProcessRow {
        id,
        status: Some(status.to_string()),
        ..Default::default()
    };
    // #1 running (live), #2 stopped, #3 exited; #4 has no row (deleted).
    pane.processes = vec![row(1, "running"), row(2, "stopped"), row(3, "exited")];
    for (id, at) in [(1u64, 11u32), (2, 12), (3, 13), (4, 14)] {
        pane.reconciled_panes.insert(id, at);
    }

    let mut disposed = pane.disposed_reconciled_panes();
    disposed.sort();
    // Only the terminal (#2/#3) and deleted (#4) rows are disposed; the
    // running instance keeps its pane.
    assert_eq!(disposed, vec![(2, 12), (3, 13), (4, 14)]);
}

#[test]
fn ingest_panes_orders_content_panes_by_id() {
    let pane = |id: u32, cmd: &str| PaneInfo {
        id,
        is_selectable: true,
        terminal_command: Some(cmd.to_string()),
        ..Default::default()
    };
    let panes = one_tab(
        vec![
            pane(9, "/bin/panopt _agent --id b"),
            pane(4, "/bin/panopt _agent --id a"),
        ],
    );
    let mut sidebar = pane_with(Mode::Agents);
    sidebar.ingest_panes(panes);
    sidebar.rebuild_items();
    assert!(matches!(
        sidebar.items[0].target,
        ItemTarget::Pane(PaneId::Terminal(4))
    ));
    assert!(matches!(
        sidebar.items[1].target,
        ItemTarget::Pane(PaneId::Terminal(9))
    ));
}

#[test]
fn ingest_panes_captures_each_viewer_slot_name() {
    let panes = one_tab(
        vec![
            PaneInfo {
                id: 3,
                is_selectable: true,
                terminal_command: Some(
                    "/bin/panopt _viewer --slot main --port 7600".to_string(),
                ),
                ..Default::default()
            },
            PaneInfo {
                id: 7,
                is_selectable: true,
                is_suppressed: true,
                terminal_command: Some(
                    "/bin/panopt _viewer --slot vt1 --port 7600".to_string(),
                ),
                ..Default::default()
            },
            PaneInfo {
                id: 9,
                is_selectable: true,
                terminal_command: Some("/bin/panopt _agent".to_string()),
                ..Default::default()
            },
        ],
    );
    let mut sidebar = pane_with(Mode::Todos);
    sidebar.ingest_panes(panes);
    assert_eq!(
        sidebar.viewer_slot_of(PaneId::Terminal(3)),
        Some("main".to_string())
    );
    assert_eq!(
        sidebar.viewer_slot_of(PaneId::Terminal(7)),
        Some("vt1".to_string())
    );
    assert_eq!(sidebar.first_suppressed_viewer(), Some(PaneId::Terminal(7)));
    assert!(sidebar.viewer_slot_of(PaneId::Terminal(9)).is_none());
}

#[test]
fn pane_is_visible_tracks_the_suppressed_flag() {
    let make_pane = |id: u32, suppressed: bool| PaneInfo {
        id,
        is_selectable: true,
        is_suppressed: suppressed,
        terminal_command: Some("/bin/panopt _agent".to_string()),
        ..Default::default()
    };
    let panes = one_tab(vec![make_pane(4, false), make_pane(9, true)]);
    let mut sidebar = pane_with(Mode::Todos);
    sidebar.ingest_panes(panes);
    assert!(sidebar.pane_is_visible(PaneId::Terminal(4)));
    assert!(!sidebar.pane_is_visible(PaneId::Terminal(9)));
    assert!(!sidebar.pane_is_visible(PaneId::Terminal(99)));
}

#[test]
fn ingest_panes_drops_a_suppressed_slot_and_readopts_the_viewer() {
    // The Agents instance holds an agent pane as its slot. Another
    // instance then swaps a viewer into the content area, suppressing the
    // agent. On the next manifest the agent (id 4) is suppressed and a
    // visible viewer (id 7) holds the slot. The stale agent slot must be
    // dropped and the visible viewer re-adopted - otherwise Enter on the
    // agent would `focus_pane_with_id` a suppressed pane and split the
    // focused sidebar pane.
    let mut sidebar = pane_with(Mode::Agents);
    sidebar.slot_pane = Some(PaneId::Terminal(4));
    let panes = one_tab(
        vec![
            PaneInfo {
                id: 4,
                is_selectable: true,
                is_suppressed: true,
                terminal_command: Some("/bin/panopt _agent --id a".to_string()),
                ..Default::default()
            },
            PaneInfo {
                id: 7,
                is_selectable: true,
                terminal_command: Some(
                    "/bin/panopt _viewer --slot vt1 --port 7600".to_string(),
                ),
                ..Default::default()
            },
        ],
    );
    sidebar.ingest_panes(panes);
    assert_eq!(sidebar.slot_pane, Some(PaneId::Terminal(7)));
}

#[test]
fn live_content_count_excludes_suppressed_panes() {
    // A visible agent in front of the suppressed boot viewer. The whole-
    // session count (which gates the deliberate close) sees both; the live
    // count (which the reclaim watches) sees only the agent - a hidden pane
    // does nothing to stop the sidebar expanding.
    let panes = one_tab(
        vec![
            PaneInfo {
                id: 3,
                is_selectable: true,
                is_suppressed: true,
                terminal_command: Some(
                    "/bin/panopt _viewer --slot main --port 7600".to_string(),
                ),
                ..Default::default()
            },
            PaneInfo {
                id: 9,
                is_selectable: true,
                terminal_command: Some("/bin/panopt _agent --id a".to_string()),
                ..Default::default()
            },
        ],
    );
    let mut sidebar = pane_with(Mode::Todos);
    sidebar.ingest_panes(panes);
    assert_eq!(sidebar.content_pane_count(), 2);
    assert_eq!(sidebar.live_content_pane_count(), 1);
}

#[test]
fn exited_husk_is_not_live_content() {
    // `/q` in an agent pane exits its command, but the `_agent` command
    // pane does not close - it lingers drawn, showing the exit status. It
    // holds its tile (so the sidebar does not expand) but it is dead: not a
    // usable slot. The live count must therefore read zero so the reclaim
    // fires and swaps a clean empty viewer in over the husk - rather than a
    // stale husk being mistaken for usable content and left on screen.
    let panes = one_tab(
        vec![
            PaneInfo {
                id: 9,
                is_selectable: true,
                exited: true,
                terminal_command: Some("/bin/panopt _agent --id a".to_string()),
                ..Default::default()
            },
            PaneInfo {
                id: 3,
                is_selectable: true,
                is_suppressed: true,
                terminal_command: Some(
                    "/bin/panopt _viewer --slot main --port 7600".to_string(),
                ),
                ..Default::default()
            },
        ],
    );
    let mut sidebar = pane_with(Mode::Todos);
    sidebar.ingest_panes(panes);
    // The husk is excluded from the deliberate-close count (it is gone as
    // far as swappable content goes)...
    assert_eq!(sidebar.content_pane_count(), 1);
    // ...and it is not live content either, so the reclaim treats the right
    // side as having no usable pane and steps in.
    assert_eq!(sidebar.live_content_pane_count(), 0);
    // The boot viewer is still around (suppressed) for `clear_slot` to swap
    // back over the husk.
    assert_eq!(sidebar.first_suppressed_viewer(), Some(PaneId::Terminal(3)));
}

#[test]
fn floor_waits_for_the_boot_viewer_before_arming() {
    // A PaneUpdate can arrive with zero content before the layout's
    // `--slot main` viewer is registered. The floor must not arm then
    // (spawning would duplicate the boot viewer); `has_had_content` stays
    // false until a visible content pane is actually seen, and flips once
    // one is.
    let mut sidebar = pane_with(Mode::Todos);
    sidebar.ingest_panes(PaneManifest { tabs: vec![] });
    assert!(!sidebar.has_had_content);

    let panes = one_tab(
        vec![PaneInfo {
            id: 3,
            is_selectable: true,
            terminal_command: Some("/bin/panopt _viewer --slot main --port 7600".to_string()),
            ..Default::default()
        }],
    );
    sidebar.ingest_panes(panes);
    assert!(sidebar.has_had_content);
}

#[test]
fn agent_panes_get_stable_distinct_labels() {
    let agent = |id: u32| PaneInfo {
        id,
        is_selectable: true,
        terminal_command: Some("/bin/panopt _agent".to_string()),
        ..Default::default()
    };
    let manifest = |ids: &[u32]| {
        one_tab(ids.iter().map(|&id| agent(id)).collect())
    };
    let mut sidebar = pane_with(Mode::Agents);
    sidebar.ingest_panes(manifest(&[4, 9]));
    sidebar.rebuild_items();
    assert_eq!(sidebar.items[0].label, "Agent 1");
    assert_eq!(sidebar.items[1].label, "Agent 2");
    sidebar.ingest_panes(manifest(&[12, 9, 4]));
    sidebar.rebuild_items();
    assert_eq!(sidebar.items[0].label, "Agent 1");
    assert_eq!(sidebar.items[1].label, "Agent 2");
    assert_eq!(sidebar.items[2].label, "Agent 3");
}

#[test]
fn mode_parse_recognizes_each_kind() {
    for (s, m) in [
        ("todos", Mode::Todos),
        ("agents", Mode::Agents),
        ("terminals", Mode::Terminals),
        ("commands", Mode::Commands),
        ("notes", Mode::Notes),
    ] {
        assert_eq!(Mode::parse(s), Some(m));
    }
    assert_eq!(Mode::parse("bogus"), None);
    assert_eq!(Mode::parse(""), None);
}

#[test]
fn mode_letters_are_distinct() {
    let letters: HashSet<char> = [
        Mode::Todos,
        Mode::Agents,
        Mode::Terminals,
        Mode::Commands,
        Mode::Notes,
    ]
    .into_iter()
    .map(|m| m.letter())
    .collect();
    assert_eq!(letters.len(), 5, "every mode needs its own slot prefix");
}
