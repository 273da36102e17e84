//! What a sidebar pane looks like: which rows are drawn where.

use vstd::prelude::*;
use vstd::string::*;

use crate::host::{ActionView, PaneId};
use crate::modes::Mode;
use crate::projection;
use crate::sidebar;
use crate::sidebar::{ItemView, PanoptPane};
use crate::sidebar_draw;
use crate::sidebar_draw::Style;
use crate::text;

verus! {

/// A line cut to the width of the pane.
pub open spec fn cut_to(line: Seq<char>, cols: usize) -> Seq<char> {
    if line.len() <= cols {
        line
    } else {
        line.subrange(0, cols as int)
    }
}

/// A line between the code that sets how it looks and the one that ends it.
pub open spec fn looking(code: Seq<char>, line: Seq<char>) -> Seq<char> {
    "\u{1b}["@ + code + "m"@ + line + "\u{1b}[0m"@
}

/// The row of an item as it looks: a marker and the label, cut to the width, in
/// the colour of the item, reversed where it is selected.
pub open spec fn item_looks(item: ItemView, cols: usize, selected: bool) -> Seq<char> {
    let line = cut_to(
        (if item.live {
            " *"@
        } else {
            "  "@
        }) + item.label,
        cols,
    );
    match item.fg {
        None => if selected {
            looking("7"@, line)
        } else {
            line
        },
        Some(c) => if selected {
            looking("7;38;5;"@ + text::decimal(c as nat), line)
        } else {
            looking("38;5;"@ + text::decimal(c as nat), line)
        },
    }
}

/// Something drawn at the start of a row; the first row is row 1.
pub open spec fn on_row(row: int, what: Seq<char>) -> Seq<char> {
    "\u{1b}["@ + text::decimal(row as nat) + ";1H"@ + what
}

/// How many rows there are for items: all but the one that the Todos pane keeps
/// for its foot, and at least one.
pub open spec fn room_for_items(s: PanoptPane) -> int {
    if s.mode == Mode::Todos {
        if s.last_rows <= 2 {
            1
        } else {
            s.last_rows - 1
        }
    } else if s.last_rows == 0 {
        1
    } else {
        s.last_rows as int
    }
}

/// How many items are drawn.
pub open spec fn drawn_items(s: PanoptPane) -> int {
    if s.items.len() - s.scroll < room_for_items(s) {
        s.items.len() - s.scroll
    } else {
        room_for_items(s)
    }
}

/// How many rows are cleared.
pub open spec fn body_rows(s: PanoptPane) -> int {
    if s.last_rows == 0 {
        1
    } else {
        s.last_rows as int
    }
}

/// The rows of the pane, cleared one by one.
pub open spec fn cleared_rows(s: PanoptPane) -> Seq<char> {
    "\u{1b}[3J"@ + projection::run_on(
        Seq::new(body_rows(s) as nat, |k: int| on_row(k + 1, "\u{1b}[2K"@)),
    )
}

/// How a line is painted.
proof fn lemma_painted(line: Seq<char>, cols: usize, style: Style, fg: Option<u8>, focused: bool)
    ensures
        sidebar_draw::painted(line, cols, style, fg, focused) == ({
            let l = cut_to(line, cols);
            match fg {
                None => if focused && style == Style::Dim {
                    looking("7;2"@, l)
                } else if focused {
                    looking("7"@, l)
                } else if style == Style::Dim {
                    looking("2"@, l)
                } else {
                    l
                },
                Some(c) => {
                    let n = text::decimal(c as nat);
                    if focused && style == Style::Dim {
                        looking("7;2;38;5;"@ + n, l)
                    } else if focused {
                        looking("7;38;5;"@ + n, l)
                    } else if style == Style::Dim {
                        looking("2;38;5;"@ + n, l)
                    } else {
                        looking("38;5;"@ + n, l)
                    }
                },
            }
        }),
{
    reveal_strlit("7");
    reveal_strlit("2");
    reveal_strlit(";");
    reveal_strlit("7;2");
    reveal_strlit("38;5;");
    reveal_strlit("7;38;5;");
    reveal_strlit("2;38;5;");
    reveal_strlit("7;2;38;5;");
    let cut = line.take(
        if cols <= line.len() {
            cols as int
        } else {
            line.len() as int
        },
    );
    assert(cut =~= cut_to(line, cols));
    let codes = sidebar_draw::style_codes(style, fg, focused);
    let first = if focused {
        seq!["7"@]
    } else {
        seq![]
    };
    let second = if style == Style::Dim {
        seq!["2"@]
    } else {
        seq![]
    };
    let n = match fg {
        Some(c) => text::decimal(c as nat),
        None => seq![],
    };
    let third = if fg is Some {
        seq!["38;5;"@ + n]
    } else {
        seq![]
    };
    assert(codes =~= first + second + third);
    reveal_with_fuel(text::joined, 4);
    let j = text::joined(codes, ";"@);
    if focused && style == Style::Dim {
        if fg is Some {
            assert(codes.drop_last() =~= seq!["7"@, "2"@]);
            assert(codes.drop_last().drop_last() =~= seq!["7"@]);
            assert(j =~= "7;2;38;5;"@ + n);
        } else {
            assert(codes.drop_last() =~= seq!["7"@]);
            assert(j =~= "7;2"@);
        }
    } else if focused {
        if fg is Some {
            assert(codes.drop_last() =~= seq!["7"@]);
            assert(j =~= "7;38;5;"@ + n);
        } else {
            assert(j =~= "7"@);
        }
    } else if style == Style::Dim {
        if fg is Some {
            assert(codes.drop_last() =~= seq!["2"@]);
            assert(j =~= "2;38;5;"@ + n);
        } else {
            assert(j =~= "2"@);
        }
    } else if fg is Some {
        assert(j =~= "38;5;"@ + n);
    }
}

/// One row more is cleared.
proof fn lemma_cleared(n: int)
    requires
        n >= 0,
    ensures
        sidebar_draw::cleared(n) == projection::run_on(
            Seq::new(n as nat, |k: int| on_row(k + 1, "\u{1b}[2K"@)),
        ),
    decreases n,
{
    let f = |k: int| on_row(k + 1, "\u{1b}[2K"@);
    let all = Seq::new(n as nat, f);
    if n > 0 {
        lemma_cleared(n - 1);
        assert(all.drop_last() =~= Seq::new((n - 1) as nat, f));
        assert(all.last() == on_row(n, "\u{1b}[2K"@));
        assert(sidebar_draw::cleared(n) =~= projection::run_on(all));
    }
}

/// One item more is drawn.
proof fn lemma_items_drawn(items: Seq<ItemView>, top: int, cursor: int, cols: usize, n: int)
    requires
        0 <= n,
        0 <= top,
        top + n <= items.len(),
    ensures
        sidebar_draw::items_screen(items, top, cursor, cols, n) == projection::run_on(
            Seq::new(
                n as nat,
                |k: int| on_row(k + 1, item_looks(items[top + k], cols, top + k == cursor)),
            ),
        ),
    decreases n,
{
    let f = |k: int| on_row(k + 1, item_looks(items[top + k], cols, top + k == cursor));
    let all = Seq::new(n as nat, f);
    if n > 0 {
        lemma_items_drawn(items, top, cursor, cols, n - 1);
        assert(all.drop_last() =~= Seq::new((n - 1) as nat, f));
        let item = items[top + n - 1];
        lemma_painted(
            sidebar_draw::item_line(item),
            cols,
            Style::Normal,
            item.fg,
            top + n - 1 == cursor,
        );
        assert(all.last() == on_row(n, item_looks(item, cols, top + n - 1 == cursor)));
        assert(sidebar_draw::items_screen(items, top, cursor, cols, n) =~= projection::run_on(all));
    }
}

/// The foot of the Todos pane as it is drawn: its two sort axes, dim, on the
/// last row, where there are two rows or more.
pub open spec fn foot_looks(s: PanoptPane) -> Seq<char> {
    if s.mode == Mode::Todos && s.last_rows >= 2 {
        on_row(
            s.last_rows as int,
            looking(
                "2"@,
                cut_to(
                    " ["@ + s.todo_sort_1.label_text() + "] ["@ + s.todo_sort_2.label_text() + "]"@,
                    s.last_cols,
                ),
            ),
        )
    } else {
        seq![]
    }
}

/// The pane shows the items from the top of its window on, one to a row, each
/// with its marker and its label in its colour, and the selected one reversed;
/// then come the foot of the Todos pane and, where it is due, the bell.
pub proof fn law_window_is_drawn(s: PanoptPane)
    requires
        !s.show_help,
        s.scroll <= s.items.len(),
        s.items.len() > 0,
    ensures
        sidebar_draw::screen_text(s) == cleared_rows(s) + projection::run_on(
            Seq::new(
                drawn_items(s) as nat,
                |k: int|
                    on_row(
                        k + 1,
                        item_looks(
                            s.items@[s.scroll + k]@,
                            s.last_cols,
                            s.scroll + k == s.cursor,
                        ),
                    ),
            ),
        ) + foot_looks(s) + (if s.pending_bell {
            seq!['\u{7}']
        } else {
            seq![]
        }),
{
    let items = sidebar::item_views(s.items@);
    let n = drawn_items(s);
    reveal_strlit("\u{7}");
    assert("\u{7}"@ =~= seq!['\u{7}']);
    lemma_cleared(body_rows(s));
    lemma_items_drawn(items, s.scroll as int, s.cursor as int, s.last_cols, n);
    lemma_painted(sidebar_draw::status_line_text(s), s.last_cols, Style::Dim, None, false);
    let f = |k: int|
        on_row(k + 1, item_looks(items[s.scroll + k], s.last_cols, s.scroll + k == s.cursor));
    let g = |k: int|
        on_row(
            k + 1,
            item_looks(s.items@[s.scroll + k]@, s.last_cols, s.scroll + k == s.cursor),
        );
    assert(Seq::new(n as nat, f) =~= Seq::new(n as nat, g));
    assert(sidebar_draw::screen_text(s) =~= cleared_rows(s) + projection::run_on(
        Seq::new(n as nat, g),
    ) + foot_looks(s) + (if s.pending_bell {
        seq!['\u{7}']
    } else {
        seq![]
    }));
}

/// A pane without items says so on its first row, dim.
pub proof fn law_empty_list_is_drawn(s: PanoptPane)
    requires
        !s.show_help,
        s.items.len() == 0,
    ensures
        sidebar_draw::screen_text(s) == cleared_rows(s) + on_row(
            1,
            looking("2"@, cut_to("  (none)"@, s.last_cols)),
        ) + foot_looks(s) + (if s.pending_bell {
            seq!['\u{7}']
        } else {
            seq![]
        }),
{
    reveal_strlit("\u{7}");
    assert("\u{7}"@ =~= seq!['\u{7}']);
    lemma_cleared(body_rows(s));
    lemma_painted("  (none)"@, s.last_cols, Style::Dim, None, false);
    lemma_painted(sidebar_draw::status_line_text(s), s.last_cols, Style::Dim, None, false);
    assert(sidebar_draw::screen_text(s) =~= cleared_rows(s) + on_row(
        1,
        looking("2"@, cut_to("  (none)"@, s.last_cols)),
    ) + foot_looks(s) + (if s.pending_bell {
        seq!['\u{7}']
    } else {
        seq![]
    }));
}

/// Lines of the help, drawn one by one.
proof fn lemma_help_drawn(lines: Seq<Seq<char>>, cols: usize, n: int)
    requires
        0 <= n <= lines.len(),
    ensures
        sidebar_draw::help_screen(lines, cols, n) == projection::run_on(
            Seq::new(n as nat, |k: int| on_row(k + 1, looking("2"@, cut_to(lines[k], cols)))),
        ),
    decreases n,
{
    let f = |k: int| on_row(k + 1, looking("2"@, cut_to(lines[k], cols)));
    let all = Seq::new(n as nat, f);
    if n > 0 {
        lemma_help_drawn(lines, cols, n - 1);
        assert(all.drop_last() =~= Seq::new((n - 1) as nat, f));
        lemma_painted(lines[n - 1], cols, Style::Dim, None, false);
        assert(sidebar_draw::help_screen(lines, cols, n) =~= projection::run_on(all));
    }
}

/// The help takes the place of the items: its lines from the first on, dim, as
/// many as there are rows, without the foot and without the bell.
pub proof fn law_help_is_drawn(s: PanoptPane)
    requires
        s.show_help,
    ensures
        ({
            let lines = sidebar_draw::help_text(s);
            sidebar_draw::screen_text(s) == cleared_rows(s) + projection::run_on(
                Seq::new(
                    (if lines.len() < body_rows(s) {
                        lines.len() as int
                    } else {
                        body_rows(s)
                    }) as nat,
                    |k: int| on_row(k + 1, looking("2"@, cut_to(lines[k], s.last_cols))),
                ),
            )
        }),
{
    let lines = sidebar_draw::help_text(s);
    lemma_cleared(body_rows(s));
    let n = if lines.len() < body_rows(s) {
        lines.len() as int
    } else {
        body_rows(s)
    };
    lemma_help_drawn(lines, s.last_cols, n);
    assert(sidebar_draw::screen_text(s) =~= cleared_rows(s) + sidebar_draw::help_screen(
        lines,
        s.last_cols,
        n,
    ));
}

/// Whether one of some lines begins with a key and says what it does.
pub open spec fn tells(lines: Seq<Seq<char>>, line: Seq<char>) -> bool {
    exists|i: int| 0 <= i < lines.len() && #[trigger] lines[i] == line
}

/// The help names the list and tells its keys: those that every list knows, those
/// that this one knows, and what they are set to.
pub proof fn law_help_tells_the_keys(s: PanoptPane)
    ensures
        ({
            let lines = sidebar_draw::help_text(s);
            &&& lines[0] == " Keys - "@ + s.mode.label_text()
            &&& tells(lines, "  up/down       move cursor"@)
            &&& tells(lines, "  PgUp/PgDn     page"@)
            &&& tells(lines, "  Home/End      first/last"@)
            &&& tells(lines, "  Enter         open / focus"@)
            &&& tells(lines, "  alt+1..5      focus sidebar pane"@)
            &&& lines.last() == "  ?             toggle this help"@
            &&& s.mode == Mode::Todos ==> {
                &&& lines.len() == 17
                &&& tells(lines, "  n             new todo"@)
                &&& tells(lines, "  e             edit (open + focus)"@)
                &&& tells(lines, "  x             delete todo"@)
                &&& tells(
                    lines,
                    "  f / F         filter forward / back  ["@ + s.todo_filter.label_text()
                        + "]"@,
                )
                &&& tells(
                    lines,
                    "  1 / !         sort 1 forward / back  ["@ + s.todo_sort_1.label_text()
                        + "]"@,
                )
                &&& tells(
                    lines,
                    "  2 / @         sort 2 forward / back  ["@ + s.todo_sort_2.label_text()
                        + "]"@,
                )
                &&& s.idle_bell ==> tells(
                    lines,
                    "  b             idle bell on / off     ["@ + "on"@ + "]"@,
                )
                &&& !s.idle_bell ==> tells(
                    lines,
                    "  b             idle bell on / off     ["@ + "off"@ + "]"@,
                )
            }
            &&& s.mode == Mode::Notes ==> lines.len() == 12 && tells(
                lines,
                "  n             new note"@,
            ) && tells(lines, "  x             delete note"@)
            &&& s.mode == Mode::Agents ==> lines.len() == 15 && tells(
                lines,
                "  Enter / u     start / focus instance"@,
            ) && tells(lines, "  n             new config (form)"@) && tells(
                lines,
                "  e             edit config (form)"@,
            ) && tells(lines, "  d             stop instance (close pane)"@) && tells(
                lines,
                "  x             delete config"@,
            )
            &&& s.mode == Mode::Commands ==> lines.len() == 13 && tells(
                lines,
                "  u             start / focus"@,
            ) && tells(lines, "  d             stop (close pane)"@) && tells(
                lines,
                "  x             delete command"@,
            )
            &&& s.mode == Mode::Terminals ==> lines.len() == 11 && tells(
                lines,
                "  x / d         close terminal"@,
            )
        }),
{
    let lines = sidebar_draw::help_text(s);
    let own = sidebar_draw::mode_help(s);
    assert(lines[2] == "  up/down       move cursor"@);
    assert(lines[3] == "  PgUp/PgDn     page"@);
    assert(lines[4] == "  Home/End      first/last"@);
    assert(lines[5] == "  Enter         open / focus"@);
    assert(lines[6] == "  alt+1..5      focus sidebar pane"@);
    assert forall|k: int| 0 <= k < own.len() implies tells(lines, #[trigger] own[k]) by {
        assert(lines[8 + k] == own[k]);
    }
    assert(own.len() > 0 && tells(lines, own[0]));
    if own.len() > 1 {
        assert(tells(lines, own[1]));
    }
    if own.len() > 2 {
        assert(tells(lines, own[2]));
    }
    if own.len() > 4 {
        assert(tells(lines, own[3]) && tells(lines, own[4]));
    }
    if own.len() > 6 {
        assert(tells(lines, own[5]) && tells(lines, own[6]));
    }
}

/// Drawing takes over the size and moves the window only as far back as it must
/// to leave no row empty that an item could fill; nothing else changes.
pub proof fn law_window_is_fitted(s: PanoptPane, rows: usize, cols: usize)
    ensures
        ({
            let after = sidebar_draw::window_fitted(s, rows, cols);
            &&& after == (PanoptPane {
                last_rows: rows,
                last_cols: cols,
                scroll: after.scroll,
                ..s
            })
            &&& after.scroll <= s.scroll
            &&& s.scroll + room_for_items(after) <= s.items.len() ==> after.scroll == s.scroll
            &&& s.scroll + room_for_items(after) > s.items.len() ==> after.scroll == 0
                || after.scroll == s.scroll || after.scroll + room_for_items(after) == s.items.len()
            &&& after.scroll > 0 ==> after.scroll + room_for_items(after) <= s.items.len()
        }),
{
}

/// The title of a pane that is ready counts its items: how many there are where
/// they all fit, and otherwise which of how many the window shows. A title that
/// is too wide goes without the counts.
pub proof fn law_title_counts_the_items(s: PanoptPane)
    requires
        s.permitted,
        s.mode_known,
        s.mode == Mode::Todos ==> s.last_gate_refusal is None,
        s.scroll <= s.items.len(),
    ensures
        ({
            let head = "["@ + s.mode.hint_text() + "] "@ + s.mode.label_text() + (if s.mode
                == Mode::Todos {
                " ["@ + s.todo_filter.label_text() + "]"@
            } else {
                seq![]
            });
            let n = s.items.len() as int;
            let last = s.scroll + drawn_items(s);
            let counts = if n == 0 {
                seq![]
            } else if n <= room_for_items(s) {
                " ("@ + text::decimal(n as nat) + ")"@
            } else {
                " ("@ + text::decimal((s.scroll + 1) as nat) + "-"@ + text::decimal(last as nat)
                    + "/"@ + text::decimal(n as nat) + ")"@
            };
            let title = sidebar_draw::frame_title_text(s);
            &&& s.last_cols == 0 || (head + counts).len() + 4 <= s.last_cols ==> title == head
                + counts
            &&& s.last_cols > 0 && (head + counts).len() + 4 > s.last_cols ==> title == head
        }),
{
    reveal_strlit("");
    reveal_strlit("[");
    assert(""@ =~= Seq::<char>::empty());
    let base = sidebar_draw::title_base(s);
    assert(base.len() > 0);
    let head = "["@ + s.mode.hint_text() + "] "@ + s.mode.label_text() + (if s.mode == Mode::Todos {
        " ["@ + s.todo_filter.label_text() + "]"@
    } else {
        seq![]
    });
    assert(head =~= base + sidebar_draw::filter_segment(s));
}

/// What stands in the way of a pane stands in its title: that permissions are to
/// be granted, that its mode is not known, or what was refused last.
pub proof fn law_title_tells_what_stands_in_the_way(s: PanoptPane)
    ensures
        ({
            let base = "["@ + s.mode.hint_text() + "] "@ + s.mode.label_text();
            let title = sidebar_draw::frame_title_text(s);
            &&& !s.permitted ==> title == base + " - grant permissions"@
            &&& s.permitted && !s.mode_known ==> title == base
                + " (mode config missing - defaulted)"@
            &&& s.permitted && s.mode_known && s.mode == Mode::Todos ==> (
            s.last_gate_refusal matches Some(r) ==> title == base + " - blocked: "@ + r.reason())
        }),
{
}

/// The title is set where it changed, and only there.
pub proof fn law_title_is_set_where_it_changed(s: PanoptPane, p: u32)
    requires
        s.plugin_pane == Some(PaneId::Plugin(p)),
    ensures
        s.last_frame_title@ == sidebar_draw::frame_title_text(s) ==> sidebar_draw::title_synced(
            s,
        ).len() == 0,
        s.last_frame_title@ != sidebar_draw::frame_title_text(s) ==> sidebar_draw::title_synced(s)
            == seq![
            ActionView::RenamePlugin(p, sidebar_draw::frame_title_text(s)),
        ],
{
}

} // verus!
