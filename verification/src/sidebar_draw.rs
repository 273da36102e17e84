//! How a sidebar pane is drawn: its title, its rows, its help.

use vstd::prelude::*;
use vstd::string::*;

use crate::host;
use crate::host::{Action, ActionView, PaneId};
use crate::modes::Mode;
use crate::sidebar;
use crate::sidebar::{ItemView, PanoptPane};
use crate::text;

verus! {

/// How many columns the frame takes from a title.
pub const FRAME_MARGIN: usize = 4;

// ---------------------------------------------------------------------------
// Titles
// ---------------------------------------------------------------------------

/// The filter of the Todos pane, as its title shows it.
pub open spec fn filter_segment(s: PanoptPane) -> Seq<char> {
    if s.mode == Mode::Todos {
        " ["@ + s.todo_filter.label_text() + "]"@
    } else {
        ""@
    }
}

/// How many items there are, and which of them are in the window.
pub open spec fn counts_segment(s: PanoptPane) -> Seq<char> {
    let total = s.items.len() as int;
    let end = s.scroll + s.rows_shown();
    if total == 0 {
        ""@
    } else if total <= s.rows_shown() {
        " ("@ + text::decimal(total as nat) + ")"@
    } else {
        " ("@ + text::decimal((s.scroll + 1) as nat) + "-"@ + text::decimal(
            (if end < total {
                end
            } else {
                total
            }) as nat,
        ) + "/"@ + text::decimal(total as nat) + ")"@
    }
}

/// The head of a title: the hotkey and the mode.
pub open spec fn title_base(s: PanoptPane) -> Seq<char> {
    "["@ + s.mode.hint_text() + "] "@ + s.mode.label_text()
}

/// The title of the pane. What stands in the way comes first: permissions, the
/// configuration, a refusal; otherwise the filter and, where they fit, the
/// counts.
pub open spec fn frame_title_text(s: PanoptPane) -> Seq<char> {
    let base = title_base(s);
    if !s.permitted {
        base + " - grant permissions"@
    } else if !s.mode_known {
        base + " (mode config missing - defaulted)"@
    } else if s.mode == Mode::Todos && s.last_gate_refusal is Some {
        base + " - blocked: "@ + s.last_gate_refusal->0.reason()
    } else {
        let full = base + filter_segment(s) + counts_segment(s);
        let room = s.last_cols - FRAME_MARGIN;
        if s.last_cols == 0 || full.len() <= (if room < 0 {
            0
        } else {
            room
        }) {
            full
        } else {
            base + filter_segment(s)
        }
    }
}

/// What is asked for where the title may have changed: to set it, if it did.
pub open spec fn title_synced(s: PanoptPane) -> Seq<ActionView> {
    match s.plugin_pane {
        Some(PaneId::Plugin(pid)) => if s.last_frame_title@ != frame_title_text(s) {
            seq![ActionView::RenamePlugin(pid, frame_title_text(s))]
        } else {
            seq![]
        },
        _ => seq![],
    }
}

/// The status line at the foot of the Todos pane: its two sort axes.
pub open spec fn status_line_text(s: PanoptPane) -> Seq<char> {
    " ["@ + s.todo_sort_1.label_text() + "] ["@ + s.todo_sort_2.label_text() + "]"@
}

impl PanoptPane {
    /// How many items there are, and which are in the window.
    fn counts(&self) -> (r: String)
        ensures
            r@ == counts_segment(*self),
    {
        let total: usize = self.items.len();
        let visible: usize = self.list_rows();
        if total == 0 {
            return "".to_owned();
        }
        let mut out = " (".to_owned();
        if total > visible {
            let start: u128 = self.scroll as u128 + 1;
            let end: u128 = self.scroll as u128 + visible as u128;
            let end: u128 = if end < total as u128 {
                end
            } else {
                total as u128
            };
            out.append(text::wide_number(start).as_str());
            out.append("-");
            out.append(text::wide_number(end).as_str());
            out.append("/");
        }
        out.append(text::number(total as u64).as_str());
        out.append(")");
        out
    }

    /// The title of the pane.
    pub fn frame_title(&self) -> (r: String)
        ensures
            r@ == frame_title_text(*self),
    {
        let mut base = "[".to_owned();
        base.append(self.mode.hotkey_hint());
        base.append("] ");
        base.append(self.mode.label());
        if !self.permitted {
            base.append(" - grant permissions");
            return base;
        }
        if !self.mode_known {
            base.append(" (mode config missing - defaulted)");
            return base;
        }
        if self.mode == Mode::Todos {
            if let Some(refusal) = self.last_gate_refusal {
                base.append(" - blocked: ");
                base.append(refusal.message().as_str());
                return base;
            }
        }
        let mut segment = "".to_owned();
        if self.mode == Mode::Todos {
            segment = " [".to_owned();
            segment.append(self.todo_filter.label());
            segment.append("]");
        }
        base.append(segment.as_str());
        let mut full = base.clone();
        full.append(self.counts().as_str());
        let room: usize = if self.last_cols > FRAME_MARGIN {
            self.last_cols - FRAME_MARGIN
        } else {
            0
        };
        if self.last_cols == 0 || full.as_str().unicode_len() <= room {
            full
        } else {
            base
        }
    }

    /// The status line at the foot of the Todos pane.
    pub fn status_line(&self) -> (r: String)
        ensures
            r@ == status_line_text(*self),
    {
        let mut out = " [".to_owned();
        out.append(self.todo_sort_1.label());
        out.append("] [");
        out.append(self.todo_sort_2.label());
        out.append("]");
        out
    }

    /// Sets the title where it changed.
    pub fn sync_frame_title(&mut self) -> (out: Vec<Action>)
        ensures
            *final(self) == (PanoptPane {
                last_frame_title: final(self).last_frame_title,
                ..*old(self)
            }),
            final(self).last_frame_title@ == frame_title_text(*old(self)),
            host::actions(out@) == title_synced(*old(self)),
    {
        let title = self.frame_title();
        if text::same(title.as_str(), self.last_frame_title.as_str()) {
            return host::no_actions();
        }
        let out = match self.plugin_pane {
            Some(PaneId::Plugin(pid)) => host::one_action(Action::RenamePlugin(pid, title.clone())),
            _ => host::no_actions(),
        };
        self.last_frame_title = title;
        out
    }
}

// ---------------------------------------------------------------------------
// Help
// ---------------------------------------------------------------------------

/// The keys that do something in one mode only.
pub open spec fn mode_help(s: PanoptPane) -> Seq<Seq<char>> {
    match s.mode {
        Mode::Todos => seq![
            "  n             new todo"@,
            "  e             edit (open + focus)"@,
            "  x             delete todo"@,
            "  f / F         filter forward / back  ["@ + s.todo_filter.label_text() + "]"@,
            "  1 / !         sort 1 forward / back  ["@ + s.todo_sort_1.label_text() + "]"@,
            "  2 / @         sort 2 forward / back  ["@ + s.todo_sort_2.label_text() + "]"@,
            "  b             idle bell on / off     ["@ + (if s.idle_bell {
                "on"@
            } else {
                "off"@
            }) + "]"@,
        ],
        Mode::Notes => seq!["  n             new note"@, "  x             delete note"@],
        Mode::Agents => seq![
            "  Enter / u     start / focus instance"@,
            "  n             new config (form)"@,
            "  e             edit config (form)"@,
            "  d             stop instance (close pane)"@,
            "  x             delete config"@,
        ],
        Mode::Commands => seq![
            "  u             start / focus"@,
            "  d             stop (close pane)"@,
            "  x             delete command"@,
        ],
        Mode::Terminals => seq!["  x / d         close terminal"@],
    }
}

/// The lines of the help: the keys of every mode, those of this one, and the
/// help's own.
pub open spec fn help_text(s: PanoptPane) -> Seq<Seq<char>> {
    seq![
        " Keys - "@ + s.mode.label_text(),
        ""@,
        "  up/down       move cursor"@,
        "  PgUp/PgDn     page"@,
        "  Home/End      first/last"@,
        "  Enter         open / focus"@,
        "  alt+1..5      focus sidebar pane"@,
        ""@,
    ] + mode_help(s) + seq![""@, "  ?             toggle this help"@]
}

/// A line that ends with a value in brackets.
fn valued(line: &str, value: &str) -> (r: String)
    ensures
        r@ == line@ + value@ + "]"@,
{
    let mut out = line.to_owned();
    out.append(value);
    out.append("]");
    out
}

impl PanoptPane {
    /// The keys that do something in this mode only.
    fn help_of_mode(&self) -> (out: Vec<String>)
        ensures
            text::texts(out@) == mode_help(*self),
    {
        let mut out: Vec<String> = Vec::new();
        match self.mode {
            Mode::Todos => {
                out.push("  n             new todo".to_owned());
                out.push("  e             edit (open + focus)".to_owned());
                out.push("  x             delete todo".to_owned());
                out.push(
                    valued("  f / F         filter forward / back  [", self.todo_filter.label()),
                );
                out.push(
                    valued("  1 / !         sort 1 forward / back  [", self.todo_sort_1.label()),
                );
                out.push(
                    valued("  2 / @         sort 2 forward / back  [", self.todo_sort_2.label()),
                );
                out.push(
                    valued(
                        "  b             idle bell on / off     [",
                        if self.idle_bell {
                            "on"
                        } else {
                            "off"
                        },
                    ),
                );
            },
            Mode::Notes => {
                out.push("  n             new note".to_owned());
                out.push("  x             delete note".to_owned());
            },
            Mode::Agents => {
                out.push("  Enter / u     start / focus instance".to_owned());
                out.push("  n             new config (form)".to_owned());
                out.push("  e             edit config (form)".to_owned());
                out.push("  d             stop instance (close pane)".to_owned());
                out.push("  x             delete config".to_owned());
            },
            Mode::Commands => {
                out.push("  u             start / focus".to_owned());
                out.push("  d             stop (close pane)".to_owned());
                out.push("  x             delete command".to_owned());
            },
            Mode::Terminals => {
                out.push("  x / d         close terminal".to_owned());
            },
        }
        assert(text::texts(out@) =~= mode_help(*self));
        out
    }

    /// The lines of the help.
    pub fn help_lines(&self) -> (out: Vec<String>)
        ensures
            text::texts(out@) == help_text(*self),
    {
        let mut out: Vec<String> = Vec::new();
        let mut head = " Keys - ".to_owned();
        head.append(self.mode.label());
        out.push(head);
        out.push("".to_owned());
        out.push("  up/down       move cursor".to_owned());
        out.push("  PgUp/PgDn     page".to_owned());
        out.push("  Home/End      first/last".to_owned());
        out.push("  Enter         open / focus".to_owned());
        out.push("  alt+1..5      focus sidebar pane".to_owned());
        out.push("".to_owned());
        let ghost top = text::texts(out@);
        let mut middle = self.help_of_mode();
        let ghost mid = text::texts(middle@);
        out.append(&mut middle);
        assert(text::texts(out@) =~= top + mid);
        out.push("".to_owned());
        out.push("  ?             toggle this help".to_owned());
        assert(text::texts(out@) =~= help_text(*self));
        out
    }
}

// ---------------------------------------------------------------------------
// The screen
// ---------------------------------------------------------------------------

/// How a line stands out.
#[derive(Clone, Copy, PartialEq, Eq, Debug, Structural)]
pub enum Style {
    Normal,
    Dim,
}

/// The codes that style a line.
pub open spec fn style_codes(style: Style, fg: Option<u8>, focused: bool) -> Seq<Seq<char>> {
    (if focused {
        seq!["7"@]
    } else {
        seq![]
    }) + (if style == Style::Dim {
        seq!["2"@]
    } else {
        seq![]
    }) + (match fg {
        Some(c) => seq!["38;5;"@ + text::decimal(c as nat)],
        None => seq![],
    })
}

/// A line cut to the width of the pane, between the codes that style it.
pub open spec fn painted(
    content: Seq<char>,
    cols: usize,
    style: Style,
    fg: Option<u8>,
    focused: bool,
) -> Seq<char> {
    let line = content.take(if cols <= content.len() {
        cols as int
    } else {
        content.len() as int
    });
    let codes = style_codes(style, fg, focused);
    if codes.len() == 0 {
        line
    } else {
        "\u{1b}["@ + text::joined(codes, ";"@) + "m"@ + line + "\u{1b}[0m"@
    }
}

/// Cuts a line to the width of the pane and styles it.
pub fn paint(content: &str, cols: usize, style: Style, fg: Option<u8>, focused: bool) -> (r: String)
    ensures
        r@ == painted(content@, cols, style, fg, focused),
{
    let line = text::take_chars(content, cols);
    let mut codes: Vec<String> = Vec::new();
    if focused {
        codes.push("7".to_owned());
    }
    if style == Style::Dim {
        codes.push("2".to_owned());
    }
    if let Some(c) = fg {
        let mut code = "38;5;".to_owned();
        code.append(text::number(c as u64).as_str());
        codes.push(code);
    }
    assert(text::texts(codes@) =~= style_codes(style, fg, focused));
    if codes.len() == 0 {
        line.to_owned()
    } else {
        let mut out = "\u{1b}[".to_owned();
        out.append(text::join_texts(&codes, ";").as_str());
        out.append("m");
        out.append(line);
        out.append("\u{1b}[0m");
        out
    }
}

/// The code that puts the cursor at the head of a row.
pub open spec fn at_row(row: nat) -> Seq<char> {
    "\u{1b}["@ + text::decimal(row) + ";1H"@
}

/// The codes that clear the first `n` rows.
pub open spec fn cleared(n: int) -> Seq<char>
    decreases n,
{
    if n <= 0 {
        seq![]
    } else {
        cleared(n - 1) + at_row(n as nat) + "\u{1b}[2K"@
    }
}

/// The first `n` help lines, dim, one to a row.
pub open spec fn help_screen(lines: Seq<Seq<char>>, cols: usize, n: int) -> Seq<char>
    decreases n,
{
    if n <= 0 {
        seq![]
    } else {
        help_screen(lines, cols, n - 1) + at_row(n as nat) + painted(
            lines[n - 1],
            cols,
            Style::Dim,
            None,
            false,
        )
    }
}

/// The line of an item: its marker and its label.
pub open spec fn item_line(item: ItemView) -> Seq<char> {
    (if item.live {
        " *"@
    } else {
        "  "@
    }) + item.label
}

/// The first `n` items of the window, one to a row, the selected one
/// reversed.
pub open spec fn items_screen(
    items: Seq<ItemView>,
    top: int,
    cursor: int,
    cols: usize,
    n: int,
) -> Seq<char>
    decreases n,
{
    if n <= 0 {
        seq![]
    } else {
        items_screen(items, top, cursor, cols, n - 1) + at_row(n as nat) + painted(
            item_line(items[top + n - 1]),
            cols,
            Style::Normal,
            items[top + n - 1].fg,
            top + n - 1 == cursor,
        )
    }
}

/// The pane at a size.
pub open spec fn resized(s: PanoptPane, rows: usize, cols: usize) -> PanoptPane {
    PanoptPane { last_rows: rows, last_cols: cols, ..s }
}

/// The pane at a size, with a window that does not reach past its list.
pub open spec fn window_fitted(s: PanoptPane, rows: usize, cols: usize) -> PanoptPane {
    let sized = resized(s, rows, cols);
    PanoptPane {
        scroll: if sized.scroll > sized.last_top() {
            sized.last_top() as usize
        } else {
            sized.scroll
        },
        ..sized
    }
}

/// The list, or a word where it is empty.
pub open spec fn list_text(s: PanoptPane) -> Seq<char> {
    if s.items.len() == 0 {
        at_row(1) + painted("  (none)"@, s.last_cols, Style::Dim, None, false)
    } else {
        items_screen(
            sidebar::item_views(s.items@),
            s.scroll as int,
            s.cursor as int,
            s.last_cols,
            if s.items.len() - s.scroll < s.rows_shown() {
                s.items.len() - s.scroll
            } else {
                s.rows_shown()
            },
        )
    }
}

/// The status line of the Todos pane, where there is room for it.
pub open spec fn foot_text(s: PanoptPane, rows: int) -> Seq<char> {
    if s.mode == Mode::Todos && rows >= 2 {
        at_row(rows as nat) + painted(status_line_text(s), s.last_cols, Style::Dim, None, false)
    } else {
        seq![]
    }
}

/// What is drawn: everything is cleared, then come the help or the items, the
/// status line of the Todos pane, and the bell.
pub open spec fn screen_text(s: PanoptPane) -> Seq<char> {
    let rows = if s.last_rows < 1 {
        1
    } else {
        s.last_rows as int
    };
    let blank = "\u{1b}[3J"@ + cleared(rows);
    if s.show_help {
        let lines = help_text(s);
        blank + help_screen(
            lines,
            s.last_cols,
            if lines.len() < rows {
                lines.len() as int
            } else {
                rows
            },
        )
    } else {
        blank + list_text(s) + foot_text(s, rows) + (if s.pending_bell {
            "\u{7}"@
        } else {
            seq![]
        })
    }
}

/// Appends the code that puts the cursor at the head of a row.
fn push_row(out: &mut String, row: usize)
    ensures
        final(out)@ == old(out)@ + at_row(row as nat),
{
    out.append("\u{1b}[");
    out.append(text::number(row as u64).as_str());
    out.append(";1H");
    assert(out@ =~= old(out)@ + at_row(row as nat));
}

/// The codes that clear the first `n` rows.
fn clear_rows(n: usize) -> (out: String)
    ensures
        out@ == cleared(n as int),
{
    let mut out = String::new();
    let mut row: usize = 0;
    while row < n
        invariant
            row <= n,
            out@ == cleared(row as int),
        decreases n - row,
    {
        row += 1;
        push_row(&mut out, row);
        out.append("\u{1b}[2K");
    }
    out
}

impl PanoptPane {
    /// The help, one line to a row.
    fn draw_help(&self, rows: usize) -> (out: String)
        ensures
            out@ == help_screen(
                help_text(*self),
                self.last_cols,
                if help_text(*self).len() < rows {
                    help_text(*self).len() as int
                } else {
                    rows as int
                },
            ),
    {
        let lines = self.help_lines();
        let ghost all = text::texts(lines@);
        let mut out = String::new();
        let mut i: usize = 0;
        while i < lines.len() && i < rows
            invariant
                i <= lines.len(),
                i <= rows,
                all == text::texts(lines@),
                out@ == help_screen(all, self.last_cols, i as int),
            decreases lines.len() - i,
        {
            assert(all[i as int] == lines@[i as int]@);
            push_row(&mut out, i + 1);
            out.append(paint(lines[i].as_str(), self.last_cols, Style::Dim, None, false).as_str());
            i += 1;
        }
        out
    }

    /// The items of the window, one to a row.
    fn draw_items(&self, shown: usize) -> (out: String)
        requires
            self.scroll + shown <= self.items.len(),
        ensures
            out@ == items_screen(
                sidebar::item_views(self.items@),
                self.scroll as int,
                self.cursor as int,
                self.last_cols,
                shown as int,
            ),
    {
        let ghost all = sidebar::item_views(self.items@);
        let mut out = String::new();
        let mut i: usize = 0;
        while i < shown
            invariant
                i <= shown,
                self.scroll + shown <= self.items.len(),
                all == sidebar::item_views(self.items@),
                out@ == items_screen(
                    all,
                    self.scroll as int,
                    self.cursor as int,
                    self.last_cols,
                    i as int,
                ),
            decreases shown - i,
        {
            let at: usize = self.scroll + i;
            let item = &self.items[at];
            assert(all[at as int] == item@);
            let mut line = if item.live {
                " *".to_owned()
            } else {
                "  ".to_owned()
            };
            line.append(item.label.as_str());
            push_row(&mut out, i + 1);
            out.append(
                paint(
                    line.as_str(),
                    self.last_cols,
                    Style::Normal,
                    item.fg,
                    at == self.cursor,
                ).as_str(),
            );
            i += 1;
        }
        out
    }

    /// The last row of the Todos pane: what it is sorted by.
    fn draw_foot(&self, rows: usize) -> (out: String)
        ensures
            out@ == foot_text(*self, rows as int),
    {
        let mut out = String::new();
        if self.mode == Mode::Todos && rows >= 2 {
            push_row(&mut out, rows);
            out.append(
                paint(self.status_line().as_str(), self.last_cols, Style::Dim, None, false).as_str(),
            );
        }
        assert(out@ =~= foot_text(*self, rows as int));
        out
    }

    /// The list, or a word where it is empty.
    fn draw_list(&self) -> (out: String)
        requires
            self.scroll <= self.items.len(),
        ensures
            out@ == list_text(*self),
    {
        let total: usize = self.items.len();
        if total == 0 {
            let mut none = String::new();
            push_row(&mut none, 1);
            none.append(paint("  (none)", self.last_cols, Style::Dim, None, false).as_str());
            assert(none@ =~= list_text(*self));
            none
        } else {
            let visible: usize = self.list_rows();
            let shown: usize = if total - self.scroll < visible {
                total - self.scroll
            } else {
                visible
            };
            self.draw_items(shown)
        }
    }

    /// What is drawn.
    fn draw(&self) -> (out: String)
        requires
            self.scroll <= self.items.len(),
        ensures
            out@ == screen_text(*self),
    {
        let rows: usize = if self.last_rows < 1 {
            1
        } else {
            self.last_rows
        };
        let mut out = "\u{1b}[3J".to_owned();
        out.append(clear_rows(rows).as_str());
        if self.show_help {
            out.append(self.draw_help(rows).as_str());
            return out;
        }
        out.append(self.draw_list().as_str());
        out.append(self.draw_foot(rows).as_str());
        if self.pending_bell {
            out.append("\u{7}");
        } else {
            assert(out@ + Seq::<char>::empty() =~= out@);
        }
        out
    }

    /// Scrolls back what a larger pane shows.
    fn fit_window(&mut self)
        ensures
            *final(self) == window_fitted(*old(self), old(self).last_rows, old(self).last_cols),
            final(self).scroll <= final(self).items.len(),
    {
        let total: usize = self.items.len();
        let visible: usize = self.list_rows();
        let top: usize = if total > visible {
            total - visible
        } else {
            0
        };
        let scroll: usize = if self.scroll > top {
            top
        } else {
            self.scroll
        };
        self.scroll = scroll;
    }

    /// Draws the pane at the given size. The title is that of the new size,
    /// with the window as it was before it was fitted. The bell rings at most
    /// once; the help is drawn without it.
    pub fn render(&mut self, rows: usize, cols: usize) -> (r: (Vec<Action>, String))
        ensures
            *final(self) == (PanoptPane {
                pending_bell: old(self).pending_bell && old(self).show_help,
                last_frame_title: final(self).last_frame_title,
                ..window_fitted(*old(self), rows, cols)
            }),
            final(self).last_frame_title@ == frame_title_text(resized(*old(self), rows, cols)),
            host::actions(r.0@) == title_synced(resized(*old(self), rows, cols)),
            r.1@ == screen_text(window_fitted(*old(self), rows, cols)),
    {
        self.last_rows = rows;
        self.last_cols = cols;
        let acts = self.sync_frame_title();
        self.fit_window();
        let out = self.draw();
        assert(screen_text(*self) == screen_text(window_fitted(*old(self), rows, cols)));
        let bell = self.pending_bell && self.show_help;
        self.pending_bell = bell;
        (acts, out)
    }
}

} // verus!
