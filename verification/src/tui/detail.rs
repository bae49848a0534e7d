//! The panel with the details of the selected session.

use vstd::prelude::*;
use vstd::string::*;

use crate::text::{chars_of, concat2, concat4, strings};
use crate::tui::app::{App, AppView};
use crate::tui::view::{
    bold, bold_span, color_of_state, colored, colored_span, line_text, lines_view, plain,
    plain_span, shortened, spans_of, state_color, styled, truncate, Color, Span, SpanView,
};
use crate::types::{age_text, icon_text, state_name, SessionInfo};

verus! {

/// A text filled up with blanks to a width.
pub open spec fn padded(s: Seq<char>, width: nat) -> Seq<char> {
    if s.len() >= width {
        s
    } else {
        s + Seq::new((width - s.len()) as nat, |k: int| ' ')
    }
}

/// What stands before a value.
pub open spec fn row_prefix_text(key: Seq<char>) -> Seq<char> {
    padded(key + ":"@, 8) + " "@
}

/// What stands before a value.
pub fn row_prefix(key: &str) -> (r: String)
    ensures
        r@ == row_prefix_text(key@),
{
    let mut r = concat2(key, ":");
    let ghost start = r@;
    let mut n: usize = chars_of(r.as_str()).len();
    let ghost have: nat = n as nat;
    while n < 8
        invariant
            have == start.len(),
            have <= n,
            n == have || n <= 8,
            r@ == start + Seq::new((n - have) as nat, |k: int| ' '),
        decreases 8 - n,
    {
        r.push(' ');
        n = n + 1;
        assert(r@ =~= start + Seq::new((n - have) as nat, |k: int| ' '));
    }
    assert(r@ =~= padded(start, 8));
    r.push(' ');
    proof {
        reveal_strlit(" ");
        assert(r@ =~= row_prefix_text(key@));
    }
    r
}

/// A key and its value in one line.
pub open spec fn row_text_of(key: Seq<char>, value: Seq<char>) -> Seq<char> {
    row_prefix_text(key) + value
}

/// A key and its value, each in its colour.
pub open spec fn row_of_spans(key: Seq<char>, value: Seq<char>) -> Seq<SpanView> {
    seq![
        styled(row_prefix_text(key), colored(Color::DarkGray)),
        styled(value, colored(Color::White)),
    ]
}

/// The line that heads the tmux coordinates.
pub open spec fn tmux_heading() -> Seq<char> {
    "─── tmux ────────────────────────"@
}

/// A text, or a dash where there is none.
pub open spec fn or_dash(s: Option<String>) -> Seq<char> {
    match s {
        Some(t) => t@,
        None => "—"@,
    }
}

/// Whether something is known of where a session is in tmux.
pub open spec fn in_tmux(s: SessionInfo) -> bool {
    s.tmux_session is Some || s.tmux_window is Some || s.tmux_pane is Some
}

/// The line with the state.
pub open spec fn state_line(s: SessionInfo) -> Seq<SpanView> {
    seq![
        styled("State:   "@, colored(Color::DarkGray)),
        styled(icon_text(s.state), colored(state_color(s.state))),
        styled(" "@, plain()),
        styled(state_name(s.state), colored(Color::White)),
    ]
}

/// The lines with the details of a session.
pub open spec fn detail_lines(s: SessionInfo) -> Seq<Seq<SpanView>> {
    let base = seq![
        row_of_spans("Title"@, shortened(s.title@, 35)),
        state_line(s),
        row_of_spans("Host"@, s.host@),
        row_of_spans("Dir"@, s.working_dir@),
        row_of_spans("Updated"@, age_text(s.activity_age_secs as nat)),
    ];
    let with_parent = match s.parent_id {
        Some(p) => base.push(row_of_spans("Parent"@, p@)),
        None => base,
    };
    if in_tmux(s) {
        with_parent + seq![
            Seq::empty(),
            seq![styled(tmux_heading(), bold(Color::Cyan))],
            row_of_spans("Session"@, or_dash(s.tmux_session)),
            row_of_spans("Window"@, or_dash(s.tmux_window)),
            row_of_spans("Pane"@, or_dash(s.tmux_pane)),
        ]
    } else {
        with_parent
    }
}

/// The lines with the details of a session, without their looks.
pub open spec fn detail_texts(s: SessionInfo) -> Seq<Seq<char>> {
    let base = seq![
        row_text_of("Title"@, shortened(s.title@, 35)),
        "State:   "@ + icon_text(s.state) + " "@ + state_name(s.state),
        row_text_of("Host"@, s.host@),
        row_text_of("Dir"@, s.working_dir@),
        row_text_of("Updated"@, age_text(s.activity_age_secs as nat)),
    ];
    let with_parent = match s.parent_id {
        Some(p) => base.push(row_text_of("Parent"@, p@)),
        None => base,
    };
    if in_tmux(s) {
        with_parent + seq![
            Seq::empty(),
            tmux_heading(),
            row_text_of("Session"@, or_dash(s.tmux_session)),
            row_text_of("Window"@, or_dash(s.tmux_window)),
            row_text_of("Pane"@, or_dash(s.tmux_pane)),
        ]
    } else {
        with_parent
    }
}

proof fn lemma_row_reads(key: Seq<char>, value: Seq<char>)
    ensures
        line_text(row_of_spans(key, value)) == row_text_of(key, value),
{
    let row = row_of_spans(key, value);
    reveal_with_fuel(line_text, 3);
    assert(row.drop_last() =~= seq![row[0]]);
    assert(seq![row[0]].drop_last() =~= Seq::<SpanView>::empty());
    assert(Seq::<char>::empty() + row[0].text =~= row[0].text);
}

/// The lines measured for the height of the panel are those that it shows.
pub proof fn law_measured_lines_are_shown(s: SessionInfo)
    ensures
        detail_texts(s).len() == detail_lines(s).len(),
        forall|k: int|
            0 <= k < detail_lines(s).len() ==> line_text(#[trigger] detail_lines(s)[k])
                == detail_texts(s)[k],
{
    lemma_row_reads("Title"@, shortened(s.title@, 35));
    lemma_row_reads("Host"@, s.host@);
    lemma_row_reads("Dir"@, s.working_dir@);
    lemma_row_reads("Updated"@, age_text(s.activity_age_secs as nat));
    if s.parent_id is Some {
        lemma_row_reads("Parent"@, s.parent_id->0@);
    }
    lemma_row_reads("Session"@, or_dash(s.tmux_session));
    lemma_row_reads("Window"@, or_dash(s.tmux_window));
    lemma_row_reads("Pane"@, or_dash(s.tmux_pane));
    reveal_with_fuel(line_text, 5);
    let st = state_line(s);
    assert(st.drop_last() =~= seq![st[0], st[1], st[2]]);
    assert(st.drop_last().drop_last() =~= seq![st[0], st[1]]);
    assert(st.drop_last().drop_last().drop_last() =~= seq![st[0]]);
    assert(seq![st[0]].drop_last() =~= Seq::<SpanView>::empty());
    assert(line_text(st) =~= "State:   "@ + icon_text(s.state) + " "@ + state_name(s.state));
    let head = seq![styled(tmux_heading(), bold(Color::Cyan))];
    assert(head.drop_last() =~= Seq::<SpanView>::empty());
    assert(line_text(head) =~= tmux_heading());
}

/// A key and its value, each in its colour.
fn row(key: &str, value: &str) -> (r: Vec<Span>)
    ensures
        spans_of(r@) == row_of_spans(key@, value@),
{
    let mut r: Vec<Span> = Vec::new();
    r.push(colored_span(row_prefix(key), Color::DarkGray));
    r.push(colored_span(value.to_string(), Color::White));
    assert(spans_of(r@) =~= row_of_spans(key@, value@));
    r
}

/// A key and its value in one line.
fn row_text(key: &str, value: &str) -> (r: String)
    ensures
        r@ == row_text_of(key@, value@),
{
    concat2(row_prefix(key).as_str(), value)
}

/// A text, or a dash where there is none.
fn text_or_dash(s: &Option<String>) -> (r: String)
    ensures
        r@ == or_dash(*s),
{
    match s {
        Some(t) => t.clone(),
        None => "—".to_string(),
    }
}

/// The lines with the details of a session.
pub fn build_detail_lines(s: &SessionInfo) -> (r: Vec<Vec<Span>>)
    ensures
        lines_view(r@) == detail_lines(*s),
{
    let mut state: Vec<Span> = Vec::new();
    state.push(colored_span("State:   ".to_string(), Color::DarkGray));
    state.push(colored_span(s.state.icon().to_string(), color_of_state(&s.state)));
    state.push(plain_span(" ".to_string()));
    state.push(colored_span(s.state.name().to_string(), Color::White));
    assert(spans_of(state@) =~= state_line(*s));
    let title = truncate(s.title.as_str(), 35);
    let mut lines: Vec<Vec<Span>> = Vec::new();
    lines.push(row("Title", title.as_str()));
    lines.push(state);
    lines.push(row("Host", s.host.as_str()));
    lines.push(row("Dir", s.working_dir.as_str()));
    lines.push(row("Updated", s.activity_age_human().as_str()));
    match &s.parent_id {
        Some(parent_id) => {
            lines.push(row("Parent", parent_id.as_str()));
        },
        None => {},
    }
    if s.tmux_session.is_some() || s.tmux_window.is_some() || s.tmux_pane.is_some() {
        let blank: Vec<Span> = Vec::new();
        assert(spans_of(blank@) =~= Seq::<SpanView>::empty());
        lines.push(blank);
        let mut heading: Vec<Span> = Vec::new();
        heading.push(
            bold_span("─── tmux ────────────────────────".to_string(), Color::Cyan),
        );
        assert(spans_of(heading@) =~= seq![styled(tmux_heading(), bold(Color::Cyan))]);
        lines.push(heading);
        lines.push(row("Session", text_or_dash(&s.tmux_session).as_str()));
        lines.push(row("Window", text_or_dash(&s.tmux_window).as_str()));
        lines.push(row("Pane", text_or_dash(&s.tmux_pane).as_str()));
    }
    assert(lines_view(lines@) =~= detail_lines(*s));
    lines
}

/// The lines with the details of a session, without their looks.
pub fn build_detail_plain_lines(s: &SessionInfo) -> (r: Vec<String>)
    ensures
        strings(r@) == detail_texts(*s),
{
    let title = truncate(s.title.as_str(), 35);
    let mut lines: Vec<String> = Vec::new();
    lines.push(row_text("Title", title.as_str()));
    lines.push(concat4("State:   ", s.state.icon(), " ", s.state.name()));
    lines.push(row_text("Host", s.host.as_str()));
    lines.push(row_text("Dir", s.working_dir.as_str()));
    lines.push(row_text("Updated", s.activity_age_human().as_str()));
    match &s.parent_id {
        Some(parent_id) => {
            lines.push(row_text("Parent", parent_id.as_str()));
        },
        None => {},
    }
    if s.tmux_session.is_some() || s.tmux_window.is_some() || s.tmux_pane.is_some() {
        lines.push(String::new());
        lines.push("─── tmux ────────────────────────".to_string());
        lines.push(row_text("Session", text_or_dash(&s.tmux_session).as_str()));
        lines.push(row_text("Window", text_or_dash(&s.tmux_window).as_str()));
        lines.push(row_text("Pane", text_or_dash(&s.tmux_pane).as_str()));
    }
    assert(strings(lines@) =~= detail_texts(*s));
    lines
}

/// How many rows a line of some length takes in a width, at least one.
pub open spec fn wrapped_rows(len: nat, width: nat) -> nat {
    let w = if width == 0 {
        1
    } else {
        width
    };
    if len == 0 {
        1
    } else {
        ((len + w - 1) / w as int) as nat
    }
}

/// How many rows a line takes in a width.
pub fn wrapped_line_count(line: &str, width: usize) -> (r: usize)
    ensures
        r == wrapped_rows(line@.len(), width as nat),
{
    let w: usize = if width == 0 {
        1
    } else {
        width
    };
    let len: usize = chars_of(line).len();
    if len == 0 {
        1
    } else {
        assert((len - 1) / w as int + 1 == (len + w - 1) / w as int) by (nonlinear_arith)
            requires
                w >= 1,
                len >= 1,
        ;
        assert((len - 1) / w as int <= len - 1) by (nonlinear_arith)
            requires
                w >= 1,
                len >= 1,
        ;
        (len - 1) / w + 1
    }
}

/// How many rows lines take in a width.
pub open spec fn total_rows(lines: Seq<Seq<char>>, width: nat) -> nat
    decreases lines.len(),
{
    if lines.len() == 0 {
        0
    } else {
        total_rows(lines.drop_last(), width) + wrapped_rows(lines.last().len(), width)
    }
}

/// The height that the panel would like to have in an area of a width: its
/// lines and two borders.
pub open spec fn wanted_height(v: AppView, width: u16) -> nat {
    let inner = if width > 3 {
        (width - 2) as nat
    } else {
        1
    };
    let content = match v.selected_session() {
        Some(s) => total_rows(detail_texts(s), inner),
        None => 1,
    };
    if content + 2 > u16::MAX {
        u16::MAX as nat
    } else {
        content + 2
    }
}

/// The height that the panel would like to have in an area of a width.
pub fn desired_height(app: &App, area_width: u16) -> (r: u16)
    ensures
        r == wanted_height(app@, area_width),
{
    let inner: usize = if area_width > 3 {
        (area_width - 2) as usize
    } else {
        1
    };
    match app.selected_session() {
        Some(session) => {
            let lines = build_detail_plain_lines(session);
            let ghost texts = detail_texts(*session);
            let mut total: u64 = 0;
            for k in 0..lines.len()
                invariant
                    strings(lines@) == texts,
                    total == (if total_rows(texts.take(k as int), inner as nat) > 65535 {
                        65536
                    } else {
                        total_rows(texts.take(k as int), inner as nat) as int
                    }),
            {
                assert(texts[k as int] == lines@[k as int]@);
                assert(texts.take(k + 1).drop_last() =~= texts.take(k as int));
                let rows: u64 = wrapped_line_count(lines[k].as_str(), inner) as u64;
                total = if rows > 65535 || total + rows > 65535 {
                    65536
                } else {
                    total + rows
                };
            }
            assert(texts.take(texts.len() as int) =~= texts);
            if total + 2 > 65535 {
                65535
            } else {
                (total + 2) as u16
            }
        },
        None => 3,
    }
}

/// What the detail panel shows: the details of the selected session, if any.
pub fn render(app: &App) -> (r: Option<Vec<Vec<Span>>>)
    ensures
        match app@.selected_session() {
            Some(s) => r matches Some(lines) && lines_view(lines@) == detail_lines(s),
            None => r is None,
        },
{
    match app.selected_session() {
        Some(session) => Some(build_detail_lines(session)),
        None => None,
    }
}

/// Padding fills a text up to a width with blanks and takes nothing away.
pub proof fn law_padding_only_adds_blanks(s: Seq<char>, width: nat)
    ensures
        padded(s, width).len() == if s.len() > width {
            s.len()
        } else {
            width
        },
        padded(s, width).take(s.len() as int) == s,
        forall|k: int| s.len() <= k < padded(s, width).len() ==> #[trigger] padded(s, width)[k]
            == ' ',
{
    assert(padded(s, width).take(s.len() as int) =~= s);
}

proof fn lemma_row_prefix(key: Seq<char>, text: Seq<char>)
    requires
        key.len() <= 7,
        text.len() == 9,
        text.take(key.len() as int) == key,
        text[key.len() as int] == ':',
        forall|k: int| key.len() < k < 9 ==> #[trigger] text[k] == ' ',
    ensures
        row_prefix_text(key) == text,
{
    reveal_strlit(":");
    reveal_strlit(" ");
    let got = row_prefix_text(key);
    assert(got.len() == 9);
    assert forall|k: int| 0 <= k < 9 implies got[k] == text[k] by {
        if k < key.len() {
            assert(text.take(key.len() as int)[k] == text[k]);
        }
    }
    assert(got =~= text);
}

/// The details of a session: its title, its state with icon and name, its host,
/// its directory, its age, its parent where it has one, and its place in tmux
/// where it has one, each behind its label.
pub proof fn law_details_show_the_session(s: SessionInfo)
    ensures
        ({
            let t = detail_texts(s);
            let p: int = if s.parent_id is Some {
                1
            } else {
                0
            };
            let placed = s.tmux_session is Some || s.tmux_window is Some || s.tmux_pane is Some;
            &&& t.len() == 5 + p + (if placed {
                5int
            } else {
                0
            })
            &&& t[0] == "Title:   "@ + shortened(s.title@, 35)
            &&& t[1] == "State:   "@ + icon_text(s.state) + " "@ + state_name(s.state)
            &&& t[2] == "Host:    "@ + s.host@
            &&& t[3] == "Dir:     "@ + s.working_dir@
            &&& t[4] == "Updated: "@ + age_text(s.activity_age_secs as nat)
            &&& s.parent_id matches Some(parent) ==> t[5] == "Parent:  "@ + parent@
            &&& placed ==> t[7 + p] == "Session: "@ + or_dash(s.tmux_session)
            &&& placed ==> t[8 + p] == "Window:  "@ + or_dash(s.tmux_window)
            &&& placed ==> t[9 + p] == "Pane:    "@ + or_dash(s.tmux_pane)
        }),
{
    reveal_strlit("Title");
    reveal_strlit("Host");
    reveal_strlit("Dir");
    reveal_strlit("Updated");
    reveal_strlit("Parent");
    reveal_strlit("Session");
    reveal_strlit("Window");
    reveal_strlit("Pane");
    reveal_strlit("Title:   ");
    reveal_strlit("Host:    ");
    reveal_strlit("Dir:     ");
    reveal_strlit("Updated: ");
    reveal_strlit("Parent:  ");
    reveal_strlit("Session: ");
    reveal_strlit("Window:  ");
    reveal_strlit("Pane:    ");
    assert("Title:   "@.take(5) =~= "Title"@);
    assert("Host:    "@.take(4) =~= "Host"@);
    assert("Dir:     "@.take(3) =~= "Dir"@);
    assert("Updated: "@.take(7) =~= "Updated"@);
    assert("Parent:  "@.take(6) =~= "Parent"@);
    assert("Session: "@.take(7) =~= "Session"@);
    assert("Window:  "@.take(6) =~= "Window"@);
    assert("Pane:    "@.take(4) =~= "Pane"@);
    lemma_row_prefix("Title"@, "Title:   "@);
    lemma_row_prefix("Host"@, "Host:    "@);
    lemma_row_prefix("Dir"@, "Dir:     "@);
    lemma_row_prefix("Updated"@, "Updated: "@);
    lemma_row_prefix("Parent"@, "Parent:  "@);
    lemma_row_prefix("Session"@, "Session: "@);
    lemma_row_prefix("Window"@, "Window:  "@);
    lemma_row_prefix("Pane"@, "Pane:    "@);
}

/// A text takes as many rows as hold it and no more; an empty one takes a row too.
pub proof fn law_rows_hold_the_text(len: nat, width: nat)
    requires
        width > 0,
    ensures
        len == 0 ==> wrapped_rows(len, width) == 1,
        len > 0 ==> (wrapped_rows(len, width) - 1) * width < len <= wrapped_rows(len, width)
            * width,
        wrapped_rows(len, 0) == wrapped_rows(len, 1),
{
    if len > 0 {
        let n = len + width - 1;
        let w = width as int;
        vstd::arithmetic::div_mod::lemma_fundamental_div_mod(n, w);
        let q = n / w;
        let r = n % w;
        assert(0 <= r < w) by (nonlinear_arith)
            requires
                w > 0,
                r == n % w,
        ;
        assert(q >= 0) by (nonlinear_arith)
            requires
                q == n / w,
                n >= 0,
                w > 0,
        ;
        assert(w * q == q * w) by (nonlinear_arith);
        assert((q - 1) * w == q * w - w) by (nonlinear_arith);
    }
}

/// The rows of several lines add up.
pub proof fn law_rows_add_up(line: Seq<char>, rest: Seq<Seq<char>>, width: nat)
    ensures
        total_rows(Seq::empty(), width) == 0,
        total_rows(seq![line] + rest, width) == wrapped_rows(line.len(), width) + total_rows(
            rest,
            width,
        ),
    decreases rest.len(),
{
    let all = seq![line] + rest;
    if rest.len() == 0 {
        assert(all.drop_last() =~= Seq::<Seq<char>>::empty());
        assert(all.last() == line);
    } else {
        law_rows_add_up(line, rest.drop_last(), width);
        assert(all.drop_last() =~= seq![line] + rest.drop_last());
        assert(all.last() == rest.last());
    }
}

/// The details want the rows of their lines within the border, and the border; one
/// row is wanted where nothing is selected.
pub proof fn law_height_for_lines_and_border(v: AppView, width: u16)
    requires
        width > 3,
    ensures
        v.selected >= v.sessions.len() ==> wanted_height(v, width) == 3,
        v.selected < v.sessions.len() && total_rows(
            detail_texts(v.sessions[v.selected as int]),
            (width - 2) as nat,
        ) + 2 <= u16::MAX ==> wanted_height(v, width) == total_rows(
            detail_texts(v.sessions[v.selected as int]),
            (width - 2) as nat,
        ) + 2,
        wanted_height(v, width) <= u16::MAX,
{
}

/// Labels are dark and values bright; the icon of the state has the colour of the
/// state, and the heading stands out.
pub proof fn law_details_in_color(s: SessionInfo, key: Seq<char>, value: Seq<char>)
    ensures
        row_of_spans(key, value).len() == 2,
        row_of_spans(key, value)[0].style.fg == Some(Color::DarkGray),
        row_of_spans(key, value)[1].style.fg == Some(Color::White),
        row_of_spans(key, value)[1].text == value,
        detail_lines(s)[1][1].text == icon_text(s.state),
        detail_lines(s)[1][1].style.fg == Some(state_color(s.state)),
        detail_lines(s)[1][3].text == state_name(s.state),
        in_tmux(s) ==> detail_lines(s)[detail_lines(s).len() - 4][0].style.bold,
        in_tmux(s) ==> detail_lines(s)[detail_lines(s).len() - 4][0].style.fg == Some(Color::Cyan),
{
}

} // verus!
