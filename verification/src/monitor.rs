//! What the monitor shows: lines of text in several tones.

use crate::display::{group_label, group_label_for_display, pretty, pretty_duration};
use crate::numbers::{
    decimal, number_in, number_text, parse_number, push_number, push_signed, signed_decimal,
};
use crate::snapshot::{
    Snapshot, SnapshotApp, SnapshotAppView, SnapshotView, SnapshotWindow, SnapshotWindowView,
    Transition, TransitionView,
};
use crate::storage::labels::{label_of_state, state_label};
use crate::text::{chars_of, push_char, push_text, same_text, trim, trimmed};
use crate::time::Timestamp;
use crate::views::{group_views, lemma_take_all, lemma_take_succ, lemma_views_push, views};
use vstd::prelude::*;

verus! {

/// How many applications are shown.
pub const APPS_SHOWN: usize = 8;

/// How many windows of an application are shown.
pub const WINDOWS_SHOWN: usize = 5;

/// How many transitions are shown.
pub const TRANSITIONS_SHOWN: usize = 5;

/// How many columns a text takes on a terminal, by `unicode_width::UnicodeWidthStr::width`.
pub uninterp spec fn text_columns(s: Seq<char>) -> nat;

/// How many columns a character takes on a terminal, by `unicode_width::UnicodeWidthChar::width`;
/// none for a control character.
pub uninterp spec fn char_columns(c: char) -> Option<nat>;

/// Calls `unicode_width::UnicodeWidthStr::width`, whose answer depends on the text alone.
#[verifier::external_body]
fn columns_of_text(s: &str) -> (r: usize)
    ensures
        r == text_columns(s@),
{
    unicode_width::UnicodeWidthStr::width(s)
}

/// Calls `unicode_width::UnicodeWidthChar::width`, whose answer depends on the character alone.
#[verifier::external_body]
fn columns_of_char(c: char) -> (r: Option<usize>)
    ensures
        char_columns(c) == match r {
            Some(n) => Some(n as nat),
            None => None,
        },
{
    unicode_width::UnicodeWidthChar::width(c)
}

/// The columns of each character of a text; none for a control character.
pub open spec fn columns_each(s: Seq<char>) -> Seq<int> {
    Seq::new(
        s.len(),
        |i: int|
            match char_columns(s[i]) {
                Some(n) => n as int,
                None => 0,
            },
    )
}

/// The text up to where it would take more than `budget` columns, with an ellipsis there; the
/// whole text where it fits. `used` columns are taken already.
pub open spec fn cut(s: Seq<char>, columns: Seq<int>, used: int, budget: int) -> Seq<char>
    decreases s.len(),
{
    if s.len() == 0 {
        Seq::empty()
    } else if used + columns[0] > budget {
        seq!['…']
    } else {
        seq![s[0]] + cut(s.skip(1), columns.skip(1), used + columns[0], budget)
    }
}

/// A title in the columns that are left of `width` between `left` columns and `right` columns.
/// `whole` are the columns of the title, `columns` those of its characters.
pub open spec fn fitted(
    title: Seq<char>,
    whole: int,
    columns: Seq<int>,
    left: int,
    right: int,
    width: int,
) -> Seq<char> {
    let remain = width - (left + right);
    if left + whole + right < width {
        title
    } else if remain <= 0 {
        "…"@
    } else {
        cut(title, columns, 0, if remain > 2 {
            remain - 2
        } else {
            0
        })
    }
}

/// How many spaces stand between `left` columns and `right` columns of `width`.
pub open spec fn padding(left: int, right: int, width: int) -> int {
    if width > left + right {
        width - left - right
    } else {
        1
    }
}

/// A title in the columns that are left, given the columns of the title and of its characters.
pub fn fit_title(
    title: &str,
    whole: usize,
    columns: &Vec<usize>,
    left: usize,
    right: usize,
    width: usize,
) -> (r: String)
    requires
        columns.len() == title@.len(),
    ensures
        r@ == fitted(
            title@,
            whole as int,
            columns@.map_values(|n: usize| n as int),
            left as int,
            right as int,
            width as int,
        ),
{
    let ghost cols = columns@.map_values(|n: usize| n as int);
    let fixed: u128 = left as u128 + right as u128;
    if fixed + whole as u128 >= width as u128 {
        if fixed >= width as u128 {
            return "…".to_string();
        }
        let remain: u128 = width as u128 - fixed;
        let budget: u128 = if remain > 2 {
            remain - 2
        } else {
            0
        };
        let v = chars_of(title);
        let mut out = String::new();
        let mut used: u128 = 0;
        let mut i: usize = 0;
        assert(v@.skip(0) =~= v@);
        assert(cols.skip(0) =~= cols);
        assert(out@ + cut(v@, cols, 0, budget as int) =~= cut(v@, cols, 0, budget as int));
        while i < v.len()
            invariant
                v@ == title@,
                cols == columns@.map_values(|n: usize| n as int),
                columns.len() == v.len(),
                i <= v.len(),
                used <= budget <= usize::MAX,
                fitted(title@, whole as int, cols, left as int, right as int, width as int) == cut(
                    title@,
                    cols,
                    0,
                    budget as int,
                ),
                out@ + cut(v@.skip(i as int), cols.skip(i as int), used as int, budget as int)
                    == cut(title@, cols, 0, budget as int),
            decreases v.len() - i,
        {
            let w: u128 = columns[i] as u128;
            let ghost before = out@;
            let ghost rest = v@.skip(i as int);
            let ghost rest_cols = cols.skip(i as int);
            assert(rest_cols[0] == w);
            if used + w > budget {
                push_char(&mut out, '…');
                assert(out@ =~= before + cut(rest, rest_cols, used as int, budget as int));
                return out;
            }
            assert(rest.skip(1) =~= v@.skip(i + 1));
            assert(rest_cols.skip(1) =~= cols.skip(i + 1));
            push_char(&mut out, v[i]);
            assert(out@ + cut(
                v@.skip(i + 1),
                cols.skip(i + 1),
                used + w as int,
                budget as int,
            ) =~= before + cut(rest, rest_cols, used as int, budget as int));
            used = used + w;
            i += 1;
        }
        assert(cut(v@.skip(i as int), cols.skip(i as int), used as int, budget as int)
            =~= Seq::empty());
        assert(out@ + Seq::<char>::empty() =~= out@);
        out
    } else {
        title.to_string()
    }
}

/// How many spaces stand between the left and the right part of a line.
pub fn pad_columns(left: u128, right: usize, width: usize) -> (r: usize)
    requires
        left <= u64::MAX * 4,
    ensures
        r == padding(left as int, right as int, width as int),
{
    if width as u128 > left + right as u128 {
        (width as u128 - left - right as u128) as usize
    } else {
        1
    }
}

/// The tones of a text.
#[derive(Clone, Copy, Debug, PartialEq, Eq, Structural)]
pub enum Tone {
    Plain,
    Gray,
    DarkGray,
    Green,
    GreenBold,
    Yellow,
    YellowBold,
    Cyan,
    CyanBold,
    Magenta,
    White,
    Red,
}

/// A text in one tone.
#[derive(Debug)]
pub struct Piece {
    pub text: String,
    pub tone: Tone,
}

#[verifier::ext_equal]
pub struct PieceView {
    pub text: Seq<char>,
    pub tone: Tone,
}

impl View for Piece {
    type V = PieceView;

    open spec fn view(&self) -> PieceView {
        PieceView { text: self.text@, tone: self.tone }
    }
}

/// A line of the monitor.
#[derive(Debug)]
pub struct ScreenLine {
    pub pieces: Vec<Piece>,
}

impl View for ScreenLine {
    type V = Seq<PieceView>;

    open spec fn view(&self) -> Seq<PieceView> {
        views(self.pieces@)
    }
}

pub open spec fn toned(text: Seq<char>, tone: Tone) -> PieceView {
    PieceView { text, tone }
}

/// A line in one plain piece.
pub open spec fn plain_line(text: Seq<char>) -> Seq<PieceView> {
    seq![toned(text, Tone::Plain)]
}

impl ScreenLine {
    fn empty() -> (r: Self)
        ensures
            r@ == Seq::<PieceView>::empty(),
    {
        let r = ScreenLine { pieces: Vec::new() };
        assert(r@ =~= Seq::empty());
        r
    }

    fn add(&mut self, text: &str, tone: Tone)
        ensures
            final(self)@ == old(self)@.push(toned(text@, tone)),
    {
        broadcast use lemma_views_push;

        self.pieces.push(Piece { text: text.to_string(), tone });
    }

    fn plain(text: &str) -> (r: Self)
        ensures
            r@ == plain_line(text@),
    {
        let mut r = Self::empty();
        r.add(text, Tone::Plain);
        assert(r@ =~= plain_line(text@));
        r
    }

    fn pair(label: &str, text: &str, tone: Tone) -> (r: Self)
        ensures
            r@ == seq![toned(label@, Tone::Gray), toned(text@, tone)],
    {
        let mut r = Self::empty();
        r.add(label, Tone::Gray);
        r.add(text, tone);
        assert(r@ =~= seq![toned(label@, Tone::Gray), toned(text@, tone)]);
        r
    }
}

/// The number of the daemon as it is shown: what its file holds, where that is a number.
pub open spec fn shown_pid(content: Option<Seq<char>>) -> Seq<char> {
    match content {
        Some(text) => match number_in(trimmed(text)) {
            Some(n) => if n <= u32::MAX {
                decimal(n)
            } else {
                "unknown"@
            },
            None => "unknown"@,
        },
        None => "unknown"@,
    }
}

/// The number of the daemon as it is shown, from the content of its file.
pub fn pid_text(content: Option<&str>) -> (r: String)
    ensures
        r@ == shown_pid(
            match content {
                Some(text) => Some(text@),
                None => None,
            },
        ),
{
    match content {
        Some(text) => match parse_number(trim(text).as_str(), u32::MAX as u64) {
            Some(n) => number_text(n),
            None => "unknown".to_string(),
        },
        None => "unknown".to_string(),
    }
}

/// The focus in one line.
pub open spec fn focus_text(s: SnapshotView) -> Seq<char> {
    match s.focus {
        Some(f) => f.app_name + " ["@ + signed_decimal(f.pid as int) + "] - "@ + f.window_title,
        None => "-"@,
    }
}

/// The focus in one line.
pub fn text_of_focus(s: &Snapshot) -> (r: String)
    ensures
        r@ == focus_text(s@),
{
    match &s.focus {
        Some(f) => {
            let mut t = (*f.app_name).clone();
            push_text(&mut t, " [");
            push_signed(&mut t, f.pid as i64);
            push_text(&mut t, "] - ");
            push_text(&mut t, f.window_title.as_str());
            t
        },
        None => "-".to_string(),
    }
}

/// The run, or a dash.
pub open spec fn run_text(run_id: Option<Seq<char>>) -> Seq<char> {
    match run_id {
        Some(id) => id,
        None => "-"@,
    }
}

/// The run, or a dash.
pub fn text_of_run(run_id: &Option<String>) -> (r: String)
    ensures
        r@ == run_text(crate::views::view_opt(*run_id)),
{
    match run_id {
        Some(id) => id.clone(),
        None => "-".to_string(),
    }
}

/// The top panel: what the daemon is doing.
pub open spec fn stats_panel(s: SnapshotView, pid: Seq<char>) -> Seq<Seq<PieceView>> {
    seq![
        seq![toned("Status: "@, Tone::Gray), toned("running"@, Tone::GreenBold)],
        seq![toned("PID: "@, Tone::Gray), toned(pid, Tone::YellowBold)],
        seq![
            toned("State: "@, Tone::Gray),
            toned(state_label(s.activity_state), Tone::CyanBold),
        ],
        seq![toned("Run: "@, Tone::Gray), toned(run_text(s.run_id), Tone::Plain)],
        seq![
            toned("Cadence: "@, Tone::Gray),
            toned(
                decimal(s.cadence_ms as nat) + "ms ("@ + s.cadence_reason + ")"@,
                Tone::Plain,
            ),
        ],
        seq![toned("Focus: "@, Tone::Gray), toned(focus_text(s), Tone::Plain)],
    ]
}

/// The top panel: what the daemon is doing. `pid` is its number.
pub fn stats_lines(s: &Snapshot, pid: &str) -> (r: Vec<ScreenLine>)
    ensures
        views(r@) == stats_panel(s@, pid@),
{
    broadcast use lemma_views_push;

    let mut cadence = number_text(s.cadence_ms as u64);
    push_text(&mut cadence, "ms (");
    push_text(&mut cadence, s.cadence_reason.as_str());
    push_text(&mut cadence, ")");
    let run = text_of_run(&s.run_id);
    let focus = text_of_focus(s);
    let mut out: Vec<ScreenLine> = Vec::new();
    out.push(ScreenLine::pair("Status: ", "running", Tone::GreenBold));
    out.push(ScreenLine::pair("PID: ", pid, Tone::YellowBold));
    out.push(ScreenLine::pair("State: ", label_of_state(s.activity_state), Tone::CyanBold));
    out.push(ScreenLine::pair("Run: ", run.as_str(), Tone::Plain));
    out.push(ScreenLine::pair("Cadence: ", cadence.as_str(), Tone::Plain));
    out.push(ScreenLine::pair("Focus: ", focus.as_str(), Tone::Plain));
    assert(views(out@) =~= stats_panel(s@, pid@));
    out
}

/// The branch before a window of the tree: the last window shown closes it.
pub open spec fn branch(i: int, total: int) -> Seq<char> {
    if i + 1 < total && i < 4 {
        "  ├── "@
    } else {
        "  └── "@
    }
}

/// The title of a window or group in the tree.
pub open spec fn tree_title(w: SnapshotWindowView) -> Seq<char> {
    if w.is_group {
        group_label(w.window_id, w.window_title) + " [group]"@
    } else {
        w.window_title
    }
}

/// So many spaces.
pub open spec fn spaces(n: int) -> Seq<char> {
    Seq::new(n as nat, |i: int| ' ')
}

/// The line of window `i` of `total`, which was first seen at `since`, in `width` columns.
pub open spec fn window_line(
    w: SnapshotWindowView,
    i: int,
    total: int,
    width: int,
    since: Seq<char>,
) -> Seq<PieceView> {
    let prefix = branch(i, total);
    let id = "<#"@ + w.window_id + ">"@;
    let duration = pretty(w.duration_seconds as int);
    let right = text_columns(duration + " • since "@ + since) as int;
    let left: int = text_columns(prefix) as int + text_columns(id) as int + 1;
    let title = tree_title(w);
    let shown = fitted(
        title,
        text_columns(title) as int,
        columns_each(title),
        left,
        right,
        width,
    );
    seq![
        toned(prefix, Tone::DarkGray),
        toned(id, Tone::Green),
        toned(" "@, Tone::Plain),
        toned(
            shown,
            if w.is_group {
                Tone::Magenta
            } else {
                Tone::White
            },
        ),
        toned(spaces(padding(left + text_columns(shown) as int, right, width)), Tone::Plain),
        toned(duration, Tone::Cyan),
        toned(" • "@, Tone::Plain),
        toned("since "@ + since, Tone::Gray),
    ]
}

fn push_spaces(s: &mut String, n: usize)
    ensures
        final(s)@ == old(s)@ + spaces(n as int),
{
    let ghost before = s@;
    let mut i: usize = 0;
    assert(s@ =~= before + spaces(0));
    while i < n
        invariant
            i <= n,
            s@ == before + spaces(i as int),
        decreases n - i,
    {
        push_char(s, ' ');
        i += 1;
        assert(s@ =~= before + spaces(i as int));
    }
}

fn columns_of_chars(s: &str) -> (r: Vec<usize>)
    ensures
        r.len() == s@.len(),
        r@.map_values(|n: usize| n as int) == columns_each(s@),
{
    let v = chars_of(s);
    let mut out: Vec<usize> = Vec::new();
    let mut i: usize = 0;
    while i < v.len()
        invariant
            v@ == s@,
            i <= v.len(),
            out.len() == i,
            forall|j: int| 0 <= j < i ==> (#[trigger] out@[j]) == columns_each(s@)[j],
        decreases v.len() - i,
    {
        let n: usize = match columns_of_char(v[i]) {
            Some(n) => n,
            None => 0,
        };
        out.push(n);
        i += 1;
    }
    assert(out@.map_values(|n: usize| n as int) =~= columns_each(s@));
    out
}

fn line_of_window(w: &SnapshotWindow, i: usize, total: usize, width: usize, since: &str) -> (r:
    ScreenLine)
    requires
        i < total,
    ensures
        r@ == window_line(w@, i as int, total as int, width as int, since@),
{
    let prefix = if i + 1 < total && i < 4 {
        "  ├── "
    } else {
        "  └── "
    };
    let duration = pretty_duration(w.duration_seconds);
    let mut right_info = duration.clone();
    push_text(&mut right_info, " • since ");
    push_text(&mut right_info, since);
    let right: usize = columns_of_text(right_info.as_str());
    let mut id = "<#".to_string();
    push_text(&mut id, w.window_id.as_str());
    push_text(&mut id, ">");
    let prefix_columns: usize = columns_of_text(prefix);
    let id_columns: usize = columns_of_text(id.as_str());
    let left: u128 = prefix_columns as u128 + id_columns as u128 + 1;
    let title = if w.is_group {
        let mut label = group_label_for_display(w.window_id.as_str(), w.window_title.as_str());
        push_text(&mut label, " [group]");
        label
    } else {
        w.window_title.clone()
    };
    let whole: usize = columns_of_text(title.as_str());
    let columns = columns_of_chars(title.as_str());
    let shown = fit_wide(title.as_str(), whole, &columns, left, right, width);
    let shown_columns: usize = columns_of_text(shown.as_str());
    let pad: usize = pad_columns(left + shown_columns as u128, right, width);
    let mut gap = String::new();
    push_spaces(&mut gap, pad);
    assert(gap@ =~= spaces(pad as int));
    let mut since_text = "since ".to_string();
    push_text(&mut since_text, since);
    let mut line = ScreenLine::empty();
    line.add(prefix, Tone::DarkGray);
    line.add(id.as_str(), Tone::Green);
    line.add(" ", Tone::Plain);
    line.add(
        shown.as_str(),
        if w.is_group {
            Tone::Magenta
        } else {
            Tone::White
        },
    );
    line.add(gap.as_str(), Tone::Plain);
    line.add(duration.as_str(), Tone::Cyan);
    line.add(" • ", Tone::Plain);
    line.add(since_text.as_str(), Tone::Gray);
    assert(line@ =~= window_line(w@, i as int, total as int, width as int, since@));
    line
}

/// A title in the columns that are left beside `left` columns, which may be more than `width`.
fn fit_wide(
    title: &str,
    whole: usize,
    columns: &Vec<usize>,
    left: u128,
    right: usize,
    width: usize,
) -> (r: String)
    requires
        columns.len() == title@.len(),
        left <= u64::MAX * 3,
    ensures
        r@ == fitted(
            title@,
            whole as int,
            columns@.map_values(|n: usize| n as int),
            left as int,
            right as int,
            width as int,
        ),
{
    if left > width as u128 {
        "…".to_string()
    } else {
        fit_title(title, whole, columns, left as usize, right, width)
    }
}

/// The head of an application in the tree.
pub open spec fn app_line(a: SnapshotAppView) -> Seq<PieceView> {
    seq![
        toned("["@ + signed_decimal(a.pid as int) + "]"@, Tone::GreenBold),
        toned(" "@, Tone::Plain),
        toned(a.app_name, Tone::YellowBold),
        toned(" • "@, Tone::Plain),
        toned(a.total_duration_pretty, Tone::Cyan),
    ]
}

fn line_of_app(a: &SnapshotApp) -> (r: ScreenLine)
    ensures
        r@ == app_line(a@),
{
    let mut pid = "[".to_string();
    push_signed(&mut pid, a.pid as i64);
    push_text(&mut pid, "]");
    let mut line = ScreenLine::empty();
    line.add(pid.as_str(), Tone::GreenBold);
    line.add(" ", Tone::Plain);
    line.add(a.app_name.as_str(), Tone::YellowBold);
    line.add(" • ", Tone::Plain);
    line.add(a.total_duration_pretty.as_str(), Tone::Cyan);
    assert(line@ =~= app_line(a@));
    line
}

/// How many of `n` things are shown where at most `limit` are.
pub open spec fn shown_of(n: int, limit: int) -> int {
    if n < limit {
        n
    } else {
        limit
    }
}

/// The first `n` windows of an application.
pub open spec fn window_lines(
    a: SnapshotAppView,
    n: int,
    width: int,
    since: Seq<Seq<char>>,
) -> Seq<Seq<PieceView>> {
    Seq::new(
        n as nat,
        |i: int| window_line(a.windows[i], i, a.windows.len() as int, width, since[i]),
    )
}

/// An application with its windows.
pub open spec fn app_block(a: SnapshotAppView, width: int, since: Seq<Seq<char>>) -> Seq<
    Seq<PieceView>,
> {
    seq![app_line(a)] + window_lines(
        a,
        shown_of(a.windows.len() as int, WINDOWS_SHOWN as int),
        width,
        since,
    )
}

/// The first `n` applications with their windows.
pub open spec fn app_blocks(
    apps: Seq<SnapshotAppView>,
    n: int,
    width: int,
    since: Seq<Seq<Seq<char>>>,
) -> Seq<Seq<PieceView>>
    decreases n,
{
    if n <= 0 {
        Seq::empty()
    } else {
        app_blocks(apps, n - 1, width, since) + app_block(apps[n - 1], width, since[n - 1])
    }
}

/// The bottom panel: the applications in use. `period` says since when, where that was chosen.
pub open spec fn apps_panel(
    apps: Seq<SnapshotAppView>,
    period: Option<Seq<char>>,
    width: int,
    since: Seq<Seq<Seq<char>>>,
) -> Seq<Seq<PieceView>> {
    let head = match period {
        Some(line) => seq![seq![toned(line, Tone::Gray)]],
        None => Seq::empty(),
    };
    let body = if apps.len() > 0 {
        app_blocks(apps, shown_of(apps.len() as int, APPS_SHOWN as int), width, since)
    } else if period is Some {
        seq![plain_line("Apps: (no activity in this period)"@)]
    } else {
        seq![plain_line("Apps: (no recent activity)"@)]
    };
    head + body
}

/// The local times at which the windows shown were first seen, one list per application shown.
pub open spec fn times_suffice(apps: Seq<SnapshotAppView>, since: Seq<Seq<Seq<char>>>) -> bool {
    &&& since.len() >= shown_of(apps.len() as int, APPS_SHOWN as int)
    &&& forall|i: int|
        0 <= i < shown_of(apps.len() as int, APPS_SHOWN as int) ==> (#[trigger] since[i]).len()
            >= shown_of(apps[i].windows.len() as int, WINDOWS_SHOWN as int)
}

/// A list of texts as a mathematical value.
pub open spec fn texts(s: Seq<Vec<String>>) -> Seq<Seq<Seq<char>>> {
    Seq::new(s.len(), |i: int| views(s[i]@))
}

proof fn lemma_push_add<T>(a: Seq<T>, b: Seq<T>, t: T)
    ensures
        (a + b).push(t) == a + b.push(t),
{
    assert((a + b).push(t) =~= a + b.push(t));
}

proof fn lemma_push_add2<T>(a: Seq<T>, b: Seq<T>, c: Seq<T>, t: T)
    ensures
        (a + (b + c)).push(t) == a + (b + c.push(t)),
{
    assert((a + (b + c)).push(t) =~= a + (b + c.push(t)));
}

fn push_app_block(out: &mut Vec<ScreenLine>, a: &SnapshotApp, width: usize, since: &Vec<String>)
    requires
        since@.len() >= shown_of(a.windows@.len() as int, WINDOWS_SHOWN as int),
    ensures
        views(final(out)@) == views(old(out)@) + app_block(a@, width as int, views(since@)),
{
    broadcast use group_views;

    let ghost before = views(out@);
    let n: usize = if a.windows.len() < WINDOWS_SHOWN {
        a.windows.len()
    } else {
        WINDOWS_SHOWN
    };
    out.push(line_of_app(a));
    let ghost head = seq![app_line(a@)];
    assert(views(out@) =~= before + (head + window_lines(a@, 0, width as int, views(since@))));
    let mut i: usize = 0;
    while i < n
        invariant
            i <= n <= a.windows.len(),
            n <= since.len(),
            head == seq![app_line(a@)],
            views(out@) == before + (head + window_lines(
                a@,
                i as int,
                width as int,
                views(since@),
            )),
        decreases n - i,
    {
        assert(a@.windows[i as int] == a.windows@[i as int]@);
        assert(views(since@)[i as int] == since@[i as int]@);
        let line = line_of_window(&a.windows[i], i, a.windows.len(), width, since[i].as_str());
        let ghost shown = window_lines(a@, i as int, width as int, views(since@));
        let ghost line_view = line@;
        out.push(line);
        i += 1;
        proof {
            assert(window_lines(a@, i as int, width as int, views(since@)) =~= shown.push(
                line_view,
            ));
            lemma_push_add2(before, head, shown, line_view);
        }
    }
}

/// The bottom panel: the applications in use, in `width` columns. `period` says since when, where
/// that was chosen; `since` are the local times at which the windows shown were first seen.
pub fn app_lines(
    apps: &Vec<SnapshotApp>,
    period: Option<&str>,
    width: usize,
    since: &Vec<Vec<String>>,
) -> (r: Vec<ScreenLine>)
    requires
        times_suffice(views(apps@), texts(since@)),
    ensures
        views(r@) == apps_panel(
            views(apps@),
            match period {
                Some(line) => Some(line@),
                None => None,
            },
            width as int,
            texts(since@),
        ),
{
    broadcast use group_views;

    let ghost all = views(apps@);
    let ghost times = texts(since@);
    let mut out: Vec<ScreenLine> = Vec::new();
    match period {
        Some(line) => {
            let mut l = ScreenLine::empty();
            l.add(line, Tone::Gray);
            assert(l@ =~= seq![toned(line@, Tone::Gray)]);
            out.push(l);
            assert(views(out@) =~= seq![seq![toned(line@, Tone::Gray)]]);
        },
        None => {
            assert(views(out@) =~= Seq::empty());
        },
    }
    let ghost head = views(out@);
    if apps.len() > 0 {
        let n: usize = if apps.len() < APPS_SHOWN {
            apps.len()
        } else {
            APPS_SHOWN
        };
        let mut i: usize = 0;
        assert(views(out@) =~= head + app_blocks(all, 0, width as int, times));
        while i < n
            invariant
                i <= n <= apps.len(),
                n == shown_of(all.len() as int, APPS_SHOWN as int),
                all == views(apps@),
                times == texts(since@),
                times_suffice(all, times),
                views(out@) == head + app_blocks(all, i as int, width as int, times),
            decreases n - i,
        {
            assert(times[i as int] == views(since@[i as int]@));
            assert(all[i as int] == apps@[i as int]@);
            assert(all[i as int].windows.len() == apps@[i as int].windows@.len());
            push_app_block(&mut out, &apps[i], width, &since[i]);
            i += 1;
            assert(views(out@) =~= head + app_blocks(all, i as int, width as int, times));
        }
    } else if period.is_some() {
        out.push(ScreenLine::plain("Apps: (no activity in this period)"));
        assert(views(out@) =~= head + seq![plain_line("Apps: (no activity in this period)"@)]);
    } else {
        out.push(ScreenLine::plain("Apps: (no recent activity)"));
        assert(views(out@) =~= head + seq![plain_line("Apps: (no recent activity)"@)]);
    }
    out
}

/// The tone of the mark before a transition, by the signal that caused it.
pub open spec fn signal_tone(by_signal: Option<Seq<char>>) -> Tone {
    match by_signal {
        Some(s) => if s == "KeyboardInput"@ {
            Tone::Yellow
        } else if s == "MouseInput"@ {
            Tone::Cyan
        } else if s == "AppChanged"@ || s == "ActivityPulse"@ || s == "LockEnd"@ {
            Tone::Green
        } else if s == "WindowChanged"@ {
            Tone::Magenta
        } else if s == "LockStart"@ {
            Tone::Red
        } else {
            Tone::Gray
        },
        None => Tone::Gray,
    }
}

fn tone_of_signal(by_signal: &Option<String>) -> (r: Tone)
    ensures
        r == signal_tone(crate::views::view_opt(*by_signal)),
{
    match by_signal {
        Some(s) => {
            let s = s.as_str();
            if same_text(s, "KeyboardInput") {
                Tone::Yellow
            } else if same_text(s, "MouseInput") {
                Tone::Cyan
            } else if same_text(s, "AppChanged") || same_text(s, "ActivityPulse") || same_text(
                s,
                "LockEnd",
            ) {
                Tone::Green
            } else if same_text(s, "WindowChanged") {
                Tone::Magenta
            } else if same_text(s, "LockStart") {
                Tone::Red
            } else {
                Tone::Gray
            }
        },
        None => Tone::Gray,
    }
}

/// The last transition, which was at the local time `at`.
pub open spec fn last_transition_line(t: TransitionView, at: Seq<char>) -> Seq<PieceView> {
    seq![
        toned("Last transition: "@, Tone::Gray),
        toned(state_label(t.from), Tone::YellowBold),
        toned(" → "@, Tone::Plain),
        toned(state_label(t.to), Tone::GreenBold),
        toned(" at "@, Tone::Plain),
        toned(at, Tone::Gray),
    ] + (match t.by_signal {
        Some(signal) => seq![
            toned("  "@, Tone::Plain),
            toned("● "@, Tone::Green),
            toned(signal, Tone::Green),
        ],
        None => seq![
            toned(""@, Tone::Plain),
            toned(""@, Tone::Plain),
            toned(""@, Tone::Plain),
        ],
    })
}

/// A recent transition, which was at the local time `at`.
pub open spec fn recent_transition_line(t: TransitionView, at: Seq<char>) -> Seq<PieceView> {
    let tone = signal_tone(t.by_signal);
    seq![
        toned("  ● "@, tone),
        toned(state_label(t.from), Tone::Yellow),
        toned(" → "@, Tone::Plain),
        toned(state_label(t.to), Tone::Green),
        toned(" at "@, Tone::Plain),
        toned(at, Tone::Gray),
    ] + (match t.by_signal {
        Some(signal) => seq![toned("  "@, Tone::Plain), toned(signal, tone)],
        None => seq![toned(""@, Tone::Plain), toned(""@, Tone::Plain)],
    })
}

fn line_of_last_transition(t: &Transition, at: &str) -> (r: ScreenLine)
    ensures
        r@ == last_transition_line(t@, at@),
{
    let mut line = ScreenLine::empty();
    line.add("Last transition: ", Tone::Gray);
    line.add(label_of_state(t.from), Tone::YellowBold);
    line.add(" → ", Tone::Plain);
    line.add(label_of_state(t.to), Tone::GreenBold);
    line.add(" at ", Tone::Plain);
    line.add(at, Tone::Gray);
    match &t.by_signal {
        Some(signal) => {
            line.add("  ", Tone::Plain);
            line.add("● ", Tone::Green);
            line.add(signal.as_str(), Tone::Green);
        },
        None => {
            line.add("", Tone::Plain);
            line.add("", Tone::Plain);
            line.add("", Tone::Plain);
        },
    }
    assert(line@ =~= last_transition_line(t@, at@));
    line
}

fn line_of_recent_transition(t: &Transition, at: &str) -> (r: ScreenLine)
    ensures
        r@ == recent_transition_line(t@, at@),
{
    let tone = tone_of_signal(&t.by_signal);
    let mut line = ScreenLine::empty();
    line.add("  ● ", tone);
    line.add(label_of_state(t.from), Tone::Yellow);
    line.add(" → ", Tone::Plain);
    line.add(label_of_state(t.to), Tone::Green);
    line.add(" at ", Tone::Plain);
    line.add(at, Tone::Gray);
    match &t.by_signal {
        Some(signal) => {
            line.add("  ", Tone::Plain);
            line.add(signal.as_str(), tone);
        },
        None => {
            line.add("", Tone::Plain);
            line.add("", Tone::Plain);
        },
    }
    assert(line@ =~= recent_transition_line(t@, at@));
    line
}

/// The counts in one line.
pub open spec fn counts_text(s: SnapshotView) -> Seq<char> {
    "signals="@ + decimal(s.counts.signals_seen as nat) + " hints="@ + decimal(
        s.counts.hints_seen as nat,
    ) + " records="@ + decimal(s.counts.records_emitted as nat)
}

/// The counts in one line.
pub fn text_of_counts(s: &Snapshot) -> (r: String)
    ensures
        r@ == counts_text(s@),
{
    let mut t = "signals=".to_string();
    push_number(&mut t, s.counts.signals_seen);
    push_text(&mut t, " hints=");
    push_number(&mut t, s.counts.hints_seen);
    push_text(&mut t, " records=");
    push_number(&mut t, s.counts.records_emitted);
    t
}

/// The instant in the format of RFC 3339, or nothing.
pub open spec fn time_or_blank(t: Option<Timestamp>) -> Seq<char> {
    match t {
        Some(at) => at.text(),
        None => Seq::empty(),
    }
}

/// The instant in the format of RFC 3339, or nothing.
pub fn text_of_time(t: &Option<Timestamp>) -> (r: String)
    ensures
        r@ == time_or_blank(*t),
{
    match t {
        Some(at) => at.to_rfc3339(),
        None => String::new(),
    }
}

/// The lines of the health messages.
pub open spec fn health_lines(health: Seq<Seq<char>>) -> Seq<Seq<PieceView>> {
    if health.len() == 0 {
        Seq::empty()
    } else {
        seq![plain_line("Health:"@)] + Seq::new(
            health.len(),
            |i: int| plain_line("- "@ + health[i]),
        )
    }
}

/// The lines of the recent transitions, which were at the local times `recent_at`.
pub open spec fn recent_lines(ts: Seq<TransitionView>, recent_at: Seq<Seq<char>>) -> Seq<
    Seq<PieceView>,
> {
    if ts.len() == 0 {
        Seq::empty()
    } else {
        seq![plain_line("Recent transitions:"@)] + Seq::new(
            shown_of(ts.len() as int, TRANSITIONS_SHOWN as int) as nat,
            |i: int| recent_transition_line(ts[i], recent_at[i]),
        )
    }
}

/// The middle panel: the details of the snapshot.
pub open spec fn details_panel(
    s: SnapshotView,
    last_at: Seq<char>,
    recent_at: Seq<Seq<char>>,
) -> Seq<Seq<PieceView>> {
    seq![
        plain_line("Counts: "@ + counts_text(s)),
        plain_line(
            "Storage: backlog="@ + decimal(s.storage.backlog_count as nat) + " last_flush="@
                + time_or_blank(s.storage.last_flush_at),
        ),
    ] + (match s.last_transition {
        Some(t) => seq![last_transition_line(t, last_at)],
        None => Seq::empty(),
    }) + seq![
        plain_line("Transitions captured: "@ + decimal(s.transitions_recent.len())),
    ] + recent_lines(s.transitions_recent, recent_at) + health_lines(s.health)
}

fn push_recent_lines(out: &mut Vec<ScreenLine>, ts: &Vec<Transition>, recent_at: &Vec<String>)
    requires
        recent_at@.len() >= shown_of(ts@.len() as int, TRANSITIONS_SHOWN as int),
    ensures
        views(final(out)@) == views(old(out)@) + recent_lines(views(ts@), views(recent_at@)),
{
    broadcast use group_views;

    let ghost before = views(out@);
    let ghost all = views(ts@);
    let ghost at = views(recent_at@);
    if ts.len() == 0 {
        assert(before + recent_lines(all, at) =~= before);
        return;
    }
    let n: usize = if ts.len() < TRANSITIONS_SHOWN {
        ts.len()
    } else {
        TRANSITIONS_SHOWN
    };
    let ghost whole = recent_lines(all, at);
    out.push(ScreenLine::plain("Recent transitions:"));
    assert(views(out@) =~= before + whole.take(1));
    let mut i: usize = 0;
    while i < n
        invariant
            all == views(ts@),
            at == views(recent_at@),
            n == shown_of(all.len() as int, TRANSITIONS_SHOWN as int),
            0 < n <= ts.len(),
            n <= recent_at.len(),
            i <= n,
            whole == recent_lines(all, at),
            views(out@) == before + whole.take(1 + i),
        decreases n - i,
    {
        let line = line_of_recent_transition(&ts[i], recent_at[i].as_str());
        proof {
            assert(all[i as int] == ts@[i as int]@);
            assert(at[i as int] == recent_at@[i as int]@);
            assert(whole[1 + i] == line@);
            lemma_take_succ(whole, 1 + i);
            lemma_push_add(before, whole.take(1 + i), line@);
        }
        out.push(line);
        i += 1;
    }
    proof {
        lemma_take_all(whole);
    }
}

fn push_health_lines(out: &mut Vec<ScreenLine>, health: &Vec<String>)
    ensures
        views(final(out)@) == views(old(out)@) + health_lines(views(health@)),
{
    broadcast use group_views;

    let ghost before = views(out@);
    let ghost all = views(health@);
    if health.len() == 0 {
        assert(before + health_lines(all) =~= before);
        return;
    }
    let ghost whole = health_lines(all);
    out.push(ScreenLine::plain("Health:"));
    assert(views(out@) =~= before + whole.take(1));
    let mut i: usize = 0;
    while i < health.len()
        invariant
            all == views(health@),
            health.len() > 0,
            i <= health.len(),
            whole == health_lines(all),
            views(out@) == before + whole.take(1 + i),
        decreases health.len() - i,
    {
        let mut t = "- ".to_string();
        push_text(&mut t, health[i].as_str());
        let line = ScreenLine::plain(t.as_str());
        proof {
            assert(whole[1 + i] == line@);
            lemma_take_succ(whole, 1 + i);
            lemma_push_add(before, whole.take(1 + i), line@);
        }
        out.push(line);
        i += 1;
    }
    proof {
        lemma_take_all(whole);
    }
}

/// The middle panel: the details of the snapshot. `last_at` and `recent_at` are the local times of
/// the last transition and of the recent ones that are shown.
pub fn detail_lines(s: &Snapshot, last_at: &str, recent_at: &Vec<String>) -> (r: Vec<ScreenLine>)
    requires
        recent_at@.len() >= shown_of(s.transitions_recent@.len() as int, TRANSITIONS_SHOWN as int),
    ensures
        views(r@) == details_panel(s@, last_at@, views(recent_at@)),
{
    broadcast use group_views;

    let mut out: Vec<ScreenLine> = Vec::new();
    let mut counts = "Counts: ".to_string();
    push_text(&mut counts, text_of_counts(s).as_str());
    let mut storage = "Storage: backlog=".to_string();
    push_number(&mut storage, s.storage.backlog_count);
    push_text(&mut storage, " last_flush=");
    push_text(&mut storage, text_of_time(&s.storage.last_flush_at).as_str());
    out.push(ScreenLine::plain(counts.as_str()));
    out.push(ScreenLine::plain(storage.as_str()));
    let ghost top = seq![plain_line(counts@), plain_line(storage@)];
    assert(views(out@) =~= top);
    let ghost last = match s@.last_transition {
        Some(t) => seq![last_transition_line(t, last_at@)],
        None => Seq::empty(),
    };
    match &s.last_transition {
        Some(t) => {
            out.push(line_of_last_transition(t, last_at));
        },
        None => {},
    }
    assert(views(out@) =~= top + last);
    let mut captured = "Transitions captured: ".to_string();
    push_number(&mut captured, s.transitions_recent.len() as u64);
    out.push(ScreenLine::plain(captured.as_str()));
    assert(views(out@) =~= top + last + seq![plain_line(captured@)]);
    push_recent_lines(&mut out, &s.transitions_recent, recent_at);
    push_health_lines(&mut out, &s.health);
    out
}

} // verus!
