//! What the reports and the panels show of a snapshot: every application, every record and every
//! message, as far as there is room, and titles cut only where they do not fit.

use crate::monitor::{
    app_block, app_blocks, apps_panel, cut, details_panel, health_lines, plain_line, toned,
    PieceView, Tone,
};
use crate::numbers::{decimal, signed_decimal};
use crate::records::RecordView;
use crate::report::{
    all_app_lines, all_record_lines, all_window_lines, app_lines, head_lines, record_lines,
    running_status, snapshot_report, status_report, window_lines,
};
use crate::snapshot::{SnapshotAppView, SnapshotView, SnapshotWindowView};
use crate::storage::labels::state_label;
use crate::text::begins_with;
use vstd::prelude::*;

verus! {

proof fn lemma_part_is_there<V>(a: Seq<V>, b: Seq<V>, c: Seq<V>, i: int)
    requires
        0 <= i < b.len(),
    ensures
        (a + b + c).contains(b[i]),
{
    assert((a + b + c)[a.len() + i] == b[i]);
}

proof fn lemma_app_is_there(apps: Seq<SnapshotAppView>, n: int, i: int, j: int)
    requires
        0 <= i < n <= apps.len(),
        0 <= j < app_lines(apps[i]).len(),
    ensures
        all_app_lines(apps, n).contains(app_lines(apps[i])[j]),
    decreases n,
{
    let before = all_app_lines(apps, n - 1);
    let more = app_lines(apps[n - 1]);
    if i < n - 1 {
        lemma_app_is_there(apps, n - 1, i, j);
        let k = choose|k: int| 0 <= k < before.len() && before[k] == app_lines(apps[i])[j];
        assert((before + more)[k] == before[k]);
    } else {
        assert((before + more)[before.len() + j] == more[j]);
    }
}

proof fn lemma_record_is_there(rs: Seq<RecordView>, n: int, i: int, j: int)
    requires
        0 <= i < n <= rs.len(),
        0 <= j < record_lines(rs[i]).len(),
    ensures
        all_record_lines(rs, n).contains(record_lines(rs[i])[j]),
    decreases n,
{
    let before = all_record_lines(rs, n - 1);
    let more = record_lines(rs[n - 1]);
    if i < n - 1 {
        lemma_record_is_there(rs, n - 1, i, j);
        let k = choose|k: int| 0 <= k < before.len() && before[k] == record_lines(rs[i])[j];
        assert((before + more)[k] == before[k]);
    } else {
        assert((before + more)[before.len() + j] == more[j]);
    }
}

proof fn lemma_window_is_there(ws: Seq<SnapshotWindowView>, n: int, i: int, j: int)
    requires
        0 <= i < n <= ws.len(),
        0 <= j < window_lines(ws[i]).len(),
    ensures
        all_window_lines(ws, n).contains(window_lines(ws[i])[j]),
    decreases n,
{
    let before = all_window_lines(ws, n - 1);
    let more = window_lines(ws[n - 1]);
    if i < n - 1 {
        lemma_window_is_there(ws, n - 1, i, j);
        let k = choose|k: int| 0 <= k < before.len() && before[k] == window_lines(ws[i])[j];
        assert((before + more)[k] == before[k]);
    } else {
        assert((before + more)[before.len() + j] == more[j]);
    }
}

proof fn lemma_report_has(s: SnapshotView, line: Seq<char>)
    requires
        all_app_lines(s.aggregated_apps, s.aggregated_apps.len() as int).contains(line)
            || all_record_lines(s.records, s.records.len() as int).contains(line),
    ensures
        snapshot_report(s).contains(line),
{
    let head = head_lines(s).push("- apps ("@ + decimal(s.aggregated_apps.len()) + "):"@);
    let apps = all_app_lines(s.aggregated_apps, s.aggregated_apps.len() as int);
    let middle = (head + apps).push("- records ("@ + decimal(s.records.len()) + "):"@);
    let records = all_record_lines(s.records, s.records.len() as int);
    let all = middle + records;
    assert(snapshot_report(s) == all);
    if apps.contains(line) {
        let k = choose|k: int| 0 <= k < apps.len() && apps[k] == line;
        assert(middle[head.len() + k] == line);
        assert(all[head.len() + k] == line);
    } else {
        let k = choose|k: int| 0 <= k < records.len() && records[k] == line;
        assert(all[middle.len() + k] == line);
    }
}

/// The report of a snapshot misses no application and no window of one: each has its line, with the
/// number, the name and the time in use of the application, and the title of the window.
pub proof fn law_report_shows_every_application(s: SnapshotView, i: int)
    requires
        0 <= i < s.aggregated_apps.len(),
    ensures
        ({
            let a = s.aggregated_apps[i];
            &&& snapshot_report(s).contains(
                "  - app: "@ + a.app_name + " ["@ + signed_decimal(a.pid as int) + "] total="@
                    + a.total_duration_pretty + " ("@ + decimal(a.total_duration_secs as nat)
                    + "s)"@,
            )
            &&& forall|j: int|
                0 <= j < a.windows.len() ==> snapshot_report(s).contains(
                    "      - title: "@ + (#[trigger] a.windows[j]).window_title,
                )
        }),
{
    let a = s.aggregated_apps[i];
    let n = s.aggregated_apps.len() as int;
    lemma_app_is_there(s.aggregated_apps, n, i, 0);
    lemma_report_has(s, app_lines(a)[0]);
    assert forall|j: int| 0 <= j < a.windows.len() implies snapshot_report(s).contains(
        "      - title: "@ + (#[trigger] a.windows[j]).window_title,
    ) by {
        let w = a.windows[j];
        let all = all_window_lines(a.windows, a.windows.len() as int);
        lemma_window_is_there(a.windows, a.windows.len() as int, j, 0);
        let line = window_lines(w)[0];
        let k = choose|k: int| 0 <= k < all.len() && all[k] == line;
        assert(app_lines(a)[2 + k] == line);
        lemma_app_is_there(s.aggregated_apps, n, i, 2 + k);
        lemma_report_has(s, line);
    }
}

/// The report of a snapshot misses no record: each has its line, with its number, its state, its
/// start and its end, and where it had a focus a line with that.
pub proof fn law_report_shows_every_record(s: SnapshotView, i: int)
    requires
        0 <= i < s.records.len(),
    ensures
        ({
            let r = s.records[i];
            let end = if r.end_time is Some {
                r.end_time->0.text()
            } else {
                "-"@
            };
            let start = "  - id="@ + decimal(r.record_id as nat) + " state="@ + state_label(r.state)
                + " start="@ + r.start_time.text() + " end="@ + end;
            &&& exists|k: int|
                0 <= k < snapshot_report(s).len() && begins_with(
                    #[trigger] snapshot_report(s)[k],
                    start,
                )
            &&& r.focus_info is Some ==> exists|k: int|
                0 <= k < snapshot_report(s).len() && begins_with(
                    #[trigger] snapshot_report(s)[k],
                    "    focus: "@ + r.focus_info->0.app_name,
                )
        }),
{
    let r = s.records[i];
    let n = s.records.len() as int;
    let report = snapshot_report(s);
    let end = if r.end_time is Some {
        r.end_time->0.text()
    } else {
        "-"@
    };
    let start = "  - id="@ + decimal(r.record_id as nat) + " state="@ + state_label(r.state)
        + " start="@ + r.start_time.text() + " end="@ + end;
    let head = record_lines(r)[0];
    lemma_record_is_there(s.records, n, i, 0);
    lemma_report_has(s, head);
    let k = choose|k: int| 0 <= k < report.len() && report[k] == head;
    assert(head.take(start.len() as int) =~= start);
    assert(begins_with(report[k], start));
    if r.focus_info is Some {
        let f = r.focus_info->0;
        let line = record_lines(r)[1];
        let first = "    focus: "@ + f.app_name;
        lemma_record_is_there(s.records, n, i, 1);
        lemma_report_has(s, line);
        let m = choose|m: int| 0 <= m < report.len() && report[m] == line;
        assert(line.take(first.len() as int) =~= first);
        assert(begins_with(report[m], first));
    }
}

/// The status says whether the daemon runs, and if it does in which state it is and what has the
/// focus.
pub proof fn law_status_tells_the_state(at: Seq<char>, s: SnapshotView)
    ensures
        status_report(at, Some(s)).contains("  State: "@ + state_label(s.activity_state)),
        s.focus is Some ==> status_report(at, Some(s)).contains(
            "  Focus: "@ + s.focus->0.app_name + " ["@ + signed_decimal(s.focus->0.pid as int)
                + "] - "@ + s.focus->0.window_title,
        ),
        status_report(at, None).contains("Kronical Daemon: Not running"@),
        status_report(at, None).len() == 6,
{
    let head = seq![
        "Kronical Status Snapshot - "@ + at,
        "═════════════════════════════════════════════════════════════"@,
        ""@,
    ];
    let tail = seq![""@, "Tip: Use 'kronictl monitor' for real-time updates"@];
    let status = running_status(s);
    assert(status[1] == "  State: "@ + state_label(s.activity_state));
    lemma_part_is_there(head, status, tail, 1);
    if s.focus is Some {
        let line = "  Focus: "@ + s.focus->0.app_name + " ["@ + signed_decimal(
            s.focus->0.pid as int,
        ) + "] - "@ + s.focus->0.window_title;
        assert(status[3] =~= line);
        lemma_part_is_there(head, status, tail, 3);
    }
    let none = seq!["Kronical Daemon: Not running"@];
    lemma_part_is_there(head, none, tail, 0);
}

/// The columns that the first `k` characters take.
pub open spec fn columns_of(columns: Seq<int>, k: int) -> int
    decreases k,
{
    if k <= 0 {
        0
    } else {
        columns_of(columns, k - 1) + columns[k - 1]
    }
}

proof fn lemma_columns_skip(columns: Seq<int>, k: int)
    requires
        0 <= k < columns.len(),
    ensures
        columns_of(columns, k + 1) == columns[0] + columns_of(columns.skip(1), k),
    decreases k,
{
    if k > 0 {
        lemma_columns_skip(columns, k - 1);
    } else {
        assert(columns_of(columns, 0) == 0);
        assert(columns_of(columns, 1) == columns_of(columns, 0) + columns[0]);
    }
}

/// A title is cut only where it does not fit: it is shown whole, or up to the first character that
/// would go beyond the columns, with an ellipsis in its place.
pub proof fn law_title_is_cut_where_it_does_not_fit(
    s: Seq<char>,
    columns: Seq<int>,
    used: int,
    budget: int,
) -> (k: int)
    requires
        columns.len() == s.len(),
    ensures
        0 <= k <= s.len(),
        forall|i: int| 0 < i <= k ==> used + #[trigger] columns_of(columns, i) <= budget,
        k == s.len() ==> cut(s, columns, used, budget) == s,
        k < s.len() ==> cut(s, columns, used, budget) == s.take(k).push('…') && used + columns_of(
            columns,
            k + 1,
        ) > budget,
    decreases s.len(),
{
    if s.len() == 0 {
        assert(cut(s, columns, used, budget) =~= s);
        0
    } else if used + columns[0] > budget {
        assert(columns_of(columns, 0) == 0);
        assert(columns_of(columns, 1) == columns_of(columns, 0) + columns[0]);
        assert(s.take(0).push('…') =~= seq!['…']);
        0
    } else {
        let rest = s.skip(1);
        let cs = columns.skip(1);
        let k = law_title_is_cut_where_it_does_not_fit(rest, cs, used + columns[0], budget);
        assert forall|i: int| 0 < i <= k + 1 implies used + #[trigger] columns_of(columns, i)
            <= budget by {
            lemma_columns_skip(columns, i - 1);
            if i > 1 {
                assert(used + columns[0] + columns_of(cs, i - 1) <= budget);
            } else {
                assert(columns_of(cs, 0) == 0);
            }
        }
        if k < rest.len() {
            lemma_columns_skip(columns, k + 1);
            assert(seq![s[0]] + rest.take(k).push('…') =~= s.take(k + 1).push('…'));
        } else {
            assert(seq![s[0]] + rest =~= s);
        }
        k + 1
    }
}

/// The details miss no message about the daemon's health, and end with them, in order.
pub proof fn law_details_show_all_messages(
    s: SnapshotView,
    last_at: Seq<char>,
    recent_at: Seq<Seq<char>>,
    i: int,
)
    requires
        0 <= i < s.health.len(),
    ensures
        ({
            let panel = details_panel(s, last_at, recent_at);
            let line = panel[panel.len() - s.health.len() + i];
            &&& line.len() == 1
            &&& line[0].text == "- "@ + s.health[i]
        }),
{
    let lines = health_lines(s.health);
    assert(lines[1 + i] == plain_line("- "@ + s.health[i]));
    let panel = details_panel(s, last_at, recent_at);
    assert(lines.len() == s.health.len() + 1);
    assert(panel[panel.len() - lines.len() + 1 + i] == lines[1 + i]);
}

/// How many lines applications and their windows take: of at most eight applications one each, and
/// one for each of at most five windows of theirs.
pub open spec fn lines_taken(apps: Seq<SnapshotAppView>, n: int) -> int
    decreases n,
{
    if n <= 0 {
        0
    } else {
        lines_taken(apps, n - 1) + 1 + (if apps[n - 1].windows.len() < 5 {
            apps[n - 1].windows.len() as int
        } else {
            5
        })
    }
}

proof fn lemma_lines_taken(
    apps: Seq<SnapshotAppView>,
    n: int,
    width: int,
    since: Seq<Seq<Seq<char>>>,
)
    requires
        0 <= n <= apps.len(),
    ensures
        app_blocks(apps, n, width, since).len() == lines_taken(apps, n),
    decreases n,
{
    if n > 0 {
        lemma_lines_taken(apps, n - 1, width, since);
    }
}

proof fn lemma_block_is_there(
    apps: Seq<SnapshotAppView>,
    n: int,
    width: int,
    since: Seq<Seq<Seq<char>>>,
    i: int,
)
    requires
        0 <= i < n <= apps.len(),
    ensures
        0 <= lines_taken(apps, i) < app_blocks(apps, n, width, since).len(),
        app_blocks(apps, n, width, since)[lines_taken(apps, i)] == app_block(
            apps[i],
            width,
            since[i],
        )[0],
    decreases n,
{
    let before = app_blocks(apps, n - 1, width, since);
    let more = app_block(apps[n - 1], width, since[n - 1]);
    lemma_lines_taken(apps, n - 1, width, since);
    lemma_lines_taken(apps, i, width, since);
    if i < n - 1 {
        lemma_block_is_there(apps, n - 1, width, since, i);
        assert((before + more)[lines_taken(apps, i)] == before[lines_taken(apps, i)]);
    } else {
        assert((before + more)[before.len() as int] == more[0]);
    }
}

/// The panel of applications shows the first eight, in order, each with its name and its time in use
/// and at most five of its windows, and nothing but the line about the period above them.
pub proof fn law_panel_shows_the_first_applications(
    apps: Seq<SnapshotAppView>,
    period: Option<Seq<char>>,
    width: int,
    since: Seq<Seq<Seq<char>>>,
    i: int,
)
    requires
        apps.len() > 0,
        0 <= i < apps.len(),
        i < 8,
    ensures
        ({
            let panel = apps_panel(apps, period, width, since);
            let above = if period is Some {
                1int
            } else {
                0
            };
            let shown = if apps.len() < 8 {
                apps.len() as int
            } else {
                8
            };
            let line = panel[above + lines_taken(apps, i)];
            &&& panel.len() == above + lines_taken(apps, shown)
            &&& line.len() == 5
            &&& line[2].text == apps[i].app_name
            &&& line[4].text == apps[i].total_duration_pretty
        }),
{
    let shown = if apps.len() < 8 {
        apps.len() as int
    } else {
        8
    };
    let above: Seq<Seq<PieceView>> = match period {
        Some(line) => seq![seq![toned(line, Tone::Gray)]],
        None => Seq::empty(),
    };
    let body = app_blocks(apps, shown, width, since);
    let panel = apps_panel(apps, period, width, since);
    lemma_lines_taken(apps, shown, width, since);
    lemma_block_is_there(apps, shown, width, since, i);
    assert(panel == above + body);
    assert(panel[above.len() + lines_taken(apps, i)] == body[lines_taken(apps, i)]);
}

} // verus!
