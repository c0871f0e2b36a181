//! Snapshots as lines of text.

use crate::events::FocusView;
use crate::monitor::{
    counts_text, focus_text, run_text, text_of_counts, text_of_focus, text_of_run, text_of_time,
    time_or_blank,
};
use crate::numbers::{decimal, number_text, push_number, push_signed, signed_decimal};
use crate::records::{ActivityRecord, RecordView};
use crate::snapshot::{
    ConfigSummary, Snapshot, SnapshotApp, SnapshotAppView, SnapshotView, SnapshotWindow,
    SnapshotWindowView,
};
use crate::storage::labels::{label_of_state, state_label};
use crate::text::push_text;
use crate::views::{group_views, lemma_take_all, lemma_take_succ, lemma_views_push, views};
use vstd::prelude::*;

verus! {

/// The texts, with `sep` between them.
pub open spec fn joined(parts: Seq<Seq<char>>, sep: Seq<char>) -> Seq<char>
    decreases parts.len(),
{
    if parts.len() == 0 {
        Seq::empty()
    } else if parts.len() == 1 {
        parts[0]
    } else {
        joined(parts.drop_last(), sep) + sep + parts.last()
    }
}

/// The texts, with `sep` between them.
pub fn join(parts: &Vec<String>, sep: &str) -> (r: String)
    ensures
        r@ == joined(views(parts@), sep@),
{
    let ghost all = views(parts@);
    if parts.len() == 0 {
        return String::new();
    }
    let mut out = parts[0].clone();
    let mut i: usize = 1;
    assert(all.take(1).len() == 1);
    while i < parts.len()
        invariant
            all == views(parts@),
            1 <= i <= parts.len(),
            out@ == joined(all.take(i as int), sep@),
        decreases parts.len() - i,
    {
        proof {
            lemma_take_succ(all, i as int);
        }
        push_text(&mut out, sep);
        push_text(&mut out, parts[i].as_str());
        i += 1;
    }
    proof {
        lemma_take_all(all);
    }
    out
}

/// A cadence in words.
pub open spec fn cadence_text(s: SnapshotView) -> Seq<char> {
    decimal(s.cadence_ms as nat) + "ms ("@ + s.cadence_reason + ")"@
}

fn text_of_cadence(s: &Snapshot) -> (r: String)
    ensures
        r@ == cadence_text(s@),
{
    let mut t = number_text(s.cadence_ms as u64);
    push_text(&mut t, "ms (");
    push_text(&mut t, s.cadence_reason.as_str());
    push_text(&mut t, ")");
    t
}

fn labelled(label: &str, text: &str) -> (r: String)
    ensures
        r@ == label@ + text@,
{
    let mut t = label.to_string();
    push_text(&mut t, text);
    t
}

/// The storage in words.
pub open spec fn storage_text(s: SnapshotView, flush: Seq<char>) -> Seq<char> {
    "backlog="@ + decimal(s.storage.backlog_count as nat) + flush + time_or_blank(
        s.storage.last_flush_at,
    )
}

fn text_of_storage(s: &Snapshot, flush: &str) -> (r: String)
    ensures
        r@ == storage_text(s@, flush@),
{
    let mut t = "backlog=".to_string();
    push_number(&mut t, s.storage.backlog_count);
    push_text(&mut t, flush);
    push_text(&mut t, text_of_time(&s.storage.last_flush_at).as_str());
    t
}

/// The status of a running daemon.
pub open spec fn running_status(s: SnapshotView) -> Seq<Seq<char>> {
    let l = seq![
        "Kronical Daemon:"@,
        "  State: "@ + state_label(s.activity_state),
        "  Run: "@ + run_text(s.run_id),
    ];
    let l = if s.focus is Some {
        l.push("  Focus: "@ + focus_text(s))
    } else {
        l
    };
    let l = l.push("  Cadence: "@ + cadence_text(s)).push("  Counts: "@ + counts_text(s));
    let l = match s.next_timeout {
        Some(t) => l.push("  Next timeout: "@ + t.shown()),
        None => l,
    };
    l.push("  Storage: "@ + storage_text(s, " last_flush="@))
}

/// The status, at the local time `at`: of the daemon if it answered.
pub open spec fn status_report(at: Seq<char>, s: Option<SnapshotView>) -> Seq<Seq<char>> {
    seq![
        "Kronical Status Snapshot - "@ + at,
        "═════════════════════════════════════════════════════════════"@,
        ""@,
    ] + (match s {
        Some(snap) => running_status(snap),
        None => seq!["Kronical Daemon: Not running"@],
    }) + seq![""@, "Tip: Use 'kronictl monitor' for real-time updates"@]
}

fn push_running_status(out: &mut Vec<String>, s: &Snapshot)
    ensures
        views(final(out)@) == views(old(out)@) + running_status(s@),
{
    broadcast use group_views;

    let ghost before = views(out@);
    let mut l: Vec<String> = Vec::new();
    l.push("Kronical Daemon:".to_string());
    l.push(labelled("  State: ", label_of_state(s.activity_state)));
    l.push(labelled("  Run: ", text_of_run(&s.run_id).as_str()));
    assert(views(l@) =~= seq![
        "Kronical Daemon:"@,
        "  State: "@ + state_label(s@.activity_state),
        "  Run: "@ + run_text(s@.run_id),
    ]);
    if s.focus.is_some() {
        l.push(labelled("  Focus: ", text_of_focus(s).as_str()));
    }
    l.push(labelled("  Cadence: ", text_of_cadence(s).as_str()));
    l.push(labelled("  Counts: ", text_of_counts(s).as_str()));
    match &s.next_timeout {
        Some(t) => {
            l.push(labelled("  Next timeout: ", t.show().as_str()));
        },
        None => {},
    }
    l.push(labelled("  Storage: ", text_of_storage(s, " last_flush=").as_str()));
    assert(views(l@) == running_status(s@));
    let ghost more = views(l@);
    out.append(&mut l);
    assert(views(out@) =~= before + more);
}

/// The status, at the local time `at`: of the daemon if it answered.
pub fn status_lines(at: &str, s: Option<&Snapshot>) -> (r: Vec<String>)
    ensures
        views(r@) == status_report(
            at@,
            match s {
                Some(snap) => Some(snap@),
                None => None,
            },
        ),
{
    broadcast use group_views;

    let mut out: Vec<String> = Vec::new();
    out.push(labelled("Kronical Status Snapshot - ", at));
    out.push("═════════════════════════════════════════════════════════════".to_string());
    out.push("".to_string());
    let ghost head = views(out@);
    match s {
        Some(snap) => {
            push_running_status(&mut out, snap);
        },
        None => {
            out.push("Kronical Daemon: Not running".to_string());
            assert(views(out@) =~= head + seq!["Kronical Daemon: Not running"@]);
        },
    }
    let ghost middle = views(out@);
    out.push("".to_string());
    out.push("Tip: Use 'kronictl monitor' for real-time updates".to_string());
    assert(views(out@) =~= middle + seq![
        ""@,
        "Tip: Use 'kronictl monitor' for real-time updates"@,
    ]);
    assert(head =~= seq![
        "Kronical Status Snapshot - "@ + at@,
        "═════════════════════════════════════════════════════════════"@,
        ""@,
    ]);
    out
}

/// The snapshot in one line.
pub open spec fn snapshot_line(s: SnapshotView) -> Seq<char> {
    "seq="@ + decimal(s.seq as nat) + " run="@ + run_text(s.run_id) + " state="@ + state_label(
        s.activity_state,
    ) + " focus="@ + title_text(s) + " cad="@ + decimal(s.cadence_ms as nat) + "ms backlog="@
        + decimal(s.storage.backlog_count as nat)
}

/// The snapshot in one short line.
pub open spec fn short_snapshot_line(s: SnapshotView) -> Seq<char> {
    "seq="@ + decimal(s.seq as nat) + " state="@ + state_label(s.activity_state) + " focus="@
        + title_text(s)
}

/// The title of the focused window, or a dash.
pub open spec fn title_text(s: SnapshotView) -> Seq<char> {
    match s.focus {
        Some(f) => f.window_title,
        None => "-"@,
    }
}

fn text_of_title(s: &Snapshot) -> (r: String)
    ensures
        r@ == title_text(s@),
{
    match &s.focus {
        Some(f) => (*f.window_title).clone(),
        None => "-".to_string(),
    }
}

/// The snapshot in one line.
pub fn snapshot_in_line(s: &Snapshot) -> (r: String)
    ensures
        r@ == snapshot_line(s@),
{
    let mut t = "seq=".to_string();
    push_number(&mut t, s.seq);
    push_text(&mut t, " run=");
    push_text(&mut t, text_of_run(&s.run_id).as_str());
    push_text(&mut t, " state=");
    push_text(&mut t, label_of_state(s.activity_state));
    push_text(&mut t, " focus=");
    push_text(&mut t, text_of_title(s).as_str());
    push_text(&mut t, " cad=");
    push_number(&mut t, s.cadence_ms as u64);
    push_text(&mut t, "ms backlog=");
    push_number(&mut t, s.storage.backlog_count);
    t
}

/// The snapshot in one short line.
pub fn snapshot_in_short_line(s: &Snapshot) -> (r: String)
    ensures
        r@ == short_snapshot_line(s@),
{
    let mut t = "seq=".to_string();
    push_number(&mut t, s.seq);
    push_text(&mut t, " state=");
    push_text(&mut t, label_of_state(s.activity_state));
    push_text(&mut t, " focus=");
    push_text(&mut t, text_of_title(s).as_str());
    t
}

/// The configuration in words.
pub open spec fn config_text(c: ConfigSummary) -> Seq<char> {
    "active="@ + decimal(c.active_grace_secs as nat) + "s idle="@ + decimal(
        c.idle_threshold_secs as nat,
    ) + "s retention="@ + decimal(c.retention_minutes as nat) + "m eph_max="@ + decimal(
        c.ephemeral_max_duration_secs as nat,
    ) + "s eph_min="@ + decimal(c.ephemeral_min_distinct_ids as nat) + " eph_app_max="@ + decimal(
        c.ephemeral_app_max_duration_secs as nat,
    ) + "s eph_app_min_procs="@ + decimal(c.ephemeral_app_min_distinct_procs as nat)
}

fn text_of_config(c: &ConfigSummary) -> (r: String)
    ensures
        r@ == config_text(*c),
{
    let mut t = "active=".to_string();
    push_number(&mut t, c.active_grace_secs);
    push_text(&mut t, "s idle=");
    push_number(&mut t, c.idle_threshold_secs);
    push_text(&mut t, "s retention=");
    push_number(&mut t, c.retention_minutes);
    push_text(&mut t, "m eph_max=");
    push_number(&mut t, c.ephemeral_max_duration_secs);
    push_text(&mut t, "s eph_min=");
    push_number(&mut t, c.ephemeral_min_distinct_ids as u64);
    push_text(&mut t, " eph_app_max=");
    push_number(&mut t, c.ephemeral_app_max_duration_secs);
    push_text(&mut t, "s eph_app_min_procs=");
    push_number(&mut t, c.ephemeral_app_min_distinct_procs as u64);
    t
}

/// The first lines of a snapshot.
pub open spec fn head_lines(s: SnapshotView) -> Seq<Seq<char>> {
    let l = seq![
        "Kronical Snapshot"@,
        "- seq: "@ + decimal(s.seq as nat),
        "- monoNs: "@ + decimal(s.mono_ns as nat),
        "- runId: "@ + run_text(s.run_id),
        "- state: "@ + state_label(s.activity_state),
        "- focus: "@ + focus_text(s),
    ];
    let l = match s.last_transition {
        Some(t) => l.push(
            "- lastTransition: "@ + state_label(t.from) + " -> "@ + state_label(t.to) + " at "@
                + t.at.shown(),
        ),
        None => l,
    };
    let l = l.push("- cadence: "@ + cadence_text(s));
    let l = match s.next_timeout {
        Some(t) => l.push("- nextTimeout: "@ + t.shown()),
        None => l,
    };
    let l = l.push("- counts: "@ + counts_text(s)).push(
        "- storage: "@ + storage_text(s, " lastFlushAt="@),
    ).push("- config: "@ + config_text(s.config));
    if s.health.len() > 0 {
        l.push("- health: "@ + joined(s.health, ", "@))
    } else {
        l
    }
}

fn push_head_lines(out: &mut Vec<String>, s: &Snapshot)
    requires
        old(out)@.len() == 0,
    ensures
        views(final(out)@) == head_lines(s@),
{
    broadcast use lemma_views_push;

    out.push("Kronical Snapshot".to_string());
    out.push(labelled("- seq: ", number_text(s.seq).as_str()));
    out.push(labelled("- monoNs: ", number_text(s.mono_ns).as_str()));
    out.push(labelled("- runId: ", text_of_run(&s.run_id).as_str()));
    out.push(labelled("- state: ", label_of_state(s.activity_state)));
    out.push(labelled("- focus: ", text_of_focus(s).as_str()));
    assert(views(out@) =~= seq![
        "Kronical Snapshot"@,
        "- seq: "@ + decimal(s.seq as nat),
        "- monoNs: "@ + decimal(s.mono_ns as nat),
        "- runId: "@ + run_text(s@.run_id),
        "- state: "@ + state_label(s@.activity_state),
        "- focus: "@ + focus_text(s@),
    ]);
    match &s.last_transition {
        Some(t) => {
            let mut line = "- lastTransition: ".to_string();
            push_text(&mut line, label_of_state(t.from));
            push_text(&mut line, " -> ");
            push_text(&mut line, label_of_state(t.to));
            push_text(&mut line, " at ");
            push_text(&mut line, t.at.show().as_str());
            out.push(line);
        },
        None => {},
    }
    out.push(labelled("- cadence: ", text_of_cadence(s).as_str()));
    match &s.next_timeout {
        Some(t) => {
            out.push(labelled("- nextTimeout: ", t.show().as_str()));
        },
        None => {},
    }
    out.push(labelled("- counts: ", text_of_counts(s).as_str()));
    out.push(labelled("- storage: ", text_of_storage(s, " lastFlushAt=").as_str()));
    out.push(labelled("- config: ", text_of_config(&s.config).as_str()));
    if s.health.len() > 0 {
        out.push(labelled("- health: ", join(&s.health, ", ").as_str()));
    }
}

/// The two lines of a window.
pub open spec fn window_lines(w: SnapshotWindowView) -> Seq<Seq<char>> {
    seq![
        "      - title: "@ + w.window_title,
        "        id: "@ + w.window_id + " first_seen: "@ + w.first_seen.shown() + " last_seen: "@
            + w.last_seen.shown() + " dur: "@ + decimal(w.duration_seconds as nat) + "s"@ + (
        if w.is_group {
            " (group)"@
        } else {
            ""@
        }),
    ]
}

/// The lines of the first `n` windows.
pub open spec fn all_window_lines(ws: Seq<SnapshotWindowView>, n: int) -> Seq<Seq<char>>
    decreases n,
{
    if n <= 0 {
        Seq::empty()
    } else {
        all_window_lines(ws, n - 1) + window_lines(ws[n - 1])
    }
}

/// The lines of an application.
pub open spec fn app_lines(a: SnapshotAppView) -> Seq<Seq<char>> {
    let head = "  - app: "@ + a.app_name + " ["@ + signed_decimal(a.pid as int) + "] total="@
        + a.total_duration_pretty + " ("@ + decimal(a.total_duration_secs as nat) + "s)"@;
    if a.windows.len() > 0 {
        seq![head, "    windows ("@ + decimal(a.windows.len()) + "):"@] + all_window_lines(
            a.windows,
            a.windows.len() as int,
        )
    } else {
        seq![head, "    windows: -"@]
    }
}

/// The lines of the first `n` applications.
pub open spec fn all_app_lines(apps: Seq<SnapshotAppView>, n: int) -> Seq<Seq<char>>
    decreases n,
{
    if n <= 0 {
        Seq::empty()
    } else {
        all_app_lines(apps, n - 1) + app_lines(apps[n - 1])
    }
}

/// The end of a record, or a dash.
pub open spec fn end_text(r: RecordView) -> Seq<char> {
    match r.end_time {
        Some(t) => t.text(),
        None => "-"@,
    }
}

/// The whole seconds of a record, or a dash; a record that ends before it starts has none.
pub open spec fn secs_text(r: RecordView) -> Seq<char> {
    match r.end_time {
        Some(t) => decimal(
            (if t.secs_since(r.start_time) > 0 {
                t.secs_since(r.start_time)
            } else {
                0
            }) as nat,
        ),
        None => "-"@,
    }
}

/// The focus of a record in words.
pub open spec fn record_focus_text(f: FocusView) -> Seq<char> {
    f.app_name + " ["@ + signed_decimal(f.pid as int) + "] - "@ + f.window_title + " (wid="@
        + decimal(f.window_id as nat) + ")"@
}

/// The lines of a record.
pub open spec fn record_lines(r: RecordView) -> Seq<Seq<char>> {
    let head = "  - id="@ + decimal(r.record_id as nat) + " state="@ + state_label(r.state)
        + " start="@ + r.start_time.text() + " end="@ + end_text(r) + " dur="@ + secs_text(r)
        + "s events="@ + decimal(r.event_count as nat) + " triggers="@ + decimal(
        r.triggering_events.len(),
    );
    match r.focus_info {
        Some(f) => seq![head, "    focus: "@ + record_focus_text(f)],
        None => seq![head],
    }
}

/// The lines of the first `n` records.
pub open spec fn all_record_lines(rs: Seq<RecordView>, n: int) -> Seq<Seq<char>>
    decreases n,
{
    if n <= 0 {
        Seq::empty()
    } else {
        all_record_lines(rs, n - 1) + record_lines(rs[n - 1])
    }
}

/// The snapshot in full.
pub open spec fn snapshot_report(s: SnapshotView) -> Seq<Seq<char>> {
    (head_lines(s).push("- apps ("@ + decimal(s.aggregated_apps.len()) + "):"@) + all_app_lines(
        s.aggregated_apps,
        s.aggregated_apps.len() as int,
    )).push("- records ("@ + decimal(s.records.len()) + "):"@) + all_record_lines(
        s.records,
        s.records.len() as int,
    )
}

fn counted(label: &str, n: usize) -> (r: String)
    ensures
        r@ == label@ + decimal(n as nat) + "):"@,
{
    let mut t = label.to_string();
    push_number(&mut t, n as u64);
    push_text(&mut t, "):");
    t
}

fn push_window_lines(out: &mut Vec<String>, w: &SnapshotWindow)
    ensures
        views(final(out)@) == views(old(out)@) + window_lines(w@),
{
    broadcast use lemma_views_push;

    let ghost before = views(out@);
    let mut t = "        id: ".to_string();
    push_text(&mut t, w.window_id.as_str());
    push_text(&mut t, " first_seen: ");
    push_text(&mut t, w.first_seen.show().as_str());
    push_text(&mut t, " last_seen: ");
    push_text(&mut t, w.last_seen.show().as_str());
    push_text(&mut t, " dur: ");
    push_number(&mut t, w.duration_seconds);
    push_text(&mut t, "s");
    push_text(
        &mut t,
        if w.is_group {
            " (group)"
        } else {
            ""
        },
    );
    out.push(labelled("      - title: ", w.window_title.as_str()));
    out.push(t);
    assert(views(out@) =~= before + window_lines(w@));
}

fn push_app_lines(out: &mut Vec<String>, a: &SnapshotApp)
    ensures
        views(final(out)@) == views(old(out)@) + app_lines(a@),
{
    broadcast use lemma_views_push;

    let ghost before = views(out@);
    let mut head = "  - app: ".to_string();
    push_text(&mut head, a.app_name.as_str());
    push_text(&mut head, " [");
    push_signed(&mut head, a.pid as i64);
    push_text(&mut head, "] total=");
    push_text(&mut head, a.total_duration_pretty.as_str());
    push_text(&mut head, " (");
    push_number(&mut head, a.total_duration_secs);
    push_text(&mut head, "s)");
    let ghost first = head@;
    out.push(head);
    if a.windows.len() > 0 {
        let second = counted("    windows (", a.windows.len());
        let ghost top = seq![first, second@];
        out.push(second);
        let mut i: usize = 0;
        assert(views(out@) =~= before + (top + all_window_lines(a@.windows, 0)));
        while i < a.windows.len()
            invariant
                i <= a.windows.len(),
                views(out@) == before + (top + all_window_lines(a@.windows, i as int)),
            decreases a.windows.len() - i,
        {
            let ghost shown = all_window_lines(a@.windows, i as int);
            assert(a@.windows[i as int] == a.windows@[i as int]@);
            push_window_lines(out, &a.windows[i]);
            i += 1;
            assert(before + (top + shown) + window_lines(a@.windows[i - 1]) =~= before + (top
                + all_window_lines(a@.windows, i as int)));
        }
    } else {
        out.push("    windows: -".to_string());
        assert(views(out@) =~= before + app_lines(a@));
    }
}

fn push_record_lines(out: &mut Vec<String>, r: &ActivityRecord)
    ensures
        views(final(out)@) == views(old(out)@) + record_lines(r@),
{
    broadcast use lemma_views_push;

    let ghost before = views(out@);
    let (end, secs) = match &r.end_time {
        Some(t) => {
            let secs: i64 = t.num_seconds_since(&r.start_time);
            let secs: u64 = if secs > 0 {
                secs as u64
            } else {
                0
            };
            (t.to_rfc3339(), number_text(secs))
        },
        None => ("-".to_string(), "-".to_string()),
    };
    let mut head = "  - id=".to_string();
    push_number(&mut head, r.record_id);
    push_text(&mut head, " state=");
    push_text(&mut head, label_of_state(r.state));
    push_text(&mut head, " start=");
    push_text(&mut head, r.start_time.to_rfc3339().as_str());
    push_text(&mut head, " end=");
    push_text(&mut head, end.as_str());
    push_text(&mut head, " dur=");
    push_text(&mut head, secs.as_str());
    push_text(&mut head, "s events=");
    push_number(&mut head, r.event_count as u64);
    push_text(&mut head, " triggers=");
    push_number(&mut head, r.triggering_events.len() as u64);
    out.push(head);
    match &r.focus_info {
        Some(f) => {
            let mut t = (*f.app_name).clone();
            push_text(&mut t, " [");
            push_signed(&mut t, f.pid as i64);
            push_text(&mut t, "] - ");
            push_text(&mut t, f.window_title.as_str());
            push_text(&mut t, " (wid=");
            push_number(&mut t, f.window_id as u64);
            push_text(&mut t, ")");
            out.push(labelled("    focus: ", t.as_str()));
        },
        None => {},
    }
    assert(views(out@) =~= before + record_lines(r@));
}

/// The snapshot in full.
pub fn snapshot_lines(s: &Snapshot) -> (r: Vec<String>)
    ensures
        views(r@) == snapshot_report(s@),
{
    broadcast use lemma_views_push;

    let mut out: Vec<String> = Vec::new();
    push_head_lines(&mut out, s);
    out.push(counted("- apps (", s.aggregated_apps.len()));
    let ghost top = views(out@);
    let mut i: usize = 0;
    assert(views(out@) =~= top + all_app_lines(s@.aggregated_apps, 0));
    while i < s.aggregated_apps.len()
        invariant
            i <= s.aggregated_apps.len(),
            views(out@) == top + all_app_lines(s@.aggregated_apps, i as int),
        decreases s.aggregated_apps.len() - i,
    {
        let ghost shown = all_app_lines(s@.aggregated_apps, i as int);
        assert(s@.aggregated_apps[i as int] == s.aggregated_apps@[i as int]@);
        push_app_lines(&mut out, &s.aggregated_apps[i]);
        i += 1;
        assert(top + shown + app_lines(s@.aggregated_apps[i - 1]) =~= top + all_app_lines(
            s@.aggregated_apps,
            i as int,
        ));
    }
    out.push(counted("- records (", s.records.len()));
    let ghost middle = views(out@);
    let mut k: usize = 0;
    assert(views(out@) =~= middle + all_record_lines(s@.records, 0));
    while k < s.records.len()
        invariant
            k <= s.records.len(),
            views(out@) == middle + all_record_lines(s@.records, k as int),
        decreases s.records.len() - k,
    {
        let ghost shown = all_record_lines(s@.records, k as int);
        assert(s@.records[k as int] == s.records@[k as int]@);
        push_record_lines(&mut out, &s.records[k]);
        k += 1;
        assert(middle + shown + record_lines(s@.records[k - 1]) =~= middle + all_record_lines(
            s@.records,
            k as int,
        ));
    }
    out
}

} // verus!
