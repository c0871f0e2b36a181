//! The log files themselves: how they are ordered, listed, shown and searched.

use crate::grouping::kept;
use crate::log_cli::{
    human_size, neg_index, parse_selection, selected, size_text, SelectionError, SelectionErrorView,
};
use crate::numbers::{decimal, push_number, push_signed, signed_decimal, signed_text};
use crate::path_order::{
    comes_before, law_paths_are_ordered, law_paths_lie_between, path_before, path_parts,
};
use crate::text::{chars_of, push_char, push_text};
use crate::views::{lemma_take_all, lemma_take_succ, lemma_views_push, views};
use vstd::prelude::*;

verus! {

/// A log file: its place in the list, its path, when it was last changed (in nanoseconds, and as
/// a local time), and its size in bytes.
#[derive(Debug)]
pub struct LogEntry {
    pub index: usize,
    pub path: String,
    pub modified: i128,
    pub modified_text: String,
    pub size: u64,
}

#[verifier::ext_equal]
pub struct LogEntryView {
    pub index: int,
    pub path: Seq<char>,
    pub modified: int,
    pub modified_text: Seq<char>,
    pub size: int,
}

impl View for LogEntry {
    type V = LogEntryView;

    open spec fn view(&self) -> LogEntryView {
        LogEntryView {
            index: self.index as int,
            path: self.path@,
            modified: self.modified as int,
            modified_text: self.modified_text@,
            size: self.size as int,
        }
    }
}

impl Clone for LogEntry {
    fn clone(&self) -> (res: Self)
        ensures
            res@ == self@,
    {
        LogEntry {
            index: self.index,
            path: self.path.clone(),
            modified: self.modified,
            modified_text: self.modified_text.clone(),
            size: self.size,
        }
    }
}

/// The first file was changed before the second, or at the same time and its path comes first.
pub open spec fn entry_before(a: LogEntryView, b: LogEntryView) -> bool {
    a.modified < b.modified || a.modified == b.modified && path_before(a.path, b.path)
}

/// How many files at the front come before the file.
pub open spec fn place(s: Seq<LogEntryView>, e: LogEntryView) -> int
    decreases s.len(),
{
    if s.len() == 0 || !entry_before(s[0], e) {
        0
    } else {
        1 + place(s.drop_first(), e)
    }
}

/// The files from the one changed first to the one changed last; of files changed at the same
/// time the one whose path comes first stands first.
pub open spec fn by_change(s: Seq<LogEntryView>) -> Seq<LogEntryView>
    decreases s.len(),
{
    if s.len() == 0 {
        Seq::empty()
    } else {
        let rest = by_change(s.drop_first());
        rest.insert(place(rest, s[0]), s[0])
    }
}

/// The files numbered by their places.
pub open spec fn numbered(s: Seq<LogEntryView>) -> Seq<LogEntryView> {
    Seq::new(s.len(), |i: int| LogEntryView { index: i, ..s[i] })
}

proof fn lemma_place_is(s: Seq<LogEntryView>, e: LogEntryView, n: int)
    requires
        0 <= n <= s.len(),
        forall|i: int| 0 <= i < n ==> entry_before(#[trigger] s[i], e),
        n < s.len() ==> !entry_before(s[n], e),
    ensures
        place(s, e) == n,
    decreases s.len(),
{
    if n > 0 {
        assert(entry_before(s[0], e));
        let r = s.drop_first();
        assert forall|i: int| 0 <= i < n - 1 implies entry_before(#[trigger] r[i], e) by {
            assert(r[i] == s[i + 1]);
        }
        lemma_place_is(r, e, n - 1);
    }
}

proof fn lemma_place_splits(s: Seq<LogEntryView>, e: LogEntryView)
    ensures
        0 <= place(s, e) <= s.len(),
        forall|i: int| 0 <= i < place(s, e) ==> entry_before(#[trigger] s[i], e),
        place(s, e) < s.len() ==> !entry_before(s[place(s, e)], e),
    decreases s.len(),
{
    if s.len() > 0 && entry_before(s[0], e) {
        let r = s.drop_first();
        lemma_place_splits(r, e);
        assert forall|i: int| 0 <= i < place(s, e) implies entry_before(#[trigger] s[i], e) by {
            if i > 0 {
                assert(r[i - 1] == s[i]);
            }
        }
    }
}

/// Of two files that differ in when they were changed or in their paths exactly one comes before
/// the other, and no file comes before itself.
pub proof fn law_files_have_an_order(a: LogEntryView, b: LogEntryView)
    ensures
        (a.modified == b.modified && path_parts(a.path) == path_parts(b.path)) || entry_before(
            a,
            b,
        ) || entry_before(b, a),
        !(entry_before(a, b) && entry_before(b, a)),
{
    law_paths_are_ordered(a.path, b.path);
}

proof fn lemma_entries_between(a: LogEntryView, b: LogEntryView, c: LogEntryView)
    requires
        entry_before(a, c),
    ensures
        entry_before(a, b) || entry_before(b, c),
{
    if a.modified == c.modified && a.modified == b.modified {
        law_paths_lie_between(a.path, b.path, c.path);
    }
}

/// Ordering the files loses none and adds none, and a file that was changed earlier, or at the
/// same time and has the smaller path, never stands behind the other.
pub proof fn law_files_come_in_order(s: Seq<LogEntryView>)
    ensures
        by_change(s).to_multiset() == s.to_multiset(),
        by_change(s).len() == s.len(),
        forall|i: int, j: int|
            0 <= i < j < s.len() ==> !entry_before(
                #[trigger] by_change(s)[j],
                #[trigger] by_change(s)[i],
            ),
    decreases s.len(),
{
    broadcast use vstd::seq_lib::group_to_multiset_ensures;

    if s.len() == 0 {
        assert(by_change(s) =~= s);
    } else {
        let tail = s.drop_first();
        let rest = by_change(tail);
        law_files_come_in_order(tail);
        let e = s[0];
        let n = place(rest, e);
        lemma_place_splits(rest, e);
        let r = rest.insert(n, e);
        assert(s.remove(0) =~= tail);
        assert(r.remove(n) =~= rest);
        assert(s.contains(s[0]) && r.contains(r[n]));
        assert(s.to_multiset() =~= s.to_multiset().remove(s[0]).insert(s[0]));
        assert(r.to_multiset() =~= r.to_multiset().remove(s[0]).insert(s[0]));
        assert(r.to_multiset() =~= s.to_multiset());
        assert forall|i: int, j: int| 0 <= i < j < s.len() implies !entry_before(
            #[trigger] r[j],
            #[trigger] r[i],
        ) by {
            if i == n {
                assert(r[j] == rest[j - 1]);
                if j - 1 > n {
                    assert(!entry_before(rest[j - 1], rest[n]));
                    if entry_before(rest[j - 1], e) {
                        lemma_entries_between(rest[j - 1], rest[n], e);
                    }
                }
            } else if j == n {
                assert(r[i] == rest[i]);
                law_files_have_an_order(rest[i], e);
            } else {
                let a = if i < n {
                    i
                } else {
                    i - 1
                };
                let b = if j < n {
                    j
                } else {
                    j - 1
                };
                assert(!entry_before(rest[b], rest[a]));
            }
        }
    }
}

fn is_before(a: &LogEntry, b: &LogEntry) -> (r: bool)
    ensures
        r == entry_before(a@, b@),
{
    a.modified < b.modified || a.modified == b.modified && comes_before(
        a.path.as_str(),
        b.path.as_str(),
    )
}

/// Orders the files from the one changed first to the one changed last, those changed at the same
/// time by their paths, and numbers them.
pub fn order_entries(entries: Vec<LogEntry>) -> (r: Vec<LogEntry>)
    ensures
        views(r@) == numbered(by_change(views(entries@))),
{
    let ghost all = views(entries@);
    let mut entries = entries;
    let mut out: Vec<LogEntry> = Vec::new();
    proof {
        assert(views(out@) =~= by_change(all.subrange(all.len() as int, all.len() as int)));
        assert(views(entries@) =~= all.take(entries@.len() as int));
    }
    while entries.len() > 0
        invariant
            entries.len() <= all.len(),
            views(entries@) == all.take(entries@.len() as int),
            views(out@) == by_change(all.subrange(entries@.len() as int, all.len() as int)),
        decreases entries.len(),
    {
        let ghost n = entries@.len();
        let ghost longer = all.subrange(n - 1, all.len() as int);
        assert(views(entries@)[n - 1] == all[n - 1]);
        let entry = entries.pop().unwrap();
        assert(entry@ == all[n - 1]);
        assert(longer.drop_first() =~= all.subrange(n as int, all.len() as int));
        let mut pos: usize = 0;
        while pos < out.len() && is_before(&out[pos], &entry)
            invariant
                pos <= out.len(),
                forall|i: int|
                    0 <= i < pos ==> entry_before(#[trigger] views(out@)[i], entry@),
            decreases out.len() - pos,
        {
            pos += 1;
        }
        let ghost before = views(out@);
        proof {
            if pos < out.len() {
                assert(views(out@)[pos as int] == out@[pos as int]@);
            }
            lemma_place_is(before, entry@, pos as int);
        }
        let ghost entry_view = entry@;
        out.insert(pos, entry);
        assert(views(out@) =~= before.insert(pos as int, entry_view));
        assert(views(entries@) =~= all.take(entries@.len() as int));
    }
    assert(all.subrange(0, all.len() as int) =~= all);
    let ghost sorted = views(out@);
    let mut i: usize = 0;
    while i < out.len()
        invariant
            out@.len() == sorted.len(),
            i <= out.len(),
            forall|j: int| 0 <= j < i ==> (#[trigger] out@[j])@ == (LogEntryView {
                index: j,
                ..sorted[j]
            }),
            forall|j: int| i <= j < out@.len() ==> (#[trigger] out@[j])@ == sorted[j],
        decreases out.len() - i,
    {
        let e = &mut out[i];
        e.index = i;
        i += 1;
    }
    assert(views(out@) =~= numbered(sorted));
    out
}

/// The text, with spaces before it up to `width` characters.
pub open spec fn padded(s: Seq<char>, width: int) -> Seq<char> {
    if s.len() >= width {
        s
    } else {
        crate::monitor::spaces(width - s.len()) + s
    }
}

fn push_padded(out: &mut String, s: &str, width: usize)
    ensures
        final(out)@ == old(out)@ + padded(s@, width as int),
{
    let ghost before = out@;
    let v = chars_of(s);
    let mut n: usize = v.len();
    assert(out@ =~= before + crate::monitor::spaces(0));
    while n < width
        invariant
            v@ == s@,
            v@.len() <= n,
            n <= width || n == v@.len(),
            out@ == before + crate::monitor::spaces(n - v@.len()),
        decreases width - n,
    {
        push_char(out, ' ');
        n += 1;
        assert(out@ =~= before + crate::monitor::spaces(n - v@.len()));
    }
    push_text(out, s);
    assert(out@ =~= before + padded(s@, width as int));
}

/// The line of a file under the given number.
pub open spec fn entry_line(number: int, e: LogEntryView) -> Seq<char> {
    padded(signed_decimal(number), 4) + "  "@ + e.modified_text + "  "@ + padded(
        size_text(e.size),
        7,
    ) + "  "@ + e.path
}

/// The list of files. In reverse the latest comes first, under negative numbers.
pub open spec fn listing(entries: Seq<LogEntryView>, reverse: bool, dir: Seq<char>) -> Seq<
    Seq<char>,
> {
    if entries.len() == 0 {
        seq!["No log files under "@ + dir]
    } else if reverse {
        Seq::new(
            entries.len(),
            |i: int| entry_line(-(i + 1), entries[entries.len() - 1 - i]),
        ).push("(latest log: index "@ + decimal((entries.len() - 1) as nat) + " or -1)"@)
    } else {
        Seq::new(entries.len(), |i: int| entry_line(entries[i].index, entries[i]))
    }
}

fn line_of_entry(number: i64, e: &LogEntry) -> (r: String)
    ensures
        r@ == entry_line(number as int, e@),
{
    let mut line = String::new();
    let label = signed_text(number);
    push_padded(&mut line, label.as_str(), 4);
    assert(line@ =~= padded(signed_decimal(number as int), 4));
    push_text(&mut line, "  ");
    push_text(&mut line, e.modified_text.as_str());
    push_text(&mut line, "  ");
    push_padded(&mut line, human_size(e.size).as_str(), 7);
    push_text(&mut line, "  ");
    push_text(&mut line, e.path.as_str());
    line
}

/// The line that says that there are no files in `dir`.
pub fn no_files_line(dir: &str) -> (r: String)
    ensures
        r@ == "No log files under "@ + dir@,
{
    let mut t = "No log files under ".to_string();
    push_text(&mut t, dir);
    t
}

/// Listed, line k shows the k-th oldest file under the number k. In reverse it shows the k-th
/// latest under the number -(k + 1), and a line about the latest file closes the list.
pub proof fn law_list_goes_by_age(s: Seq<LogEntryView>, dir: Seq<char>)
    requires
        s.len() > 0,
    ensures
        ({
            let files = by_change(s);
            let n = s.len() as int;
            let forth = listing(numbered(files), false, dir);
            let back = listing(numbered(files), true, dir);
            &&& forth.len() == n
            &&& back.len() == n + 1
            &&& forall|k: int| 0 <= k < n ==> #[trigger] forth[k] == entry_line(k, files[k])
            &&& forall|k: int|
                0 <= k < n ==> #[trigger] back[k] == entry_line(-(k + 1), files[n - 1 - k])
            &&& back[n] == "(latest log: index "@ + decimal((n - 1) as nat) + " or -1)"@
        }),
{
    law_files_come_in_order(s);
}

/// The list of files in `dir`.
pub fn list_lines(entries: &Vec<LogEntry>, reverse: bool, dir: &str) -> (r: Vec<String>)
    requires
        entries.len() <= i64::MAX,
        forall|i: int| 0 <= i < entries@.len() ==> (#[trigger] entries@[i]).index <= i64::MAX,
    ensures
        views(r@) == listing(views(entries@), reverse, dir@),
{
    broadcast use lemma_views_push;

    let ghost all = views(entries@);
    let ghost whole = listing(all, reverse, dir@);
    let mut out: Vec<String> = Vec::new();
    if entries.len() == 0 {
        out.push(no_files_line(dir));
        assert(views(out@) =~= whole);
        return out;
    }
    let n: usize = entries.len();
    let mut i: usize = 0;
    assert(views(out@) =~= whole.take(0));
    while i < n
        invariant
            all == views(entries@),
            whole == listing(all, reverse, dir@),
            n == entries.len(),
            0 < n <= i64::MAX,
            forall|i: int| 0 <= i < entries@.len() ==> (#[trigger] entries@[i]).index <= i64::MAX,
            i <= n,
            views(out@) == whole.take(i as int),
        decreases n - i,
    {
        proof {
            lemma_take_succ(whole, i as int);
        }
        if reverse {
            assert(all[n - 1 - i] == entries@[n - 1 - i]@);
            out.push(line_of_entry(-(i as i64 + 1), &entries[n - 1 - i]));
        } else {
            assert(all[i as int] == entries@[i as int]@);
            out.push(line_of_entry(entries[i].index as i64, &entries[i]));
        }
        i += 1;
    }
    if reverse {
        let mut t = "(latest log: index ".to_string();
        push_number(&mut t, (n - 1) as u64);
        push_text(&mut t, " or -1)");
        out.push(t);
    }
    assert(views(out@) =~= whole);
    out
}

/// What showing files comes to.
#[derive(Debug)]
pub enum ShowPlan {
    /// There are no files.
    NoFiles,
    /// No file was selected.
    NothingSelected,
    /// Show the selected files through the pager.
    Page(Vec<usize>),
    /// Print the selected files.
    Print(Vec<usize>),
}

/// What showing files comes to: of `len` files the selected ones, through the pager on a terminal
/// unless that is not wanted.
pub fn plan_show(selection: &str, no_pager: bool, len: usize, terminal: bool) -> (r: Result<
    ShowPlan,
    SelectionError,
>)
    requires
        len <= isize::MAX,
    ensures
        match r {
            Ok(ShowPlan::NoFiles) => len == 0,
            Ok(ShowPlan::NothingSelected) => len > 0 && selected(selection@, len as int) == Ok::<
                Seq<usize>,
                SelectionErrorView,
            >(Seq::empty()),
            Ok(ShowPlan::Page(places)) => len > 0 && places@.len() > 0 && !no_pager && terminal
                && selected(selection@, len as int) == Ok::<Seq<usize>, SelectionErrorView>(
                places@,
            ),
            Ok(ShowPlan::Print(places)) => len > 0 && places@.len() > 0 && !(!no_pager && terminal)
                && selected(selection@, len as int) == Ok::<Seq<usize>, SelectionErrorView>(
                places@,
            ),
            Err(e) => len > 0 && selected(selection@, len as int) == Err::<
                Seq<usize>,
                SelectionErrorView,
            >(e@),
        },
{
    if len == 0 {
        return Ok(ShowPlan::NoFiles);
    }
    match parse_selection(selection, len) {
        Ok(places) => {
            if places.len() == 0 {
                assert(places@ =~= Seq::empty());
                Ok(ShowPlan::NothingSelected)
            } else if !no_pager && terminal {
                Ok(ShowPlan::Page(places))
            } else {
                Ok(ShowPlan::Print(places))
            }
        },
        Err(e) => Err(e),
    }
}

/// How the start of a program ended.
#[derive(Debug)]
pub enum Launch {
    /// It ran and exited with the given code, or was stopped without one.
    Exited(Option<i32>),
    /// There is no such program.
    NotFound,
    /// It could not be started, for the given reason.
    Failed(String),
}

/// What follows the start of the pager.
#[derive(Debug)]
pub enum AfterPager {
    /// The pager has shown the files.
    Done,
    /// Say that there is no pager, and print the files.
    PrintInstead,
    /// Give up with the given message.
    GiveUp(String),
}

/// What follows the start of the pager.
pub fn after_pager(launch: &Launch) -> (r: AfterPager)
    ensures
        match *launch {
            Launch::Exited(_) => r is Done,
            Launch::NotFound => r is PrintInstead,
            Launch::Failed(reason) => match r {
                AfterPager::GiveUp(message) => message@ == "failed to launch pager: "@ + reason@,
                _ => false,
            },
        },
{
    match launch {
        Launch::Exited(_) => AfterPager::Done,
        Launch::NotFound => AfterPager::PrintInstead,
        Launch::Failed(reason) => {
            let mut t = "failed to launch pager: ".to_string();
            push_text(&mut t, reason.as_str());
            AfterPager::GiveUp(t)
        },
    }
}

/// The line above the contents of a file, with its number from the front and from the end.
pub open spec fn header_text(index: int, len: int, path: Seq<char>) -> Seq<char> {
    "===== ["@ + decimal(index as nat) + "|"@ + signed_decimal(index - len) + "] "@ + path
        + " ====="@
}

/// The line above the contents of a file.
pub fn header_line(index: usize, len: usize, path: &str) -> (r: String)
    requires
        index <= isize::MAX,
        len <= isize::MAX,
    ensures
        r@ == header_text(index as int, len as int, path@),
{
    let mut t = "===== [".to_string();
    push_number(&mut t, index as u64);
    push_text(&mut t, "|");
    push_signed(&mut t, neg_index(index, len) as i64);
    push_text(&mut t, "] ");
    push_text(&mut t, path);
    push_text(&mut t, " =====");
    t
}

/// What stands before the contents of a file: its header on a line of its own, after a blank line
/// where it is not the first file.
pub fn file_heading(position: usize, index: usize, len: usize, path: &str) -> (r: String)
    requires
        index <= isize::MAX,
        len <= isize::MAX,
    ensures
        r@ == (if position > 0 {
            "\n"@
        } else {
            Seq::empty()
        }) + header_text(index as int, len as int, path@) + "\n"@,
{
    let mut t = String::new();
    if position > 0 {
        push_text(&mut t, "\n");
        assert(t@ =~= "\n"@);
    }
    push_text(&mut t, header_line(index, len, path).as_str());
    push_text(&mut t, "\n");
    t
}

/// Whether a line has to be ended after the contents of a file, given its last byte.
pub fn needs_newline(last: Option<u8>) -> (r: bool)
    ensures
        r == (last is Some && last->0 != 10),
{
    match last {
        Some(byte) => byte != 10,
        None => false,
    }
}

/// The arguments of a program: what it is told first, then the paths.
pub open spec fn arguments(first: Seq<Seq<char>>, paths: Seq<Seq<char>>) -> Seq<Seq<char>> {
    first + seq!["--"@] + paths
}

fn program_args(first: Vec<String>, paths: &Vec<String>) -> (r: Vec<String>)
    ensures
        views(r@) == arguments(views(first@), views(paths@)),
{
    broadcast use lemma_views_push;

    let ghost head = views(first@);
    let ghost all = views(paths@);
    let mut out = first;
    out.push("--".to_string());
    let ghost start = views(out@);
    let mut i: usize = 0;
    assert(start =~= head + seq!["--"@]);
    assert(views(out@) =~= start + all.take(0));
    while i < paths.len()
        invariant
            all == views(paths@),
            i <= paths.len(),
            views(out@) == start + all.take(i as int),
        decreases paths.len() - i,
    {
        proof {
            lemma_take_succ(all, i as int);
        }
        assert(all[i as int] == paths@[i as int]@);
        let ghost before = views(out@);
        out.push(paths[i].clone());
        assert(views(out@) =~= before.push(all[i as int]));
        i += 1;
        assert(views(out@) =~= start + all.take(i as int));
    }
    proof {
        lemma_take_all(all);
    }
    out
}

/// The arguments of the pager.
pub fn pager_args(paths: &Vec<String>) -> (r: Vec<String>)
    ensures
        views(r@) == arguments(seq!["-R"@], views(paths@)),
{
    let mut first: Vec<String> = Vec::new();
    first.push("-R".to_string());
    assert(views(first@) =~= seq!["-R"@]);
    program_args(first, paths)
}

/// The programs that can search files.
#[derive(Clone, Copy, Debug, PartialEq, Eq, Structural)]
pub enum SearchTool {
    Ripgrep,
    Grep,
}

/// The name of the program.
pub open spec fn tool_name(tool: SearchTool) -> Seq<char> {
    match tool {
        SearchTool::Ripgrep => "rg"@,
        SearchTool::Grep => "grep"@,
    }
}

impl SearchTool {
    /// The name of the program.
    pub fn program(&self) -> (r: &'static str)
        ensures
            r@ == tool_name(*self),
    {
        match self {
            SearchTool::Ripgrep => "rg",
            SearchTool::Grep => "grep",
        }
    }

    /// The arguments of the program.
    pub fn args(&self, pattern: &str, paths: &Vec<String>) -> (r: Vec<String>)
        ensures
            views(r@) == arguments(
                seq![
                    match *self {
                        SearchTool::Ripgrep => "--color=never"@,
                        SearchTool::Grep => "-E"@,
                    },
                    pattern@,
                ],
                views(paths@),
            ),
    {
        let option = match self {
            SearchTool::Ripgrep => "--color=never",
            SearchTool::Grep => "-E",
        };
        let mut first: Vec<String> = Vec::new();
        first.push(option.to_string());
        first.push(pattern.to_string());
        assert(views(first@) =~= seq![option@, pattern@]);
        program_args(first, paths)
    }
}

impl SearchTool {
    /// The program to try where this one is missing; none where the files have to be searched
    /// without one.
    pub fn next(&self) -> (r: Option<SearchTool>)
        ensures
            r == match *self {
                SearchTool::Ripgrep => Some(SearchTool::Grep),
                SearchTool::Grep => None,
            },
    {
        match self {
            SearchTool::Ripgrep => Some(SearchTool::Grep),
            SearchTool::Grep => None,
        }
    }
}

/// What follows a search by a program.
#[derive(Debug)]
pub enum AfterSearch {
    /// The program has searched the files, with or without a match.
    Done,
    /// There is no such program: try the next way.
    TryNext,
    /// Give up with the given message.
    GiveUp(String),
}

/// An exit code as it is shown.
pub open spec fn code_text(code: Option<i32>) -> Seq<char> {
    match code {
        Some(n) => "Some("@ + signed_decimal(n as int) + ")"@,
        None => "None"@,
    }
}

/// What follows a search by a program. The codes 0 and 1 say that it ran.
pub fn after_search(tool: SearchTool, launch: &Launch) -> (r: AfterSearch)
    ensures
        match *launch {
            Launch::Exited(code) => if code == Some(0i32) || code == Some(1i32) {
                r is Done
            } else {
                match r {
                    AfterSearch::GiveUp(message) => message@ == tool_name(tool)
                        + " exited with status "@ + code_text(code),
                    _ => false,
                }
            },
            Launch::NotFound => r is TryNext,
            Launch::Failed(reason) => match r {
                AfterSearch::GiveUp(message) => message@ == reason@,
                _ => false,
            },
        },
{
    match launch {
        Launch::Exited(code) => {
            let mut t = tool.program().to_string();
            push_text(&mut t, " exited with status ");
            match code {
                Some(n) => {
                    if *n == 0 || *n == 1 {
                        return AfterSearch::Done;
                    }
                    let mut c = "Some(".to_string();
                    push_signed(&mut c, *n as i64);
                    push_text(&mut c, ")");
                    push_text(&mut t, c.as_str());
                },
                None => {
                    push_text(&mut t, "None");
                },
            }
            AfterSearch::GiveUp(t)
        },
        Launch::NotFound => AfterSearch::TryNext,
        Launch::Failed(reason) => AfterSearch::GiveUp(reason.clone()),
    }
}

/// The file was changed at `cutoff` or later.
pub open spec fn is_recent(cutoff: int) -> spec_fn(LogEntryView) -> bool {
    |e: LogEntryView| e.modified >= cutoff
}

/// The files changed at `cutoff` or later.
pub fn recent_entries(entries: &Vec<LogEntry>, cutoff: i128) -> (r: Vec<LogEntry>)
    ensures
        views(r@) == kept(views(entries@), is_recent(cutoff as int)),
{
    broadcast use lemma_views_push;

    let ghost all = views(entries@);
    let mut out: Vec<LogEntry> = Vec::new();
    let mut i: usize = 0;
    assert(views(out@) =~= kept(all.take(0), is_recent(cutoff as int)));
    while i < entries.len()
        invariant
            all == views(entries@),
            i <= entries.len(),
            views(out@) == kept(all.take(i as int), is_recent(cutoff as int)),
        decreases entries.len() - i,
    {
        proof {
            lemma_take_succ(all, i as int);
        }
        if entries[i].modified >= cutoff {
            out.push(entries[i].clone());
        }
        i += 1;
    }
    proof {
        lemma_take_all(all);
    }
    out
}

/// How far back a search goes, in seconds; the limit of the type where that is exceeded.
pub fn span_secs(hours: u64) -> (r: u64)
    ensures
        r == if hours * 3600 <= u64::MAX {
            hours * 3600
        } else {
            u64::MAX as int
        },
{
    match hours.checked_mul(3600) {
        Some(secs) => secs,
        None => u64::MAX,
    }
}

/// The line that says that no file was changed in the last hours.
pub fn no_recent_line(hours: u64) -> (r: String)
    ensures
        r@ == "No log files from the last "@ + decimal(hours as nat) + " hours"@,
{
    let mut t = "No log files from the last ".to_string();
    push_number(&mut t, hours);
    push_text(&mut t, " hours");
    t
}

/// What `regex::Regex::new` says against the pattern; nothing where it takes it.
pub uninterp spec fn regex_refusal(pattern: Seq<char>) -> Option<Seq<char>>;

/// The pattern is a regular expression.
pub open spec fn is_regex(pattern: Seq<char>) -> bool {
    regex_refusal(pattern) is None
}

/// The regular expression matches somewhere in the text, by `regex::Regex::is_match`.
pub uninterp spec fn regex_matches(pattern: Seq<char>, text: Seq<char>) -> bool;

/// Compiles a pattern with `regex::Regex::new` and asks `regex::Regex::is_match` whether it
/// matches a text. Whether the pattern is refused, and the words of the refusal, depend on the
/// pattern alone, the answer on the pattern and the text alone.
#[verifier::external_body]
fn regex_is_match(pattern: &str, text: &str) -> (r: Result<bool, String>)
    ensures
        match r {
            Ok(hit) => regex_refusal(pattern@) is None && hit == regex_matches(pattern@, text@),
            Err(e) => regex_refusal(pattern@) == Some(e@),
        },
{
    match regex::Regex::new(pattern) {
        Ok(re) => Ok(re.is_match(text)),
        Err(e) => Err(e.to_string()),
    }
}

/// The lines that were hit, each after the path of its file.
pub open spec fn hit_lines(path: Seq<char>, lines: Seq<Seq<char>>, hits: Seq<bool>) -> Seq<
    Seq<char>,
>
    decreases lines.len(),
{
    if lines.len() == 0 {
        Seq::empty()
    } else {
        let before = hit_lines(path, lines.drop_last(), hits.drop_last());
        if hits.last() {
            before.push(path + ":"@ + lines.last())
        } else {
            before
        }
    }
}

/// The lines that were hit, each after the path of its file.
pub fn matched_lines(path: &str, lines: &Vec<String>, hits: &Vec<bool>) -> (r: Vec<String>)
    requires
        hits.len() == lines.len(),
    ensures
        views(r@) == hit_lines(path@, views(lines@), hits@),
{
    broadcast use lemma_views_push;

    let ghost all = views(lines@);
    let mut out: Vec<String> = Vec::new();
    let mut i: usize = 0;
    assert(views(out@) =~= hit_lines(path@, all.take(0), hits@.take(0)));
    while i < lines.len()
        invariant
            all == views(lines@),
            hits.len() == lines.len(),
            i <= lines.len(),
            views(out@) == hit_lines(path@, all.take(i as int), hits@.take(i as int)),
        decreases lines.len() - i,
    {
        proof {
            lemma_take_succ(all, i as int);
            lemma_take_succ(hits@, i as int);
        }
        if hits[i] {
            let mut t = path.to_string();
            push_text(&mut t, ":");
            push_text(&mut t, lines[i].as_str());
            out.push(t);
        }
        i += 1;
    }
    proof {
        lemma_take_all(all);
        lemma_take_all(hits@);
    }
    out
}

/// Which of the lines match the pattern.
pub open spec fn hits_of(pattern: Seq<char>, lines: Seq<Seq<char>>) -> Seq<bool> {
    Seq::new(lines.len(), |i: int| regex_matches(pattern, lines[i]))
}

/// The lines of a file that match the pattern, each after the path of the file.
pub fn filter_lines(pattern: &str, path: &str, lines: &Vec<String>) -> (r: Result<
    Vec<String>,
    String,
>)
    ensures
        match r {
            Ok(found) => is_regex(pattern@) && views(found@) == hit_lines(
                path@,
                views(lines@),
                hits_of(pattern@, views(lines@)),
            ),
            Err(e) => regex_refusal(pattern@) == Some(e@),
        },
{
    if let Err(e) = check_pattern(pattern) {
        return Err(e);
    }
    let ghost all = views(lines@);
    let mut hits: Vec<bool> = Vec::new();
    let mut i: usize = 0;
    while i < lines.len()
        invariant
            all == views(lines@),
            i <= lines.len(),
            hits.len() == i,
            is_regex(pattern@),
            forall|j: int|
                0 <= j < i ==> (#[trigger] hits@[j]) == regex_matches(pattern@, all[j]),
        decreases lines.len() - i,
    {
        match regex_is_match(pattern, lines[i].as_str()) {
            Ok(hit) => {
                hits.push(hit);
            },
            Err(e) => {
                return Err(e);
            },
        }
        i += 1;
    }
    assert(hits@ =~= hits_of(pattern@, all));
    Ok(matched_lines(path, lines, &hits))
}

/// What a search says at its end: that there was no match, where there was none.
pub fn search_end(found: bool) -> (r: Option<&'static str>)
    ensures
        match r {
            Some(line) => !found && line@ == "No matches found"@,
            None => found,
        },
{
    if found {
        None
    } else {
        Some("No matches found")
    }
}

/// Whether the pattern is a regular expression; what is wrong with it otherwise.
pub fn check_pattern(pattern: &str) -> (r: Result<(), String>)
    ensures
        match r {
            Ok(_) => is_regex(pattern@),
            Err(e) => regex_refusal(pattern@) == Some(e@),
        },
{
    match regex_is_match(pattern, "") {
        Ok(_) => Ok(()),
        Err(e) => Err(e),
    }
}

/// Recent files are exactly those changed at the given time or later, in order.
pub proof fn law_recent_files_are_those_changed_since(s: Seq<LogEntryView>, cutoff: int)
    ensures
        kept(s, is_recent(cutoff)) == s.filter(|e: LogEntryView| e.modified >= cutoff),
    decreases s.len(),
{
    let recent = |e: LogEntryView| e.modified >= cutoff;
    reveal(Seq::filter);
    if s.len() > 0 {
        law_recent_files_are_those_changed_since(s.drop_last(), cutoff);
    } else {
        assert(kept(s, is_recent(cutoff)) =~= s.filter(recent));
    }
}

/// A search gives each line that was hit, behind the path of its file and a colon, and no other: a
/// search through more lines gives what it gave before and, where the next line was hit, that line.
pub proof fn law_search_gives_the_lines_hit(
    path: Seq<char>,
    lines: Seq<Seq<char>>,
    hits: Seq<bool>,
    line: Seq<char>,
    hit: bool,
)
    requires
        hits.len() == lines.len(),
    ensures
        hit_lines(path, Seq::empty(), Seq::empty()) == Seq::<Seq<char>>::empty(),
        hit ==> hit_lines(path, lines.push(line), hits.push(hit)) == hit_lines(
            path,
            lines,
            hits,
        ).push(path + seq![':'] + line),
        !hit ==> hit_lines(path, lines.push(line), hits.push(hit)) == hit_lines(path, lines, hits),
{
    reveal_strlit(":");
    assert(":"@ =~= seq![':']);
    assert(lines.push(line).drop_last() =~= lines);
    assert(hits.push(hit).drop_last() =~= hits);
}

} // verus!
