//! The names under which sources, kinds and states are stored.

use crate::events::model::{EventKind, EventSource, HintKind, SignalKind};
use crate::records::ActivityState;
use crate::text::{begins_with, same_text, skip_chars, starts_with};
use vstd::prelude::*;

verus! {

pub open spec fn source_label(s: EventSource) -> Seq<char> {
    match s {
        EventSource::Hook => "hook"@,
        EventSource::Derived => "derived"@,
        EventSource::Polling => "polling"@,
    }
}

pub open spec fn kind_label(k: EventKind) -> Seq<char> {
    match k {
        EventKind::Signal(SignalKind::KeyboardInput) => "signal:keyboard"@,
        EventKind::Signal(SignalKind::MouseInput) => "signal:mouse"@,
        EventKind::Signal(SignalKind::AppChanged) => "signal:app_changed"@,
        EventKind::Signal(SignalKind::WindowChanged) => "signal:window_changed"@,
        EventKind::Signal(SignalKind::ActivityPulse) => "signal:activity_pulse"@,
        EventKind::Signal(SignalKind::LockStart) => "signal:lock_start"@,
        EventKind::Signal(SignalKind::LockEnd) => "signal:lock_end"@,
        EventKind::Hint(HintKind::FocusChanged) => "hint:focus_changed"@,
        EventKind::Hint(HintKind::StateChanged) => "hint:state_changed"@,
        EventKind::Hint(HintKind::TitleChanged) => "hint:title_changed"@,
        EventKind::Hint(HintKind::PositionChanged) => "hint:position"@,
        EventKind::Hint(HintKind::SizeChanged) => "hint:size"@,
    }
}

pub open spec fn state_label(s: ActivityState) -> Seq<char> {
    match s {
        ActivityState::Active => "Active"@,
        ActivityState::Passive => "Passive"@,
        ActivityState::Inactive => "Inactive"@,
        ActivityState::Locked => "Locked"@,
    }
}

/// The source with the given name; an unknown name stands for the hook.
pub open spec fn source_named(label: Seq<char>) -> EventSource {
    if label == "derived"@ {
        EventSource::Derived
    } else if label == "polling"@ {
        EventSource::Polling
    } else {
        EventSource::Hook
    }
}

/// The signal with the given name; an unknown name stands for a change of application.
pub open spec fn signal_named(label: Seq<char>) -> SignalKind {
    if label == "keyboard"@ {
        SignalKind::KeyboardInput
    } else if label == "mouse"@ {
        SignalKind::MouseInput
    } else if label == "window_changed"@ {
        SignalKind::WindowChanged
    } else if label == "activity_pulse"@ {
        SignalKind::ActivityPulse
    } else if label == "lock_start"@ {
        SignalKind::LockStart
    } else if label == "lock_end"@ {
        SignalKind::LockEnd
    } else {
        SignalKind::AppChanged
    }
}

/// The hint with the given name; an unknown name stands for a change of title.
pub open spec fn hint_named(label: Seq<char>) -> HintKind {
    if label == "focus_changed"@ {
        HintKind::FocusChanged
    } else if label == "state_changed"@ {
        HintKind::StateChanged
    } else if label == "position"@ {
        HintKind::PositionChanged
    } else if label == "size"@ {
        HintKind::SizeChanged
    } else {
        HintKind::TitleChanged
    }
}

/// The kind with the given name; a name that is neither of a signal nor of a hint stands for a
/// change of application.
pub open spec fn kind_named(label: Seq<char>) -> EventKind {
    if begins_with(label, "signal:"@) {
        EventKind::Signal(signal_named(label.skip("signal:"@.len() as int)))
    } else if begins_with(label, "hint:"@) {
        EventKind::Hint(hint_named(label.skip("hint:"@.len() as int)))
    } else {
        EventKind::Signal(SignalKind::AppChanged)
    }
}

/// The state with the given name; an unknown name stands for the inactive state.
pub open spec fn state_named(label: Seq<char>) -> ActivityState {
    if label == "Active"@ {
        ActivityState::Active
    } else if label == "Passive"@ {
        ActivityState::Passive
    } else if label == "Locked"@ {
        ActivityState::Locked
    } else {
        ActivityState::Inactive
    }
}

pub fn label_of_source(s: EventSource) -> (r: &'static str)
    ensures
        r@ == source_label(s),
{
    match s {
        EventSource::Hook => "hook",
        EventSource::Derived => "derived",
        EventSource::Polling => "polling",
    }
}

pub fn label_of_kind(k: EventKind) -> (r: &'static str)
    ensures
        r@ == kind_label(k),
{
    match k {
        EventKind::Signal(sk) => match sk {
            SignalKind::KeyboardInput => "signal:keyboard",
            SignalKind::MouseInput => "signal:mouse",
            SignalKind::AppChanged => "signal:app_changed",
            SignalKind::WindowChanged => "signal:window_changed",
            SignalKind::ActivityPulse => "signal:activity_pulse",
            SignalKind::LockStart => "signal:lock_start",
            SignalKind::LockEnd => "signal:lock_end",
        },
        EventKind::Hint(hk) => match hk {
            HintKind::FocusChanged => "hint:focus_changed",
            HintKind::StateChanged => "hint:state_changed",
            HintKind::TitleChanged => "hint:title_changed",
            HintKind::PositionChanged => "hint:position",
            HintKind::SizeChanged => "hint:size",
        },
    }
}

pub fn label_of_state(s: ActivityState) -> (r: &'static str)
    ensures
        r@ == state_label(s),
{
    match s {
        ActivityState::Active => "Active",
        ActivityState::Passive => "Passive",
        ActivityState::Inactive => "Inactive",
        ActivityState::Locked => "Locked",
    }
}

pub fn parse_source_label(label: &str) -> (r: EventSource)
    ensures
        r == source_named(label@),
{
    if same_text(label, "derived") {
        EventSource::Derived
    } else if same_text(label, "polling") {
        EventSource::Polling
    } else {
        EventSource::Hook
    }
}

fn parse_signal_label(label: &str) -> (r: SignalKind)
    ensures
        r == signal_named(label@),
{
    if same_text(label, "keyboard") {
        SignalKind::KeyboardInput
    } else if same_text(label, "mouse") {
        SignalKind::MouseInput
    } else if same_text(label, "window_changed") {
        SignalKind::WindowChanged
    } else if same_text(label, "activity_pulse") {
        SignalKind::ActivityPulse
    } else if same_text(label, "lock_start") {
        SignalKind::LockStart
    } else if same_text(label, "lock_end") {
        SignalKind::LockEnd
    } else {
        SignalKind::AppChanged
    }
}

fn parse_hint_label(label: &str) -> (r: HintKind)
    ensures
        r == hint_named(label@),
{
    if same_text(label, "focus_changed") {
        HintKind::FocusChanged
    } else if same_text(label, "state_changed") {
        HintKind::StateChanged
    } else if same_text(label, "position") {
        HintKind::PositionChanged
    } else if same_text(label, "size") {
        HintKind::SizeChanged
    } else {
        HintKind::TitleChanged
    }
}

pub fn parse_kind_label(label: &str) -> (r: EventKind)
    ensures
        r == kind_named(label@),
{
    proof {
        reveal_strlit("signal:");
        reveal_strlit("hint:");
    }
    if starts_with(label, "signal:") {
        EventKind::Signal(parse_signal_label(skip_chars(label, 7).as_str()))
    } else if starts_with(label, "hint:") {
        EventKind::Hint(parse_hint_label(skip_chars(label, 5).as_str()))
    } else {
        EventKind::Signal(SignalKind::AppChanged)
    }
}

pub fn parse_state_label(label: &str) -> (r: ActivityState)
    ensures
        r == state_named(label@),
{
    if same_text(label, "Active") {
        ActivityState::Active
    } else if same_text(label, "Passive") {
        ActivityState::Passive
    } else if same_text(label, "Locked") {
        ActivityState::Locked
    } else {
        ActivityState::Inactive
    }
}

/// Every source is read back from its name.
pub proof fn law_source_names(s: EventSource)
    ensures
        source_named(source_label(s)) == s,
{
    reveal_strlit("hook");
    reveal_strlit("derived");
    reveal_strlit("polling");
    assert("hook"@.len() == 4);
    assert("derived"@[0] == 'd');
    assert("polling"@[0] == 'p');
}

/// Every state is read back from its name.
pub proof fn law_state_names(s: ActivityState)
    ensures
        state_named(state_label(s)) == s,
{
    reveal_strlit("Active");
    reveal_strlit("Passive");
    reveal_strlit("Inactive");
    reveal_strlit("Locked");
    assert("Active"@[0] == 'A');
    assert("Passive"@[0] == 'P');
    assert("Inactive"@[0] == 'I');
    assert("Locked"@[0] == 'L');
}

proof fn lemma_signal_name(s: SignalKind, rest: Seq<char>)
    requires
        rest == match s {
            SignalKind::KeyboardInput => "keyboard"@,
            SignalKind::MouseInput => "mouse"@,
            SignalKind::AppChanged => "app_changed"@,
            SignalKind::WindowChanged => "window_changed"@,
            SignalKind::ActivityPulse => "activity_pulse"@,
            SignalKind::LockStart => "lock_start"@,
            SignalKind::LockEnd => "lock_end"@,
        },
    ensures
        signal_named(rest) == s,
{
    reveal_strlit("keyboard");
    reveal_strlit("mouse");
    reveal_strlit("app_changed");
    reveal_strlit("window_changed");
    reveal_strlit("activity_pulse");
    reveal_strlit("lock_start");
    reveal_strlit("lock_end");
    assert("keyboard"@[0] == 'k');
    assert("mouse"@[0] == 'm');
    assert("app_changed"@[1] == 'p');
    assert("window_changed"@[0] == 'w');
    assert("activity_pulse"@[1] == 'c');
    assert("lock_start"@[0] == 'l' && "lock_start"@[5] == 's');
    assert("lock_end"@[0] == 'l' && "lock_end"@[5] == 'e');
}

proof fn lemma_hint_name(h: HintKind, rest: Seq<char>)
    requires
        rest == match h {
            HintKind::FocusChanged => "focus_changed"@,
            HintKind::StateChanged => "state_changed"@,
            HintKind::TitleChanged => "title_changed"@,
            HintKind::PositionChanged => "position"@,
            HintKind::SizeChanged => "size"@,
        },
    ensures
        hint_named(rest) == h,
{
    reveal_strlit("focus_changed");
    reveal_strlit("state_changed");
    reveal_strlit("title_changed");
    reveal_strlit("position");
    reveal_strlit("size");
    assert("focus_changed"@[0] == 'f');
    assert("state_changed"@[0] == 's');
    assert("title_changed"@[0] == 't');
    assert("position"@[0] == 'p');
    assert("size"@.len() == 4);
}

/// Every kind is read back from its name.
pub proof fn law_kind_names(k: EventKind)
    ensures
        kind_named(kind_label(k)) == k,
{
    reveal_strlit("signal:");
    reveal_strlit("hint:");
    let label = kind_label(k);
    match k {
        EventKind::Signal(s) => {
            let rest = match s {
                SignalKind::KeyboardInput => "keyboard"@,
                SignalKind::MouseInput => "mouse"@,
                SignalKind::AppChanged => "app_changed"@,
                SignalKind::WindowChanged => "window_changed"@,
                SignalKind::ActivityPulse => "activity_pulse"@,
                SignalKind::LockStart => "lock_start"@,
                SignalKind::LockEnd => "lock_end"@,
            };
            reveal_strlit("signal:keyboard");
            reveal_strlit("signal:mouse");
            reveal_strlit("signal:app_changed");
            reveal_strlit("signal:window_changed");
            reveal_strlit("signal:activity_pulse");
            reveal_strlit("signal:lock_start");
            reveal_strlit("signal:lock_end");
            reveal_strlit("keyboard");
            reveal_strlit("mouse");
            reveal_strlit("app_changed");
            reveal_strlit("window_changed");
            reveal_strlit("activity_pulse");
            reveal_strlit("lock_start");
            reveal_strlit("lock_end");
            assert(label.take(7) =~= "signal:"@);
            assert(label.skip(7) =~= rest);
            lemma_signal_name(s, rest);
        },
        EventKind::Hint(h) => {
            let rest = match h {
                HintKind::FocusChanged => "focus_changed"@,
                HintKind::StateChanged => "state_changed"@,
                HintKind::TitleChanged => "title_changed"@,
                HintKind::PositionChanged => "position"@,
                HintKind::SizeChanged => "size"@,
            };
            reveal_strlit("hint:focus_changed");
            reveal_strlit("hint:state_changed");
            reveal_strlit("hint:title_changed");
            reveal_strlit("hint:position");
            reveal_strlit("hint:size");
            reveal_strlit("focus_changed");
            reveal_strlit("state_changed");
            reveal_strlit("title_changed");
            reveal_strlit("position");
            reveal_strlit("size");
            assert(label[0] == 'h');
            assert(label.len() >= 7 ==> label.take(7)[0] == 'h');
            assert(label.take(5) =~= "hint:"@);
            assert(label.skip(5) =~= rest);
            lemma_hint_name(h, rest);
        },
    }
}

/// States, sources and kinds are stored under their own names, kinds behind whether they are signals
/// or hints.
pub proof fn law_names_are_stored_so(s: ActivityState, source: EventSource, kind: EventKind)
    ensures
        state_label(s) == "Active"@ <==> s == ActivityState::Active,
        state_label(s) == "Passive"@ <==> s == ActivityState::Passive,
        state_label(s) == "Inactive"@ <==> s == ActivityState::Inactive,
        state_label(s) == "Locked"@ <==> s == ActivityState::Locked,
        source_label(source) == "hook"@ <==> source == EventSource::Hook,
        source_label(source) == "derived"@ <==> source == EventSource::Derived,
        source_label(source) == "polling"@ <==> source == EventSource::Polling,
        kind is Signal ==> begins_with(kind_label(kind), "signal:"@),
        kind is Hint ==> begins_with(kind_label(kind), "hint:"@),
        kind == EventKind::Signal(SignalKind::KeyboardInput) ==> kind_label(kind)
            == "signal:keyboard"@,
        kind == EventKind::Signal(SignalKind::MouseInput) ==> kind_label(kind) == "signal:mouse"@,
        kind == EventKind::Signal(SignalKind::LockStart) ==> kind_label(kind)
            == "signal:lock_start"@,
        kind == EventKind::Signal(SignalKind::LockEnd) ==> kind_label(kind) == "signal:lock_end"@,
        kind == EventKind::Hint(HintKind::FocusChanged) ==> kind_label(kind)
            == "hint:focus_changed"@,
        kind == EventKind::Hint(HintKind::StateChanged) ==> kind_label(kind)
            == "hint:state_changed"@,
        kind == EventKind::Hint(HintKind::TitleChanged) ==> kind_label(kind)
            == "hint:title_changed"@,
{
    law_state_names(ActivityState::Active);
    law_state_names(ActivityState::Passive);
    law_state_names(ActivityState::Inactive);
    law_state_names(ActivityState::Locked);
    law_source_names(EventSource::Hook);
    law_source_names(EventSource::Derived);
    law_source_names(EventSource::Polling);
    reveal_strlit("signal:");
    reveal_strlit("hint:");
    reveal_strlit("signal:keyboard");
    reveal_strlit("signal:mouse");
    reveal_strlit("signal:app_changed");
    reveal_strlit("signal:window_changed");
    reveal_strlit("signal:activity_pulse");
    reveal_strlit("signal:lock_start");
    reveal_strlit("signal:lock_end");
    reveal_strlit("hint:focus_changed");
    reveal_strlit("hint:state_changed");
    reveal_strlit("hint:title_changed");
    reveal_strlit("hint:position");
    reveal_strlit("hint:size");
    let label = kind_label(kind);
    if kind is Signal {
        assert(label.take(7) =~= "signal:"@);
    } else {
        assert(label.take(5) =~= "hint:"@);
    }
}

} // verus!
