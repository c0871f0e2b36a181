//! What the daemon sends over its socket: replies with a body, and streams of events.

use crate::text::{
    begins_with, find, has_part, is_first_place, push_text, same_text,
    skip_chars, starts_with, trim, trim_end, trimmed, trimmed_end,
};
use vstd::prelude::*;

verus! {

/// The body of a reply: what follows the first blank line.
pub fn http_body(reply: &str) -> (r: Option<String>)
    ensures
        match r {
            Some(body) => exists|at: int|
                #[trigger] is_first_place(reply@, "\r\n\r\n"@, at) && body@ == reply@.skip(at + 4),
            None => !has_part(reply@, "\r\n\r\n"@),
        },
{
    proof {
        reveal_strlit("\r\n\r\n");
    }
    match find(reply, "\r\n\r\n") {
        Some(at) => Some(skip_chars(reply, at + 4)),
        None => None,
    }
}

/// A stream of events: first its head, then the text of the event that is coming in.
#[verifier::ext_equal]
pub struct StreamView {
    pub in_head: bool,
    pub data: Seq<char>,
}

/// The line ends an event.
pub open spec fn ends_event(line: Seq<char>) -> bool {
    line == "\r\n"@ || line == "\n"@
}

impl StreamView {
    /// The stream after a line. Of a line of data everything after its field name is kept,
    /// without the white space around it, or only without that at its end.
    pub open spec fn after(self, line: Seq<char>, trims_start: bool) -> StreamView {
        if self.in_head {
            StreamView { in_head: line != "\r\n"@, ..self }
        } else if begins_with(line, "data:"@) {
            let rest = line.skip("data:"@.len() as int);
            StreamView {
                data: self.data + (if trims_start {
                    trimmed(rest)
                } else {
                    trimmed_end(rest)
                }) + "\n"@,
                ..self
            }
        } else if ends_event(line) {
            StreamView { data: Seq::empty(), ..self }
        } else {
            self
        }
    }

    /// The event that a line completes.
    pub open spec fn event(self, line: Seq<char>) -> Option<Seq<char>> {
        if !self.in_head && !begins_with(line, "data:"@) && ends_event(line) && self.data.len()
            > 0 {
            Some(trimmed_end(self.data))
        } else {
            None
        }
    }
}

/// Takes a stream of events line by line.
pub struct EventStream {
    in_head: bool,
    data: String,
}

impl View for EventStream {
    type V = StreamView;

    closed spec fn view(&self) -> StreamView {
        StreamView { in_head: self.in_head, data: self.data@ }
    }
}

impl EventStream {
    pub fn new() -> (r: Self)
        ensures
            r@ == (StreamView { in_head: true, data: Seq::empty() }),
    {
        EventStream { in_head: true, data: String::new() }
    }

    /// Whether the head of the stream has not ended yet.
    pub fn in_head(&self) -> (r: bool)
        ensures
            r == self@.in_head,
    {
        self.in_head
    }

    /// Takes the end of the head for granted: what follows is data.
    pub fn end_head(&mut self)
        ensures
            final(self)@ == (StreamView { in_head: false, ..old(self)@ }),
    {
        self.in_head = false;
    }

    /// What is wrong with a stream that ends here: that its head did not end.
    pub fn complaint_at_end(&self) -> (r: Option<&'static str>)
        ensures
            match r {
                Some(text) => self@.in_head && text@ == "closed before headers"@,
                None => !self@.in_head,
            },
    {
        if self.in_head {
            Some("closed before headers")
        } else {
            None
        }
    }

    /// Takes one line, and returns the event that it completes.
    pub fn feed(&mut self, line: &str, trims_start: bool) -> (r: Option<String>)
        ensures
            final(self)@ == old(self)@.after(line@, trims_start),
            match r {
                Some(text) => old(self)@.event(line@) == Some(text@),
                None => old(self)@.event(line@) is None,
            },
    {
        proof {
            reveal_strlit("data:");
        }
        if self.in_head {
            if same_text(line, "\r\n") {
                self.in_head = false;
            }
            return None;
        }
        if starts_with(line, "data:") {
            let rest = skip_chars(line, 5);
            let payload = if trims_start {
                trim(rest.as_str())
            } else {
                trim_end(rest.as_str())
            };
            push_text(&mut self.data, payload.as_str());
            push_text(&mut self.data, "\n");
            None
        } else if same_text(line, "\r\n") || same_text(line, "\n") {
            if self.data.as_str().is_empty() {
                assert(self.data@ =~= Seq::empty());
                None
            } else {
                let event = trim_end(self.data.as_str());
                self.data = String::new();
                Some(event)
            }
        } else {
            None
        }
    }
}

/// A blank line between events changes nothing.
pub proof fn law_blank_lines_are_idle(s: StreamView, trims_start: bool)
    requires
        !s.in_head,
        s.data.len() == 0,
    ensures
        s.after("\n"@, trims_start) == s,
        s.event("\n"@) is None,
{
    reveal_strlit("\n");
    reveal_strlit("data:");
    assert(s.data =~= Seq::empty());
}

/// Lines of data gather, each as a line of its own, until a blank line; what has gathered then is the
/// event, and the next one starts from nothing.
pub proof fn law_data_gathers_until_a_blank_line(s: StreamView, text: Seq<char>, trims_start: bool)
    requires
        !s.in_head,
    ensures
        ({
            let line = "data:"@ + text;
            let kept_text = if trims_start {
                trimmed(text)
            } else {
                trimmed_end(text)
            };
            let next = s.after(line, trims_start);
            &&& s.event(line) is None
            &&& !next.in_head
            &&& next.data == s.data + kept_text + seq!['\n']
            &&& next.event("\n"@) == Some(trimmed_end(next.data))
            &&& next.event("\r\n"@) == Some(trimmed_end(next.data))
            &&& next.after("\n"@, trims_start).data.len() == 0
            &&& next.after("\r\n"@, trims_start).data.len() == 0
        }),
{
    let line = "data:"@ + text;
    reveal_strlit("data:");
    reveal_strlit("\n");
    reveal_strlit("\r\n");
    assert(line.take(5) =~= "data:"@);
    assert(line.skip(5) =~= text);
    assert("\n"@ =~= seq!['\n']);
    assert(begins_with(line, "data:"@));
    assert("\n"@.len() == 1 && "\r\n"@.len() == 2);
    assert(!begins_with("\n"@, "data:"@));
    assert(!begins_with("\r\n"@, "data:"@));
}

/// The head of a stream ends with its first blank line, and nothing in it counts as data.
pub proof fn law_head_ends_with_a_blank_line(s: StreamView, line: Seq<char>, trims_start: bool)
    requires
        s.in_head,
    ensures
        s.event(line) is None,
        s.after(line, trims_start).data == s.data,
        s.after(line, trims_start).in_head <==> line != "\r\n"@,
{
}

/// Any other line changes nothing.
pub proof fn law_other_lines_are_idle(s: StreamView, line: Seq<char>, trims_start: bool)
    requires
        !s.in_head,
        !begins_with(line, "data:"@),
        line != "\n"@,
        line != "\r\n"@,
    ensures
        s.event(line) is None,
        s.after(line, trims_start) == s,
{
}

} // verus!
