use vstd::prelude::*;

verus! {

/// One fragment of a log line: narrative text, the name of an actor, or a number.
#[derive(Debug)]
pub enum LogPart {
    Text(String),
    Name(String),
    Amount(i64),
}

/// A log line, made of fragments that a renderer colours and joins with spaces.
#[derive(Debug)]
pub struct LogMessage {
    pub parts: Vec<LogPart>,
}

impl LogMessage {
    pub fn new() -> (r: LogMessage)
        ensures
            r.parts@.len() == 0,
    {
        LogMessage { parts: Vec::new() }
    }

    pub fn add_part(self, part: LogPart) -> (r: LogMessage)
        ensures
            r.parts@ == self.parts@.push(part),
    {
        let mut parts = self.parts;
        parts.push(part);
        LogMessage { parts }
    }

    pub fn text(self, s: &str) -> (r: LogMessage)
        ensures
            r.parts@.len() == self.parts@.len() + 1,
            r.parts@.drop_last() == self.parts@,
            r.parts@.last() matches LogPart::Text(t) && t@ == s@,
    {
        let r = self.add_part(LogPart::Text(String::from_str(s)));
        proof {
            assert(r.parts@.drop_last() =~= self.parts@);
        }
        r
    }
}

/// The append-only log of the game: the resolvers only ever add lines to it.
pub struct LogBuffer {
    pub messages: Vec<LogMessage>,
}

impl LogBuffer {
    pub fn new() -> (r: LogBuffer)
        ensures
            r.messages@.len() == 0,
    {
        LogBuffer { messages: Vec::new() }
    }

    pub fn update_logs(&mut self, m: LogMessage)
        ensures
            final(self).messages@ == old(self).messages@.push(m),
    {
        self.messages.push(m);
    }
}

/// `b` is `a` with lines appended at its end.
pub open spec fn extends(a: Seq<LogMessage>, b: Seq<LogMessage>) -> bool {
    a.len() <= b.len() && forall|i: int| 0 <= i < a.len() ==> b[i] == a[i]
}

} // verus!
