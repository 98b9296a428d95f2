//! The decisions of a worker that reads the answer to a chunk line by line.
//!
//! The tool marks no end of batch, so the caller reads one line at a time and
//! hands over what happened. While some query has not been echoed yet, the
//! caller waits up to the idle window for each line; once every query has
//! been echoed, it only takes lines that are already there. An idle window
//! without output, or the end of the stream, ends the read; the absolute
//! deadline fails it.
use crate::codec::{observed, results_in, trimmed_all, ResultTable};
use crate::text::{view_set, views};
use crate::types::LookupError;
use vstd::prelude::*;

verus! {

/// What happened while waiting for the next line.
pub enum ReadEvent {
    /// A line arrived.
    Line(String),
    /// No line arrived within the wait.
    Idle,
    /// The tool closed its output.
    Eof,
    /// The absolute deadline of the chunk passed.
    Deadline,
    /// Reading failed.
    Failed(String),
}

/// How long to wait for the next line.
#[derive(Copy, Clone, Debug, PartialEq, Eq, Structural)]
pub enum Wait {
    /// Up to the idle window.
    Idle,
    /// Only for a line that is already there.
    Drain,
}

/// What to do after an event.
pub enum ReadStep {
    /// Read another line.
    More,
    /// Stop; the results are complete.
    Done,
    /// Stop; the chunk failed.
    Fail(LookupError),
}

/// The state of reading the answer to one chunk.
pub struct BatchReader {
    table: ResultTable,
}

impl BatchReader {
    /// The trimmed queries of the chunk.
    pub closed spec fn keys(&self) -> Seq<Seq<char>> {
        self.table.keys()
    }

    /// The lines read so far.
    pub closed spec fn lines(&self) -> Seq<Seq<char>> {
        self.table.lines()
    }

    pub closed spec fn wf(&self) -> bool {
        self.table.wf()
    }

    /// A reader for the answer to `queries`.
    pub fn new(queries: &[String]) -> (r: BatchReader)
        ensures
            r.wf(),
            r.keys() == trimmed_all(queries@),
            r.lines().len() == 0,
    {
        BatchReader { table: ResultTable::new(queries) }
    }

    /// How long to wait for the next line: only for lines already there once
    /// every query has been echoed.
    pub fn next_wait(&self) -> (r: Wait)
        requires
            self.wf(),
        ensures
            (r == Wait::Drain) <==> (forall|i: int|
                0 <= i < self.keys().len() ==> observed(self.lines(), #[trigger] self.keys()[i])),
    {
        assert(self.keys() == self.table.keys() && self.lines() == self.table.lines());
        if self.table.all_seen() {
            Wait::Drain
        } else {
            Wait::Idle
        }
    }

    /// Takes in what happened while waiting and says what to do next: a line
    /// is recorded and reading goes on; a quiet wait or the end of the stream
    /// ends the read; the deadline or a read error fails it.
    pub fn step(&mut self, event: ReadEvent) -> (r: ReadStep)
        requires
            old(self).wf(),
        ensures
            final(self).wf(),
            final(self).keys() == old(self).keys(),
            (match event {
                ReadEvent::Line(l) => final(self).lines() == old(self).lines().push(l@) && r is More,
                ReadEvent::Idle => final(self).lines() == old(self).lines() && r is Done,
                ReadEvent::Eof => final(self).lines() == old(self).lines() && r is Done,
                ReadEvent::Deadline => final(self).lines() == old(self).lines() && (r matches ReadStep::Fail(
                    LookupError::Timeout(_),
                )),
                ReadEvent::Failed(m) => final(self).lines() == old(self).lines() && (r matches ReadStep::Fail(
                    LookupError::Io(d),
                ) && d@ == m@),
            }),
    {
        match event {
            ReadEvent::Line(l) => {
                self.table.record(l.as_str());
                ReadStep::More
            },
            ReadEvent::Idle => ReadStep::Done,
            ReadEvent::Eof => ReadStep::Done,
            ReadEvent::Deadline => {
                proof {
                    reveal_strlit("no complete answer before the deadline");
                }
                ReadStep::Fail(
                    LookupError::Timeout(String::from_str("no complete answer before the deadline")),
                )
            },
            ReadEvent::Failed(m) => ReadStep::Fail(LookupError::Io(m)),
        }
    }

    /// The result list of each query of the chunk, in chunk order.
    pub fn results(&self) -> (r: Vec<Vec<String>>)
        requires
            self.wf(),
        ensures
            r.len() == self.keys().len(),
            forall|i: int|
                0 <= i < r.len() ==> view_set(#[trigger] r@[i]@) == results_in(
                    self.lines(),
                    self.keys()[i],
                ) && views(r@[i]@).no_duplicates(),
    {
        self.table.results()
    }
}

} // verus!
