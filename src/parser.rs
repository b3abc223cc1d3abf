//! The report grammar and the streaming parser that turns report lines into
//! duplicate groups.
//!
//! A report is a sequence of blocks separated by blank lines. A block opens
//! with a header `<size> bytes each:` and lists one path per line. Each line
//! is trimmed before it is read:
//! - a blank line closes the open group, if any;
//! - a header whose first token is an unsigned integer closes the open group,
//!   if any, and opens a new one with that size;
//! - a line that ends like a header but whose first token is not an unsigned
//!   integer is dropped;
//! - any other line is a path of the open group, and is dropped when no
//!   group is open.
//! At the end of the input the open group, if any, is closed.

use vstd::prelude::*;
use crate::group::{DuplicateGroup, GroupModel};
use crate::text::{
    trimmed, has_suffix, first_token, parsed_usize, trim, ends_with, first_word, parse_usize,
};

verus! {

/// The literal that ends every header line.
pub open spec fn header_suffix() -> Seq<char> {
    "bytes each:"@
}

/// How the parser reads one line.
pub enum LineKind {
    Blank,
    Header(nat),
    Ignored,
    Entry(Seq<char>),
}

/// The size announced by a trimmed header line, if its first token is an
/// unsigned integer.
pub open spec fn header_size(t: Seq<char>) -> Option<nat> {
    match first_token(t) {
        Some(w) => match parsed_usize(w) {
            Some(n) => Some(n as nat),
            None => None,
        },
        None => None,
    }
}

pub open spec fn classify(line: Seq<char>) -> LineKind {
    let t = trimmed(line);
    if t.len() == 0 {
        LineKind::Blank
    } else if has_suffix(t, header_suffix()) {
        match header_size(t) {
            Some(n) => LineKind::Header(n),
            None => LineKind::Ignored,
        }
    } else {
        LineKind::Entry(t)
    }
}

/// The parser's abstract state: the groups closed so far and the open one.
pub struct ParseModel {
    pub done: Seq<GroupModel>,
    pub open: Option<GroupModel>,
}

/// The closed groups, followed by the open one if there is one.
pub open spec fn flushed(st: ParseModel) -> Seq<GroupModel> {
    match st.open {
        Some(g) => st.done.push(g),
        None => st.done,
    }
}

pub open spec fn initial_model() -> ParseModel {
    ParseModel { done: Seq::empty(), open: None }
}

/// The effect of one line on the parser's state.
pub open spec fn step(st: ParseModel, line: Seq<char>) -> ParseModel {
    match classify(line) {
        LineKind::Blank => ParseModel { done: flushed(st), open: None },
        LineKind::Header(n) => ParseModel {
            done: flushed(st),
            open: Some(GroupModel { per_file_bytes: n, paths: Seq::empty() }),
        },
        LineKind::Ignored => st,
        LineKind::Entry(t) => match st.open {
            Some(g) => ParseModel {
                done: st.done,
                open: Some(GroupModel { per_file_bytes: g.per_file_bytes, paths: g.paths.push(t) }),
            },
            None => st,
        },
    }
}

/// The state after reading `lines` in order.
pub open spec fn run(lines: Seq<Seq<char>>) -> ParseModel
    decreases lines.len(),
{
    if lines.len() == 0 {
        initial_model()
    } else {
        step(run(lines.drop_last()), lines.last())
    }
}

/// The groups that a report made of `lines` describes.
pub open spec fn parse_model(lines: Seq<Seq<char>>) -> Seq<GroupModel> {
    flushed(run(lines))
}

pub open spec fn models(gs: Seq<DuplicateGroup>) -> Seq<GroupModel> {
    gs.map_values(|g: DuplicateGroup| g@)
}

pub open spec fn line_texts(lines: Seq<String>) -> Seq<Seq<char>> {
    lines.map_values(|l: String| l@)
}

/// A parser fed one line at a time.
pub struct ReportParser {
    groups: Vec<DuplicateGroup>,
    open: Option<DuplicateGroup>,
}

impl View for ReportParser {
    type V = ParseModel;

    closed spec fn view(&self) -> ParseModel {
        ParseModel {
            done: models(self.groups@),
            open: match self.open {
                Some(g) => Some(g@),
                None => None,
            },
        }
    }
}

impl ReportParser {
    /// A parser that has read nothing.
    pub fn new() -> (r: ReportParser)
        ensures
            r@ == initial_model(),
    {
        let r = ReportParser { groups: Vec::new(), open: None };
        assert(r@.done =~= Seq::<GroupModel>::empty());
        r
    }

    fn close_open(&mut self)
        ensures
            final(self)@ == (ParseModel { done: flushed(old(self)@), open: None }),
    {
        match self.open.take() {
            Some(g) => {
                self.groups.push(g);
                assert(models(self.groups@) =~= flushed(old(self)@));
            },
            None => {},
        }
    }

    /// Reads one line of the report.
    pub fn feed_line(&mut self, line: &str)
        ensures
            final(self)@ == step(old(self)@, line@),
    {
        let t = trim(line);
        if t.is_empty() {
            self.close_open();
        } else if ends_with(t, "bytes each:") {
            match first_word(t) {
                Some(w) => match parse_usize(w) {
                    Some(n) => {
                        self.close_open();
                        self.open = Some(DuplicateGroup::new(n));
                    },
                    None => {},
                },
                None => {},
            }
        } else {
            match self.open.take() {
                Some(mut g) => {
                    let ghost before = g@;
                    g.paths.push(t.to_owned());
                    assert(g@.paths =~= before.paths.push(t@));
                    self.open = Some(g);
                },
                None => {},
            }
        }
    }

    /// Ends the input: the groups read, the open one included.
    pub fn finish(self) -> (r: Vec<DuplicateGroup>)
        ensures
            models(r@) == flushed(self@),
    {
        let mut s = self;
        s.close_open();
        s.groups
    }
}

/// Parses a whole report given as its lines.
pub fn parse_lines(lines: &Vec<String>) -> (r: Vec<DuplicateGroup>)
    ensures
        models(r@) == parse_model(line_texts(lines@)),
{
    let mut p = ReportParser::new();
    let mut i: usize = 0;
    while i < lines.len()
        invariant
            i <= lines.len(),
            p@ == run(line_texts(lines@.take(i as int))),
        decreases lines.len() - i,
    {
        proof {
            assert(line_texts(lines@.take(i as int + 1)).drop_last() =~= line_texts(
                lines@.take(i as int),
            ));
        }
        p.feed_line(lines[i].as_str());
        i = i + 1;
    }
    assert(lines@.take(i as int) =~= lines@);
    p.finish()
}

} // verus!
