//! The M3U reader: line-oriented, path entries only. URL entries, comment
//! lines and blank lines are silently skipped; no header is required.

use vstd::prelude::*;
use crate::lines::{crlf_lines, crlf_split};
use crate::strutil::{contains_seq, contains_substring};

verus! {

/// Whether a line is a path entry: non-empty, no comment marker, and no
/// URL scheme separator.
pub open spec fn is_entry(l: Seq<char>) -> bool {
    l.len() > 0 && l[0] != '#' && !contains_seq(l, seq![':', '/', '/'])
}

/// The path entries among the given lines, in order.
pub open spec fn entries_of(lines: Seq<Seq<char>>) -> Seq<Seq<char>>
    decreases lines.len(),
{
    if lines.len() == 0 {
        Seq::empty()
    } else {
        let rest = entries_of(lines.drop_first());
        if is_entry(lines[0]) {
            seq![lines[0]] + rest
        } else {
            rest
        }
    }
}

/// The path entries of an M3U text: its lines (either line ending),
/// keeping only path entries.
pub open spec fn m3u_entries(s: Seq<char>) -> Seq<Seq<char>> {
    entries_of(crlf_lines(s))
}

/// A parsed playlist file: the path entries, in file order.
#[derive(Debug)]
pub struct M3u {
    content: Vec<String>,
}

impl View for M3u {
    type V = Seq<Seq<char>>;

    closed spec fn view(&self) -> Seq<Seq<char>> {
        self.content.deep_view()
    }
}

impl M3u {
    /// Parse an M3U text: accept path entries verbatim, skip URL entries,
    /// comments and blank lines.
    pub fn parse(content: &str) -> (r: M3u)
        ensures
            r@ == m3u_entries(content@),
    {
        proof {
            reveal_strlit("://");
            assert("://"@ =~= seq![':', '/', '/']);
        }
        let lines = crlf_split(content);
        let ghost lv = lines.deep_view();
        let mut kept: Vec<String> = Vec::new();
        let mut i: usize = 0;
        proof {
            assert(lv.skip(0) =~= lv);
        }
        while i < lines.len()
            invariant
                i <= lines@.len(),
                lv == lines.deep_view(),
                lv == crlf_lines(content@),
                entries_of(lv) =~~= kept.deep_view() + entries_of(lv.skip(i as int)),
            decreases lines@.len() - i,
        {
            proof {
                reveal_strlit("://");
                assert("://"@ =~= seq![':', '/', '/']);
                assert(lv.skip(i as int)[0] == lv[i as int]);
                assert(lv.skip(i as int).drop_first() =~= lv.skip(i + 1));
                assert(lines.deep_view()[i as int] == lines@[i as int]@);
            }
            let line = &lines[i];
            let len = line.as_str().unicode_len();
            if len > 0 && line.as_str().get_char(0) != '#' && !contains_substring(
                line.as_str(),
                "://",
            ) {
                kept.push(line.clone());
            }
            i += 1;
        }
        proof {
            assert(lv.skip(lv.len() as int) =~= Seq::empty());
            assert(kept.deep_view() =~~= entries_of(lv));
        }
        M3u { content: kept }
    }

    /// The entries, in file order.
    pub fn paths(&self) -> (r: &Vec<String>)
        ensures
            r.deep_view() == self@,
    {
        &self.content
    }
}

} // verus!
