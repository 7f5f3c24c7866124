//! Reference-page parser.
//!
//! A document is scanned line by line.  A line whose first non-whitespace
//! character is `>` contributes to the command description; a line starting
//! with `-` opens a new example and holds its description; a line starting
//! with a backtick supplies the pending example's command line.  Anything
//! else is ignored, so malformed input degrades to fewer examples, never to
//! a failure.

use vstd::prelude::*;
use crate::text::{
    trim_spec, strip_spec, trim_range, strip_range, to_chars,
};

verus! {

/// One example usage drawn from a reference page: what it does and the
/// command line that does it.
#[derive(Debug, Clone, PartialEq, Eq)]
pub struct ExamplePair {
    pub description: String,
    pub command_line: String,
}

/// Mathematical value of an [`ExamplePair`].
pub struct ExamplePairV {
    pub description: Seq<char>,
    pub command_line: Seq<char>,
}

impl DeepView for ExamplePair {
    type V = ExamplePairV;

    open spec fn deep_view(&self) -> ExamplePairV {
        ExamplePairV { description: self.description@, command_line: self.command_line@ }
    }
}

/// A parsed reference page: the command's name, its description, and its
/// examples in document order.
#[derive(Debug, Clone, PartialEq, Eq)]
pub struct CommandRecord {
    pub name: String,
    pub description: String,
    pub examples: Vec<ExamplePair>,
}

/// State of the line scanner: description lines seen so far, completed
/// example pairs, the pending example description (opened by a `-` line and
/// not yet closed by a backtick line), and the characters of the current,
/// unfinished line.
pub struct ParseState {
    pub desc_lines: Seq<Seq<char>>,
    pub examples: Seq<ExamplePairV>,
    pub pending: Option<Seq<char>>,
    pub cur: Seq<char>,
}

/// Scanner state before any input.
pub open spec fn init_state() -> ParseState {
    ParseState {
        desc_lines: Seq::empty(),
        examples: Seq::empty(),
        pending: None,
        cur: Seq::empty(),
    }
}

/// Consume one raw (untrimmed) line and return the state for the next line.
pub open spec fn line_step(st: ParseState, raw: Seq<char>) -> ParseState {
    let line = trim_spec(raw);
    if line.len() == 0 {
        ParseState {
            desc_lines: st.desc_lines,
            examples: st.examples,
            pending: st.pending,
            cur: Seq::empty(),
        }
    } else if line[0] == '>' {
        ParseState {
            desc_lines: st.desc_lines.push(trim_spec(line.drop_first())),
            examples: st.examples,
            pending: st.pending,
            cur: Seq::empty(),
        }
    } else if line[0] == '-' {
        ParseState {
            desc_lines: st.desc_lines,
            examples: st.examples,
            pending: Some(trim_spec(line.drop_first())),
            cur: Seq::empty(),
        }
    } else if line[0] == '`' {
        match st.pending {
            Some(d) => {
                let c = trim_spec(strip_spec(line, '`'));
                ParseState {
                    desc_lines: st.desc_lines,
                    examples: if d.len() > 0 && c.len() > 0 {
                        st.examples.push(ExamplePairV { description: d, command_line: c })
                    } else {
                        st.examples
                    },
                    pending: None,
                    cur: Seq::empty(),
                }
            },
            None => {
                ParseState {
                    desc_lines: st.desc_lines,
                    examples: st.examples,
                    pending: st.pending,
                    cur: Seq::empty(),
                }
            },
        }
    } else {
        ParseState {
            desc_lines: st.desc_lines,
            examples: st.examples,
            pending: st.pending,
            cur: Seq::empty(),
        }
    }
}

/// Consume one character: a newline finishes the current line, any other
/// character extends it.
pub open spec fn char_step(st: ParseState, c: char) -> ParseState {
    if c == '\n' {
        line_step(st, st.cur)
    } else {
        ParseState {
            desc_lines: st.desc_lines,
            examples: st.examples,
            pending: st.pending,
            cur: st.cur.push(c),
        }
    }
}

/// Scanner state after consuming every character of `s`.
pub open spec fn scan_chars(s: Seq<char>) -> ParseState
    decreases s.len(),
{
    if s.len() == 0 {
        init_state()
    } else {
        char_step(scan_chars(s.drop_last()), s.last())
    }
}

/// Scanner state after the whole document, the last (unterminated) line
/// included.
pub open spec fn end_state(doc: Seq<char>) -> ParseState {
    line_step(scan_chars(doc), scan_chars(doc).cur)
}

/// The given line contents joined with single spaces.
pub open spec fn join_spaces(ls: Seq<Seq<char>>) -> Seq<char>
    decreases ls.len(),
{
    if ls.len() == 0 {
        Seq::empty()
    } else if ls.len() == 1 {
        ls[0]
    } else {
        join_spaces(ls.drop_last()) + seq![' '] + ls.last()
    }
}

/// The description a document parses to: its `>` lines, stripped and
/// trimmed, joined with single spaces.
pub open spec fn description_of(doc: Seq<char>) -> Seq<char> {
    join_spaces(end_state(doc).desc_lines)
}

/// The examples a document parses to, in document order; only pairs whose
/// two fields are both non-empty are kept.
pub open spec fn examples_of(doc: Seq<char>) -> Seq<ExamplePairV> {
    end_state(doc).examples
}

/// The executable pending slot agrees with the spec-level one.
pub open spec fn pending_matches(p: Option<String>, q: Option<Seq<char>>) -> bool {
    match p {
        Some(s) => q is Some && q->0 == s@,
        None => q is None,
    }
}

proof fn lemma_join_push(ls: Seq<Seq<char>>, x: Seq<char>)
    ensures
        join_spaces(ls.push(x)) == if ls.len() == 0 {
            x
        } else {
            (join_spaces(ls) + seq![' '] + x)
        },
{
    assert(ls.push(x).drop_last() =~= ls);
    assert(ls.push(x).last() == x);
    if ls.len() == 0 {
        assert(ls.push(x)[0] == x);
    }
}

/// Fold `v[ls..le]` into the scanner state as one finished line, keeping the
/// executable accumulators in step with [`line_step`].
fn apply_line(
    chars: &Vec<char>,
    src: &str,
    ls: usize,
    le: usize,
    desc: &mut String,
    have_desc: &mut bool,
    examples: &mut Vec<ExamplePair>,
    pending: &mut Option<String>,
    st: Ghost<ParseState>,
)
    requires
        chars@ == src@,
        ls <= le <= chars@.len(),
        st@.cur == chars@.subrange(ls as int, le as int),
        old(desc)@ == join_spaces(st@.desc_lines),
        *old(have_desc) == (st@.desc_lines.len() > 0),
        old(examples).deep_view() == st@.examples,
        pending_matches(*old(pending), st@.pending),
    ensures
        final(desc)@ == join_spaces(line_step(st@, st@.cur).desc_lines),
        *final(have_desc) == (line_step(st@, st@.cur).desc_lines.len() > 0),
        final(examples).deep_view() == line_step(st@, st@.cur).examples,
        pending_matches(*final(pending), line_step(st@, st@.cur).pending),
{
    let ghost line = trim_spec(st@.cur);
    let (ts, te) = trim_range(chars, ls, le);
    proof {
        assert(line == chars@.subrange(ts as int, te as int));
    }
    if ts == te {
        return;
    }
    assert(line[0] == chars@[ts as int]);
    let c0 = chars[ts];
    if c0 == '>' {
        proof {
            assert(line.drop_first() =~= chars@.subrange(ts + 1, te as int));
        }
        let (cs, ce) = trim_range(chars, ts + 1, te);
        let piece = src.substring_char(cs, ce);
        proof {
            assert(piece@ == trim_spec(line.drop_first()));
            lemma_join_push(st@.desc_lines, trim_spec(line.drop_first()));
            reveal_strlit(" ");
            assert(" "@ =~= seq![' ']);
        }
        if *have_desc {
            desc.append(" ");
            desc.append(piece);
        } else {
            desc.append(piece);
            *have_desc = true;
        }
    } else if c0 == '-' {
        proof {
            assert(line.drop_first() =~= chars@.subrange(ts + 1, te as int));
        }
        let (cs, ce) = trim_range(chars, ts + 1, te);
        let piece = src.substring_char(cs, ce);
        *pending = Some(piece.to_owned());
    } else if c0 == '`' {
        let taken = pending.take();
        match taken {
            Some(d) => {
                let (ss, se) = strip_range(chars, ts, te, '`');
                let (cs, ce) = trim_range(chars, ss, se);
                let piece = src.substring_char(cs, ce);
                proof {
                    assert(chars@.subrange(ss as int, se as int) == strip_spec(line, '`'));
                    assert(piece@ == trim_spec(strip_spec(line, '`')));
                }
                let cmdline = piece.to_owned();
                if !d.as_str().is_empty() && !cmdline.as_str().is_empty() {
                    let ghost old_dv = examples.deep_view();
                    let ghost pv = ExamplePairV { description: d@, command_line: cmdline@ };
                    examples.push(ExamplePair { description: d, command_line: cmdline });
                    proof {
                        assert(examples.deep_view() =~= old_dv.push(pv));
                    }
                }
            },
            None => {},
        }
    }
}

proof fn lemma_scan_push(s: Seq<char>, c: char)
    ensures
        scan_chars(s.push(c)) == char_step(scan_chars(s), c),
{
    assert(s.push(c).drop_last() =~= s);
    assert(s.push(c).last() == c);
    assert(s.push(c).len() == s.len() + 1);
}

/// Parse one reference page.  The record's name comes from the caller (the
/// document's identifier), its description and examples from the text, as
/// [`description_of`] and [`examples_of`] state.  Malformed input never
/// fails: it only yields an empty description or fewer examples.
pub fn parse_tldr(md: &str, name: &str) -> (r: CommandRecord)
    ensures
        r.name@ == name@,
        r.description@ == description_of(md@),
        r.examples.deep_view() == examples_of(md@),
{
    let chars = to_chars(md);
    let n = chars.len();
    let mut desc = String::new();
    let mut have_desc = false;
    let mut examples: Vec<ExamplePair> = Vec::new();
    let mut pending: Option<String> = None;
    let mut ls: usize = 0;
    let mut i: usize = 0;
    while i < n
        invariant
            chars@ == md@,
            n == chars@.len(),
            ls <= i <= n,
            scan_chars(chars@.take(i as int)).cur == chars@.subrange(ls as int, i as int),
            desc@ == join_spaces(scan_chars(chars@.take(i as int)).desc_lines),
            have_desc == (scan_chars(chars@.take(i as int)).desc_lines.len() > 0),
            examples.deep_view() == scan_chars(chars@.take(i as int)).examples,
            pending_matches(pending, scan_chars(chars@.take(i as int)).pending),
        decreases n - i,
    {
        let ghost pre = scan_chars(chars@.take(i as int));
        proof {
            assert(chars@.take(i + 1) =~= chars@.take(i as int).push(chars@[i as int]));
            lemma_scan_push(chars@.take(i as int), chars@[i as int]);
        }
        let c = chars[i];
        if c == '\n' {
            apply_line(
                &chars,
                md,
                ls,
                i,
                &mut desc,
                &mut have_desc,
                &mut examples,
                &mut pending,
                Ghost(pre),
            );
            ls = i + 1;
            proof {
                assert(scan_chars(chars@.take(i + 1)).cur =~= chars@.subrange(
                    i + 1,
                    i + 1,
                ));
            }
        } else {
            proof {
                assert(scan_chars(chars@.take(i + 1)).cur =~= chars@.subrange(
                    ls as int,
                    i + 1,
                ));
            }
        }
        i = i + 1;
    }
    proof {
        assert(chars@.take(n as int) =~= chars@);
    }
    apply_line(
        &chars,
        md,
        ls,
        n,
        &mut desc,
        &mut have_desc,
        &mut examples,
        &mut pending,
        Ghost(scan_chars(chars@)),
    );
    CommandRecord { name: name.to_owned(), description: desc, examples }
}

} // verus!
