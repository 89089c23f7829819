//! Help and information texts: picking the parts of a sectioned text.
//!
//! A sectioned text starts with free lines (the general help) followed by
//! sections, each opened by a header line `[name]`.

use vstd::prelude::*;
use crate::text::{chars_of, lines, lines_spec, same_chars, string_of, trim_end, trim_end_chars};

verus! {

pub open spec fn opens_section(line: Seq<char>) -> bool {
    line.len() > 0 && line[0] == '['
}

/// The first `n` lines, each followed by a line feed.
pub open spec fn joined(ls: Seq<Seq<char>>, n: int) -> Seq<char>
    decreases n,
{
    if n <= 0 {
        Seq::empty()
    } else {
        joined(ls, n - 1) + ls[n - 1] + seq!['\n']
    }
}

/// The index of the first line from `i` on that opens a section (or the
/// number of lines).
pub open spec fn first_header(ls: Seq<Seq<char>>, i: int) -> int
    decreases ls.len() - i,
{
    if i < 0 || i >= ls.len() || opens_section(ls[i]) {
        i
    } else {
        first_header(ls, i + 1)
    }
}

/// The general help: the lines before the first section.
pub open spec fn help_spec(text: Seq<char>) -> Seq<char> {
    let ls = lines_spec(text);
    trim_end(joined(ls, first_header(ls, 0)))
}

/// Reading a section: whether its header was seen, how many header lines
/// were met since, and the lines taken.
pub struct SectionState {
    pub select: bool,
    pub brackets: int,
    pub acc: Seq<char>,
}

pub open spec fn section_step(st: SectionState, line: Seq<char>, header: Seq<char>) -> SectionState {
    if st.brackets >= 2 {
        st
    } else if !st.select && trim_end(line) != header {
        st
    } else if opens_section(line) {
        SectionState { select: true, brackets: st.brackets + 1, acc: st.acc }
    } else {
        SectionState { select: true, brackets: st.brackets, acc: st.acc + line + seq!['\n'] }
    }
}

pub open spec fn section_fold(ls: Seq<Seq<char>>, header: Seq<char>, n: int) -> SectionState
    decreases n,
{
    if n <= 0 {
        SectionState { select: false, brackets: 0, acc: Seq::empty() }
    } else {
        section_step(section_fold(ls, header, n - 1), ls[n - 1], header)
    }
}

/// The lines of the section `[symbol]`, up to the next header.
pub open spec fn section_spec(text: Seq<char>, symbol: Seq<char>) -> Seq<char> {
    let ls = lines_spec(text);
    trim_end(section_fold(ls, seq!['['] + symbol + seq![']'], ls.len() as int).acc)
}

/// The general help of a sectioned text.
pub fn get_help(text: &str) -> (r: String)
    ensures
        r@ == help_spec(text@),
{
    let ls = lines(text);
    let ghost sls = lines_spec(text@);
    let mut acc: Vec<char> = Vec::new();
    let mut i: usize = 0;
    while i < ls.len() && !(ls[i].len() > 0 && ls[i][0] == '[')
        invariant
            ls@.len() == sls.len(),
            forall|j: int| 0 <= j < ls@.len() ==> #[trigger] ls@[j]@ == sls[j],
            i <= ls@.len(),
            first_header(sls, 0) == first_header(sls, i as int),
            acc@ == joined(sls, i as int),
        decreases ls@.len() - i,
    {
        let line = &ls[i];
        let mut j: usize = 0;
        let ghost start = acc@;
        while j < line.len()
            invariant
                j <= line@.len(),
                acc@ == start + line@.take(j as int),
            decreases line@.len() - j,
        {
            acc.push(line[j]);
            j = j + 1;
            proof {
                assert(acc@ =~= start + line@.take(j as int));
            }
        }
        acc.push('\n');
        proof {
            assert(line@.take(j as int) =~= line@);
            assert(acc@ =~= joined(sls, i + 1));
        }
        i = i + 1;
    }
    let t = trim_end_chars(acc);
    string_of(&t)
}

/// The section `[symbol]` of a sectioned text, without its header.
pub fn get_str(text: &str, symbol: &str) -> (r: String)
    ensures
        r@ == section_spec(text@, symbol@),
{
    let ls = lines(text);
    let ghost sls = lines_spec(text@);
    let mut header: Vec<char> = Vec::new();
    header.push('[');
    let sym = chars_of(symbol);
    let mut k: usize = 0;
    while k < sym.len()
        invariant
            k <= sym@.len(),
            header@ == seq!['['] + sym@.take(k as int),
        decreases sym@.len() - k,
    {
        header.push(sym[k]);
        k = k + 1;
        proof {
            assert(header@ =~= seq!['['] + sym@.take(k as int));
        }
    }
    header.push(']');
    proof {
        assert(sym@.take(k as int) =~= sym@);
        assert(header@ =~= seq!['['] + symbol@ + seq![']']);
    }
    let mut select = false;
    let mut brackets: usize = 0;
    let mut acc: Vec<char> = Vec::new();
    let mut i: usize = 0;
    while i < ls.len()
        invariant
            ls@.len() == sls.len(),
            forall|j: int| 0 <= j < ls@.len() ==> #[trigger] ls@[j]@ == sls[j],
            i <= ls@.len(),
            brackets <= 2,
            section_fold(sls, header@, i as int) == (SectionState { select, brackets: brackets as int, acc: acc@ }),
        decreases ls@.len() - i,
    {
        let line = &ls[i];
        if brackets < 2 {
            let trimmed = trim_end_chars(line.clone());
            if select || same_chars(&trimmed, &header) {
                select = true;
                if line.len() > 0 && line[0] == '[' {
                    brackets = brackets + 1;
                } else {
                    let mut j: usize = 0;
                    let ghost start = acc@;
                    while j < line.len()
                        invariant
                            j <= line@.len(),
                            acc@ == start + line@.take(j as int),
                        decreases line@.len() - j,
                    {
                        acc.push(line[j]);
                        j = j + 1;
                        proof {
                            assert(acc@ =~= start + line@.take(j as int));
                        }
                    }
                    acc.push('\n');
                    proof {
                        assert(line@.take(j as int) =~= line@);
                        assert(acc@ =~= start + sls[i as int] + seq!['\n']);
                    }
                }
            }
        }
        i = i + 1;
    }
    let t = trim_end_chars(acc);
    string_of(&t)
}

} // verus!
