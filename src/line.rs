//! Classification of assembly lines, and the rewrite of call targets.

use vstd::prelude::*;
use crate::demangle::{demangle, demangled_form, display_name, display_name_of};
use crate::text::{chars_of, find_last, has_prefix_at, last_index_of, trim_start, trim_start_index, without_last};

verus! {

pub open spec fn block_label_marker() -> Seq<char> {
    seq!['.', 'L', 'B', 'B']
}

pub open spec fn call_mnemonic() -> Seq<char> {
    seq!['c', 'a', 'l', 'l']
}

pub open spec fn ret_mnemonic() -> Seq<char> {
    seq!['r', 'e', 't']
}

/// A basic-block label begins with `.LBB`.
pub open spec fn is_block_label(l: Seq<char>) -> bool {
    block_label_marker().is_prefix_of(l)
}

/// An instruction begins with a space or a tab and, once leading white
/// space is removed, does not begin with `.`.
pub open spec fn is_instruction_line(l: Seq<char>) -> bool {
    &&& l.len() > 0
    &&& (l[0] == ' ' || l[0] == '\t')
    &&& !(trim_start(l).len() > 0 && trim_start(l)[0] == '.')
}

/// The demangled name declared by a symbol line: the line without its
/// closing `:`, demangled.
pub open spec fn symbol_of(l: Seq<char>) -> Option<Seq<char>> {
    demangled_form(without_last(l))
}

pub open spec fn is_call(l: Seq<char>) -> bool {
    call_mnemonic().is_prefix_of(trim_start(l))
}

pub open spec fn is_ret(l: Seq<char>) -> bool {
    ret_mnemonic().is_prefix_of(trim_start(l))
}

/// Where the final tab-delimited field of `l` starts.
pub open spec fn target_start(l: Seq<char>) -> int {
    last_index_of(l, '\t') + 1
}

/// A call line with its target replaced by the display form of the target's
/// demangled name; unchanged where the target does not demangle.
pub open spec fn rewritten_call(l: Seq<char>) -> Seq<char> {
    match demangled_form(l.skip(target_start(l))) {
        Some(name) => l.take(target_start(l)) + display_name_of(name),
        None => l,
    }
}

/// What a line is.
#[derive(Debug, Clone, PartialEq, Eq)]
pub enum LineKind {
    /// Declares the function whose demangled name (with its hash) is `name`.
    Symbol { name: String },
    BlockLabel,
    Instruction,
    Other,
}

pub fn is_branch_label(line: &str) -> (r: bool)
    ensures
        r == is_block_label(line@),
{
    let cs = chars_of(line);
    let marker = vec!['.', 'L', 'B', 'B'];
    assert(marker@ =~= block_label_marker());
    let r = has_prefix_at(&cs, 0, &marker);
    assert(cs@.skip(0) =~= cs@);
    r
}

pub fn is_instruction(line: &str) -> (r: bool)
    ensures
        r == is_instruction_line(line@),
{
    let cs = chars_of(line);
    if cs.len() == 0 || !(cs[0] == ' ' || cs[0] == '\t') {
        return false;
    }
    let i = trim_start_index(&cs);
    !(i < cs.len() && cs[i] == '.')
}

/// Whether the line, without leading white space, begins with `p`.
fn trimmed_starts_with(line: &str, p: &Vec<char>) -> (r: bool)
    ensures
        r == p@.is_prefix_of(trim_start(line@)),
{
    let cs = chars_of(line);
    let i = trim_start_index(&cs);
    has_prefix_at(&cs, i, p)
}

pub fn is_call_line(line: &str) -> (r: bool)
    ensures
        r == is_call(line@),
{
    let p = vec!['c', 'a', 'l', 'l'];
    assert(p@ =~= call_mnemonic());
    trimmed_starts_with(line, &p)
}

pub fn is_ret_line(line: &str) -> (r: bool)
    ensures
        r == is_ret(line@),
{
    let p = vec!['r', 'e', 't'];
    assert(p@ =~= ret_mnemonic());
    trimmed_starts_with(line, &p)
}

/// Classifies a line. A line whose text before its last character
/// demangles declares a symbol; otherwise it is a block label, an
/// instruction, or something else.
pub fn classify(line: &str) -> (r: LineKind)
    ensures
        match r {
            LineKind::Symbol { name } => symbol_of(line@) == Some(name@),
            LineKind::BlockLabel => symbol_of(line@) is None && is_block_label(line@),
            LineKind::Instruction => symbol_of(line@) is None && !is_block_label(line@)
                && is_instruction_line(line@),
            LineKind::Other => symbol_of(line@) is None && !is_block_label(line@)
                && !is_instruction_line(line@),
        },
{
    let n = line.unicode_len();
    let head = if n == 0 {
        line
    } else {
        line.substring_char(0, n - 1)
    };
    assert(head@ == without_last(line@));
    match demangle(head) {
        Some(name) => LineKind::Symbol { name },
        None => {
            if is_branch_label(line) {
                LineKind::BlockLabel
            } else if is_instruction(line) {
                LineKind::Instruction
            } else {
                LineKind::Other
            }
        },
    }
}

/// Rewrites the target of a call line into the display form of its
/// demangled name, keeping everything up to and including the last tab.
pub fn rewrite_call(line: &str) -> (r: String)
    ensures
        r@ == rewritten_call(line@),
{
    let cs = chars_of(line);
    let start: usize = match find_last(&cs, '\t') {
        Some(k) => k + 1,
        None => 0,
    };
    let target = line.substring_char(start, cs.len());
    assert(target@ =~= line@.skip(target_start(line@)));
    match demangle(target) {
        Some(name) => {
            let shown = display_name(name.as_str());
            let kept = String::from_str(line.substring_char(0, start));
            assert(kept@ =~= line@.take(target_start(line@)));
            kept.concat(shown.as_str())
        },
        None => String::from_str(line),
    }
}

} // verus!
