//! The two-state pass over a listing: it decides where each function's
//! body starts and ends, and which lines are written out.

use vstd::prelude::*;
use crate::demangle::{display_name, display_name_of};
use crate::filter::{accepts, CriteriaSpec, FilterCriteria};
use crate::line::{
    classify, is_block_label, is_call, is_call_line, is_instruction_line, is_ret, is_ret_line,
    rewrite_call, rewritten_call, symbol_of, LineKind,
};

verus! {

/// A line that may belong to a function body: a block label or an
/// instruction.
pub open spec fn is_body_line(l: Seq<char>) -> bool {
    is_block_label(l) || is_instruction_line(l)
}

/// A body line that ends the function: its mnemonic begins with `ret`.
pub open spec fn closes_block(l: Seq<char>) -> bool {
    symbol_of(l) is None && is_body_line(l) && is_ret(l)
}

/// The text written for a body line.
pub open spec fn body_text(l: Seq<char>) -> Seq<char> {
    if is_call(l) {
        rewritten_call(l)
    } else {
        l
    }
}

/// One transition: from whether a body is being written and the next line,
/// to the next such flag and the line written, if any.
pub open spec fn step(emitting: bool, l: Seq<char>, c: CriteriaSpec) -> (bool, Option<Seq<char>>) {
    match symbol_of(l) {
        Some(name) => if accepts(c, name) {
            (true, Some(display_name_of(name)))
        } else {
            (false, None)
        },
        None => if emitting && is_body_line(l) {
            (!is_ret(l), Some(body_text(l)))
        } else {
            (emitting, None)
        },
    }
}

/// Whether a body is being written when line `j` comes.
pub open spec fn emitting_before(lines: Seq<Seq<char>>, c: CriteriaSpec, j: int) -> bool
    decreases j,
{
    if j <= 0 {
        false
    } else {
        step(emitting_before(lines, c, j - 1), lines[j - 1], c).0
    }
}

/// What is written for line `j`.
pub open spec fn output_at(lines: Seq<Seq<char>>, c: CriteriaSpec, j: int) -> Option<Seq<char>> {
    step(emitting_before(lines, c, j), lines[j], c).1
}

/// Everything written for the first `n` lines, in their order.
pub open spec fn outputs(lines: Seq<Seq<char>>, c: CriteriaSpec, n: int) -> Seq<Seq<char>>
    decreases n,
{
    if n <= 0 {
        seq![]
    } else {
        match output_at(lines, c, n - 1) {
            Some(o) => outputs(lines, c, n - 1).push(o),
            None => outputs(lines, c, n - 1),
        }
    }
}

pub open spec fn opt_view(o: Option<String>) -> Option<Seq<char>> {
    match o {
        Some(s) => Some(s@),
        None => None,
    }
}

/// The mathematical form of an extractor.
pub struct ExtractorSpec {
    pub criteria: CriteriaSpec,
    pub emitting: bool,
}

/// One pass over a listing, fed a line at a time.
pub struct Extractor {
    criteria: FilterCriteria,
    emitting: bool,
}

impl View for Extractor {
    type V = ExtractorSpec;

    closed spec fn view(&self) -> ExtractorSpec {
        ExtractorSpec { criteria: self.criteria@, emitting: self.emitting }
    }
}

impl Extractor {
    /// A pass that has seen no line yet.
    pub fn new(criteria: FilterCriteria) -> (r: Extractor)
        ensures
            r@ == (ExtractorSpec { criteria: criteria@, emitting: false }),
    {
        Extractor { criteria, emitting: false }
    }

    /// Takes the next line, and gives back the line to write for it, if any.
    pub fn feed(&mut self, line: &str) -> (r: Option<String>)
        ensures
            final(self)@.criteria == old(self)@.criteria,
            (final(self)@.emitting, opt_view(r)) == step(old(self)@.emitting, line@, old(self)@.criteria),
    {
        match classify(line) {
            LineKind::Symbol { name } => {
                if self.criteria.accepts(name.as_str()) {
                    self.emitting = true;
                    Some(display_name(name.as_str()))
                } else {
                    self.emitting = false;
                    None
                }
            },
            LineKind::BlockLabel | LineKind::Instruction => {
                if self.emitting {
                    let out = if is_call_line(line) {
                        rewrite_call(line)
                    } else {
                        String::from_str(line)
                    };
                    if is_ret_line(line) {
                        self.emitting = false;
                    }
                    Some(out)
                } else {
                    None
                }
            },
            LineKind::Other => None,
        }
    }
}

/// The view of a list of lines.
pub open spec fn lines_view(lines: Seq<String>) -> Seq<Seq<char>> {
    lines.map_values(|s: String| s@)
}

/// Runs one pass over `lines` and returns what it writes, in order.
pub fn extract(criteria: FilterCriteria, lines: &Vec<String>) -> (r: Vec<String>)
    ensures
        lines_view(r@) == outputs(lines_view(lines@), criteria@, lines.len() as int),
{
    let ghost c = criteria@;
    let ghost lv = lines_view(lines@);
    let mut ex = Extractor::new(criteria);
    let mut out: Vec<String> = Vec::new();
    let mut i: usize = 0;
    while i < lines.len()
        invariant
            i <= lines.len(),
            lv == lines_view(lines@),
            ex@.criteria == c,
            ex@.emitting == emitting_before(lv, c, i as int),
            lines_view(out@) == outputs(lv, c, i as int),
        decreases lines.len() - i,
    {
        let ghost prev = lines_view(out@);
        assert(lv[i as int] == lines[i as int]@);
        match ex.feed(lines[i].as_str()) {
            Some(o) => {
                out.push(o);
                assert(lines_view(out@) =~= prev.push(output_at(lv, c, i as int)->0));
            },
            None => {},
        }
        i = i + 1;
    }
    out
}

/// The function declared at line `i` is accepted, and its body is still
/// open when line `j` comes: no symbol line and no closing line in between.
pub open spec fn open_from(lines: Seq<Seq<char>>, c: CriteriaSpec, i: int, j: int) -> bool {
    &&& 0 <= i < j
    &&& i < lines.len()
    &&& match symbol_of(lines[i]) {
        Some(name) => accepts(c, name),
        None => false,
    }
    &&& forall|k: int|
        i < k < j ==> symbol_of(#[trigger] lines[k]) is None && !closes_block(lines[k])
}

/// A body is written when line `j` comes exactly when the last symbol line
/// before it was accepted and no line since has closed that body.
pub proof fn lemma_emitting_exactly_when_open(lines: Seq<Seq<char>>, c: CriteriaSpec, j: int)
    requires
        0 <= j <= lines.len(),
    ensures
        emitting_before(lines, c, j) <==> exists|i: int| #[trigger] open_from(lines, c, i, j),
    decreases j,
{
    if j > 0 {
        let l = lines[j - 1];
        lemma_emitting_exactly_when_open(lines, c, j - 1);
        match symbol_of(l) {
            Some(name) => {
                if accepts(c, name) {
                    assert(open_from(lines, c, j - 1, j));
                }
                if exists|i: int| #[trigger] open_from(lines, c, i, j) {
                    let i = choose|i: int| #[trigger] open_from(lines, c, i, j);
                    if i < j - 1 {
                        assert(symbol_of(lines[j - 1]) is None);
                    }
                }
            },
            None => {
                if exists|i: int| #[trigger] open_from(lines, c, i, j) {
                    let i = choose|i: int| #[trigger] open_from(lines, c, i, j);
                    assert(i != j - 1);
                    assert(open_from(lines, c, i, j - 1));
                    assert(!closes_block(l));
                }
                if exists|i: int| #[trigger] open_from(lines, c, i, j - 1) {
                    let i = choose|i: int| #[trigger] open_from(lines, c, i, j - 1);
                    if !closes_block(l) {
                        assert(open_from(lines, c, i, j));
                    }
                }
            },
        }
    } else {
        assert(!exists|i: int| #[trigger] open_from(lines, c, i, j));
    }
}

/// A line is written exactly when it declares an accepted function (its
/// header), or when it is a body line of an accepted function whose body is
/// still open: nothing of a rejected function is ever written.
pub proof fn lemma_written_exactly_for_accepted(lines: Seq<Seq<char>>, c: CriteriaSpec, j: int)
    requires
        0 <= j < lines.len(),
    ensures
        output_at(lines, c, j) is Some <==> match symbol_of(lines[j]) {
            Some(name) => accepts(c, name),
            None => is_body_line(lines[j]) && exists|i: int| #[trigger] open_from(lines, c, i, j),
        },
{
    lemma_emitting_exactly_when_open(lines, c, j);
}

/// Once a function is accepted, each later block label or instruction is
/// written, up to and including the first line whose mnemonic begins with
/// `ret`, provided no other symbol line comes first.
pub proof fn lemma_body_written_until_ret(lines: Seq<Seq<char>>, c: CriteriaSpec, i: int, j: int)
    requires
        0 <= i < j < lines.len(),
        symbol_of(lines[i]) is Some,
        accepts(c, symbol_of(lines[i])->0),
        forall|k: int| i < k < j ==> symbol_of(#[trigger] lines[k]) is None && !closes_block(lines[k]),
        symbol_of(lines[j]) is None,
        is_body_line(lines[j]),
    ensures
        emitting_before(lines, c, j),
        output_at(lines, c, j) == Some(body_text(lines[j])),
        emitting_before(lines, c, j + 1) == !is_ret(lines[j]),
{
    assert(open_from(lines, c, i, j));
    lemma_emitting_exactly_when_open(lines, c, j);
}

/// After a line that closes a body, nothing is being written until the
/// next symbol line.
pub proof fn lemma_idle_after_ret(lines: Seq<Seq<char>>, c: CriteriaSpec, i: int, j: int)
    requires
        0 <= i < j <= lines.len(),
        closes_block(lines[i]),
        forall|k: int| i < k < j ==> symbol_of(#[trigger] lines[k]) is None,
    ensures
        !emitting_before(lines, c, j),
    decreases j - i,
{
    if j == i + 1 {
    } else {
        lemma_idle_after_ret(lines, c, i, j - 1);
        assert(symbol_of(lines[j - 1]) is None);
    }
}

/// A symbol line decides alone whether its function is written: the state
/// before it plays no part, so an unfinished body is dropped.
pub proof fn lemma_symbol_redecides(e1: bool, e2: bool, l: Seq<char>, c: CriteriaSpec)
    requires
        symbol_of(l) is Some,
    ensures
        step(e1, l, c) == step(e2, l, c),
        step(e1, l, c).0 == accepts(c, symbol_of(l)->0),
{
}

/// Rewriting call targets only changes the text written: whether a body
/// line is written, and the next state, follow from the state, the line's
/// kind and whether its mnemonic begins with `ret`, never from its call
/// target.
pub proof fn lemma_call_rewrite_cosmetic(e: bool, l: Seq<char>, c: CriteriaSpec)
    requires
        symbol_of(l) is None,
    ensures
        step(e, l, c).1 is Some <==> (e && is_body_line(l)),
        step(e, l, c).0 == (e && !(is_body_line(l) && is_ret(l))),
        step(e, l, c).1 is Some ==> step(e, l, c).1 == Some(body_text(l)),
{
}

/// A line that is neither a symbol, a block label nor an instruction (a
/// directive) is never written, whatever the state.
pub proof fn lemma_directive_never_written(lines: Seq<Seq<char>>, c: CriteriaSpec, j: int)
    requires
        0 <= j < lines.len(),
        symbol_of(lines[j]) is None,
        !is_body_line(lines[j]),
    ensures
        output_at(lines, c, j) is None,
{
}

/// A call whose target does not demangle is written unchanged.
pub proof fn lemma_undemangled_call_unchanged(e: bool, l: Seq<char>, c: CriteriaSpec)
    requires
        e,
        symbol_of(l) is None,
        is_body_line(l),
        is_call(l),
        crate::demangle::demangled_form(l.skip(crate::line::target_start(l))) is None,
    ensures
        step(e, l, c).1 == Some(l),
{
}

/// Two lines of the same shape: the same demangled symbol (or none), both
/// body lines or neither, both `ret` or neither. They may differ in any
/// other text, a call target among it.
pub open spec fn same_shape(a: Seq<char>, b: Seq<char>) -> bool {
    &&& symbol_of(a) == symbol_of(b)
    &&& is_body_line(a) == is_body_line(b)
    &&& is_ret(a) == is_ret(b)
}

/// Over a whole pass, the state and which lines are written depend only on
/// the shape of each line, never on a call target: two listings whose lines
/// have pairwise the same shape are written at the same places, the same
/// number of lines in all, and identical lines give identical output.
pub proof fn lemma_pass_ignores_call_targets(
    l1: Seq<Seq<char>>,
    l2: Seq<Seq<char>>,
    c: CriteriaSpec,
    j: int,
)
    requires
        l1.len() == l2.len(),
        forall|k: int| 0 <= k < l1.len() ==> same_shape(#[trigger] l1[k], l2[k]),
        0 <= j <= l1.len(),
    ensures
        emitting_before(l1, c, j) == emitting_before(l2, c, j),
        outputs(l1, c, j).len() == outputs(l2, c, j).len(),
        j < l1.len() ==> (output_at(l1, c, j) is Some <==> output_at(l2, c, j) is Some),
        j < l1.len() && l1[j] == l2[j] ==> output_at(l1, c, j) == output_at(l2, c, j),
    decreases j,
{
    if j > 0 {
        lemma_pass_ignores_call_targets(l1, l2, c, j - 1);
        assert(same_shape(l1[j - 1], l2[j - 1]));
    }
    if j < l1.len() {
        assert(same_shape(l1[j], l2[j]));
    }
}

proof fn lemma_removal_aux(lines: Seq<Seq<char>>, c: CriteriaSpec, j: int, k: int)
    requires
        0 <= j < lines.len(),
        symbol_of(lines[j]) is None,
        !is_body_line(lines[j]),
        0 <= k <= lines.len(),
    ensures
        k <= j ==> emitting_before(lines.remove(j), c, k) == emitting_before(lines, c, k)
            && outputs(lines.remove(j), c, k) == outputs(lines, c, k),
        k > j ==> emitting_before(lines.remove(j), c, k - 1) == emitting_before(lines, c, k)
            && outputs(lines.remove(j), c, k - 1) == outputs(lines, c, k),
    decreases k,
{
    let r = lines.remove(j);
    if k > 0 {
        lemma_removal_aux(lines, c, j, k - 1);
        if k <= j {
            assert(r[k - 1] == lines[k - 1]);
        } else if k > j + 1 {
            assert(r[k - 2] == lines[k - 1]);
        }
    }
}

/// A directive line takes no part in a pass: removing it leaves everything
/// written unchanged.
pub proof fn lemma_directive_removable(lines: Seq<Seq<char>>, c: CriteriaSpec, j: int)
    requires
        0 <= j < lines.len(),
        symbol_of(lines[j]) is None,
        !is_body_line(lines[j]),
    ensures
        outputs(lines.remove(j), c, lines.len() - 1) == outputs(lines, c, lines.len() as int),
{
    lemma_removal_aux(lines, c, j, lines.len() as int);
}

proof fn lemma_restart_state(lines: Seq<Seq<char>>, c: CriteriaSpec, i: int, k: int)
    requires
        0 <= i < k <= lines.len(),
        symbol_of(lines[i]) is Some,
    ensures
        emitting_before(lines, c, k) == emitting_before(lines.skip(i), c, k - i),
    decreases k,
{
    let s = lines.skip(i);
    assert(s[k - 1 - i] == lines[k - 1]);
    if k > i + 1 {
        lemma_restart_state(lines, c, i, k - 1);
    } else {
        assert(emitting_before(s, c, 0) == false);
    }
}

/// From a symbol line on, a pass writes what it would write were the
/// listing to start at that line: what came before, a body left unfinished
/// among it, plays no part.
pub proof fn lemma_symbol_line_restarts_pass(lines: Seq<Seq<char>>, c: CriteriaSpec, i: int, j: int)
    requires
        0 <= i <= j < lines.len(),
        symbol_of(lines[i]) is Some,
    ensures
        output_at(lines, c, j) == output_at(lines.skip(i), c, j - i),
{
    let s = lines.skip(i);
    assert(s[j - i] == lines[j]);
    if j > i {
        lemma_restart_state(lines, c, i, j);
    }
}

/// After a rejected symbol line nothing is written until the next symbol
/// line.
pub proof fn lemma_rejected_function_silent(lines: Seq<Seq<char>>, c: CriteriaSpec, i: int, j: int)
    requires
        0 <= i < j < lines.len(),
        symbol_of(lines[i]) is Some,
        !accepts(c, symbol_of(lines[i])->0),
        forall|k: int| i < k <= j ==> symbol_of(#[trigger] lines[k]) is None,
    ensures
        output_at(lines, c, j) is None,
{
    lemma_emitting_exactly_when_open(lines, c, j);
    if exists|h: int| #[trigger] open_from(lines, c, h, j) {
        let h = choose|h: int| #[trigger] open_from(lines, c, h, j);
        if h < i {
            assert(symbol_of(lines[i]) is None);
        } else if h > i {
            assert(symbol_of(lines[h]) is None);
        }
    }
    assert(symbol_of(lines[j]) is None);
}

} // verus!
