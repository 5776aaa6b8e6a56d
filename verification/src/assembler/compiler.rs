pub mod driver;
pub mod error;
pub mod objects;
pub mod parser;
pub mod unit;

use crate::assembler::error::raise;
use crate::assembler::error::{is_single_error, Error, ErrorType};
use crate::assembler::parser::keyword::{is_instruction_keyword, spec_keyword_inx, Keyword};
use crate::assembler::parser::lexer::LexIdent;
use crate::assembler::parser::{asts_view, operand_view, parse_splits_at, spec_parse_at, try_parse, Ast, AstView, Operand, OperandView};
use crate::assembler::program::{spec_value_from_str, Code, Program, Value};
use crate::assembler::stream::TokenStream;
use crate::assembler::target::Instruction;
use vstd::prelude::*;

verus! {

/// Where a label stands while a program is compiled: resolved to its offset in
/// the code block, or still unknown together with the positions waiting for it.
#[derive(Clone, Debug)]
pub enum LabelOffset {
    Resolved(usize),
    Unresolved(Vec<usize>),
}

/// A cell of the code being assembled, a use of a label left open.
pub enum Cell {
    Fixed(Code),
    LabelRef(Seq<char>),
}

/// The cell holding instruction `i`.
pub open spec fn inx_cell(i: Instruction) -> Cell {
    Cell::Fixed(Code::Instruction(i))
}

/// Both parts, one after the other, when neither panics.
pub open spec fn cat(a: Option<Seq<Cell>>, b: Option<Seq<Cell>>) -> Option<Seq<Cell>> {
    match (a, b) {
        (Some(x), Some(y)) => Some(x + y),
        _ => None,
    }
}

/// The cells an operand compiles to; `None` where compiling it panics (a
/// constant that does not read, or a dereference where none is allowed).
pub open spec fn operand_cells(o: OperandView) -> Option<Seq<Cell>> {
    match o {
        OperandView::Ident(n) => Some(seq![Cell::LabelRef(n)]),
        OperandView::Register(r) => Some(seq![Cell::Fixed(Code::Register(r))]),
        OperandView::Value(t) => match spec_value_from_str(t) {
            Some(v) => Some(seq![Cell::Fixed(Code::Value(v))]),
            None => None,
        },
        OperandView::Deref(_) => None,
    }
}

/// The mnemonics of binary operations, which store their result in the first operand.
pub open spec fn is_arith(kw: Keyword) -> bool {
    kw == Keyword::Add || kw == Keyword::Sub || kw == Keyword::Mul || kw == Keyword::Div
        || kw == Keyword::Rem || kw == Keyword::Pow || kw == Keyword::Neg || kw == Keyword::And
        || kw == Keyword::Or || kw == Keyword::Xor || kw == Keyword::Shl || kw == Keyword::Shr
}

/// The cells that load the source operand of `mov`: through the address it
/// holds when it is dereferenced.
pub open spec fn mov_source(x: OperandView) -> Option<Seq<Cell>> {
    match x {
        OperandView::Deref(y) => cat(cat(Some(seq![inx_cell(Instruction::Push)]), operand_cells(*y)), Some(seq![inx_cell(Instruction::Load)])),
        _ => cat(Some(seq![inx_cell(Instruction::Push)]), operand_cells(x)),
    }
}

/// The cells that store into the target operand of `mov`: through the address
/// it holds when it is dereferenced.
pub open spec fn mov_target(x: OperandView) -> Option<Seq<Cell>> {
    match x {
        OperandView::Deref(y) => cat(cat(Some(seq![inx_cell(Instruction::Push)]), operand_cells(*y)), Some(seq![inx_cell(Instruction::Store)])),
        _ => cat(Some(seq![inx_cell(Instruction::Pop)]), operand_cells(x)),
    }
}

/// The cells of a binary operation: push both operands, apply, store into the first.
pub open spec fn arith_cells(kw: Keyword, x1: OperandView, x2: OperandView) -> Option<Seq<Cell>> {
    cat(cat(cat(cat(cat(cat(Some(seq![inx_cell(Instruction::Push)]), operand_cells(x1)), Some(seq![inx_cell(Instruction::Push)])),
        operand_cells(x2)), Some(seq![inx_cell(spec_keyword_inx(kw))])), Some(seq![inx_cell(Instruction::Pop)])), operand_cells(x1))
}

/// What compiling one element does.
pub enum Step {
    Emit(Seq<Cell>),
    Declare(Seq<char>),
    NotAValue,
    Panic,
}

/// Emits the cells, or panics where they do.
pub open spec fn emit_or_panic(c: Option<Seq<Cell>>) -> Step {
    match c {
        Some(cs) => Step::Emit(cs),
        None => Step::Panic,
    }
}

/// What compiling the element `a` does.
pub open spec fn spec_step(a: AstView) -> Step {
    match a {
        AstView::Label(n) => Step::Declare(n),
        AstView::Declare(t) => match spec_value_from_str(t) {
            Some(v) => Step::Emit(seq![Cell::Fixed(Code::Value(v))]),
            None => Step::Panic,
        },
        AstView::Statement(kw) => if is_instruction_keyword(kw) {
            Step::Emit(seq![inx_cell(spec_keyword_inx(kw))])
        } else {
            Step::Panic
        },
        AstView::Statement1(kw, x) => if kw == Keyword::Dv {
            match x {
                OperandView::Value(t) => match spec_value_from_str(t) {
                    Some(v) => Step::Emit(seq![Cell::Fixed(Code::Value(v))]),
                    None => Step::Panic,
                },
                _ => Step::NotAValue,
            }
        } else if is_instruction_keyword(kw) {
            emit_or_panic(cat(Some(seq![inx_cell(spec_keyword_inx(kw))]), operand_cells(x)))
        } else {
            Step::Panic
        },
        AstView::Statement2(kw, x1, x2) => if kw == Keyword::Mov {
            emit_or_panic(cat(mov_source(x2), mov_target(x1)))
        } else if is_arith(kw) {
            emit_or_panic(arith_cells(kw, x1, x2))
        } else if is_instruction_keyword(kw) {
            emit_or_panic(cat(cat(Some(seq![inx_cell(spec_keyword_inx(kw))]), operand_cells(x1)), operand_cells(x2)))
        } else {
            Step::Panic
        },
    }
}

/// Why a compilation stopped early.
pub enum Fault {
    Redeclared(Seq<char>),
    NotAValue,
    Panic,
}

/// The state of a compilation: the cells emitted, the labels declared with
/// their offsets, the label names in the order they first appeared, and the
/// fault that stopped it, if any.
pub struct PassState {
    pub cells: Seq<Cell>,
    pub decls: Seq<(Seq<char>, int)>,
    pub names: Seq<Seq<char>>,
    pub fault: Option<Fault>,
}

/// The offset label `n` was declared at, if it was.
pub open spec fn decl_offset(decls: Seq<(Seq<char>, int)>, n: Seq<char>) -> Option<int>
    decreases decls.len(),
{
    if decls.len() == 0 {
        None
    } else if decls.last().0 == n {
        Some(decls.last().1)
    } else {
        decl_offset(decls.drop_last(), n)
    }
}

/// `names` with `n` appended unless it is there already.
pub open spec fn add_name(names: Seq<Seq<char>>, n: Seq<char>) -> Seq<Seq<char>> {
    if names.contains(n) {
        names
    } else {
        names.push(n)
    }
}

/// `names` with the labels used in `cs` added, in order.
pub open spec fn add_ref_names(names: Seq<Seq<char>>, cs: Seq<Cell>) -> Seq<Seq<char>>
    decreases cs.len(),
{
    if cs.len() == 0 {
        names
    } else {
        let m = add_ref_names(names, cs.drop_last());
        match cs.last() {
            Cell::LabelRef(n) => add_name(m, n),
            Cell::Fixed(_) => m,
        }
    }
}

/// `s` after emitting the cells `cs`.
pub open spec fn emit_state(s: PassState, cs: Seq<Cell>) -> PassState {
    PassState { cells: s.cells + cs, decls: s.decls, names: add_ref_names(s.names, cs), fault: s.fault }
}

/// `s` after one step.
pub open spec fn spec_apply(s: PassState, step: Step) -> PassState {
    match step {
        Step::Emit(cs) => emit_state(s, cs),
        Step::Declare(n) => if decl_offset(s.decls, n) is Some {
            PassState { fault: Some(Fault::Redeclared(n)), ..s }
        } else {
            PassState {
                cells: s.cells,
                decls: s.decls.push((n, s.cells.len() as int)),
                names: add_name(s.names, n),
                fault: None,
            }
        },
        Step::NotAValue => PassState { fault: Some(Fault::NotAValue), ..s },
        Step::Panic => PassState { fault: Some(Fault::Panic), ..s },
    }
}

/// The state after compiling the first `k` elements of `asts`; a fault stops it.
pub open spec fn spec_pass(asts: Seq<AstView>, k: int) -> PassState
    decreases k,
{
    if k <= 0 {
        PassState { cells: Seq::empty(), decls: Seq::empty(), names: Seq::empty(), fault: None }
    } else {
        let s = spec_pass(asts, k - 1);
        if s.fault is Some {
            s
        } else {
            spec_apply(s, spec_step(asts[k - 1]))
        }
    }
}

/// The code a cell stands for: a label use is a reference to the offset of its
/// declaration, or the reference `usize::MAX` while the label is not declared.
pub open spec fn placeholder(c: Cell, decls: Seq<(Seq<char>, int)>) -> Code {
    match c {
        Cell::Fixed(x) => x,
        Cell::LabelRef(n) => Code::Value(
            Value::Ref(
                match decl_offset(decls, n) {
                    Some(o) => o as usize,
                    None => usize::MAX,
                },
            ),
        ),
    }
}

/// The first of `names` that is not declared, if any.
pub open spec fn first_undeclared(names: Seq<Seq<char>>, decls: Seq<(Seq<char>, int)>) -> Option<Seq<char>>
    decreases names.len(),
{
    if names.len() == 0 {
        None
    } else if decl_offset(decls, names[0]) is None {
        Some(names[0])
    } else {
        first_undeclared(names.drop_first(), decls)
    }
}

/// How compiling a parsed program ends.
pub enum Outcome {
    Done(Seq<Code>, Seq<(Seq<char>, usize)>),
    Redeclared(Seq<char>),
    NotAValue,
    NotDeclared(Seq<char>),
    Panic,
}

/// How compiling the parsed elements `asts` ends: the first fault in order;
/// else the first label (in the order labels first appear) that is used but
/// never declared; else the code with every label use resolved, and the labels
/// with their offsets.
pub open spec fn spec_compile(asts: Seq<AstView>) -> Outcome {
    let s = spec_pass(asts, asts.len() as int);
    match s.fault {
        Some(Fault::Panic) => Outcome::Panic,
        Some(Fault::Redeclared(n)) => Outcome::Redeclared(n),
        Some(Fault::NotAValue) => Outcome::NotAValue,
        None => match first_undeclared(s.names, s.decls) {
            Some(n) => Outcome::NotDeclared(n),
            None => Outcome::Done(
                s.cells.map_values(|c: Cell| placeholder(c, s.decls)),
                s.names.map_values(|n: Seq<char>| (n, decl_offset(s.decls, n)->0 as usize)),
            ),
        },
    }
}

/// The labels of a program by their names.
pub open spec fn labels_view(l: Seq<(String, usize)>) -> Seq<(Seq<char>, usize)> {
    l.map_values(|x: (String, usize)| (x.0@, x.1))
}

/// The positions of the uses of label `n` among `cells`, in order.
pub open spec fn ref_positions(cells: Seq<Cell>, n: Seq<char>) -> Seq<int>
    decreases cells.len(),
{
    if cells.len() == 0 {
        Seq::empty()
    } else {
        let r = ref_positions(cells.drop_last(), n);
        if cells.last() == Cell::LabelRef(n) {
            r.push(cells.len() - 1)
        } else {
            r
        }
    }
}

/// A table entry agrees with the state: a resolved label is declared at that
/// offset; an unresolved one is not declared, and waits at every use of it.
pub open spec fn entry_ok(e: LabelOffset, n: Seq<char>, s: PassState) -> bool {
    match e {
        LabelOffset::Resolved(off) => decl_offset(s.decls, n) == Some(off as int),
        LabelOffset::Unresolved(ps) => decl_offset(s.decls, n) is None && ps@.map_values(|u: usize| u as int)
            == ref_positions(s.cells, n),
    }
}

/// The code block and label table of a compiler stand for the state `s`.
pub open spec fn compiler_inv(cb: Seq<Code>, labels: Seq<(String, LabelOffset)>, s: PassState) -> bool {
    &&& s.fault is None
    &&& cb.len() == s.cells.len()
    &&& forall|p: int| 0 <= p < cb.len() ==> #[trigger] cb[p] == placeholder(s.cells[p], s.decls)
    &&& labels.len() == s.names.len()
    &&& forall|i: int| 0 <= i < labels.len() ==> (#[trigger] labels[i]).0@ == s.names[i] && entry_ok(labels[i].1, s.names[i], s)
    &&& s.names.no_duplicates()
    &&& forall|n: Seq<char>| #[trigger] decl_offset(s.decls, n) is Some ==> s.names.contains(n)
    &&& forall|n: Seq<char>| #[trigger] decl_offset(s.decls, n) matches Some(o) ==> 0 <= o <= s.cells.len()
    &&& forall|p: int| 0 <= p < s.cells.len() ==> (#[trigger] s.cells[p] matches Cell::LabelRef(n) ==> s.names.contains(n))
}

/// The uses of a label are exactly the positions of its cells.
proof fn lemma_ref_positions(cells: Seq<Cell>, n: Seq<char>)
    ensures
        forall|k: int| 0 <= k < ref_positions(cells, n).len() ==> 0 <= #[trigger] ref_positions(cells, n)[k] < cells.len(),
        forall|p: int| 0 <= p < cells.len() ==> (cells[p] == Cell::LabelRef(n) <==> ref_positions(cells, n).contains(p)),
    decreases cells.len(),
{
    if cells.len() > 0 {
        let d = cells.drop_last();
        lemma_ref_positions(d, n);
        let r = ref_positions(d, n);
        assert forall|p: int| 0 <= p < cells.len() implies (cells[p] == Cell::LabelRef(n) <==> ref_positions(cells, n).contains(p)) by {
            if p < d.len() {
                assert(cells[p] == d[p]);
                if r.contains(p) {
                    let k = choose|k: int| 0 <= k < r.len() && r[k] == p;
                    assert(ref_positions(cells, n)[k] == p);
                }
                if ref_positions(cells, n).contains(p) {
                    let k = choose|k: int| 0 <= k < ref_positions(cells, n).len() && ref_positions(cells, n)[k] == p;
                    if k < r.len() {
                        assert(r[k] == p);
                    }
                }
            } else {
                if cells[p] == Cell::LabelRef(n) {
                    assert(ref_positions(cells, n)[r.len() as int] == p);
                } else {
                    if ref_positions(cells, n).contains(p) {
                        let k = choose|k: int| 0 <= k < r.len() && r[k] == p;
                    }
                }
            }
        }
    }
}

/// Adding the names of two runs of cells one after the other adds the names of both.
proof fn lemma_add_ref_names_concat(names: Seq<Seq<char>>, a: Seq<Cell>, b: Seq<Cell>)
    ensures
        add_ref_names(add_ref_names(names, a), b) == add_ref_names(names, a + b),
    decreases b.len(),
{
    if b.len() == 0 {
        assert(a + b =~= a);
    } else {
        lemma_add_ref_names_concat(names, a, b.drop_last());
        assert((a + b).drop_last() =~= a + b.drop_last());
        assert((a + b).last() == b.last());
    }
}

/// Adding names keeps the ones there, keeps them distinct, and brings in
/// exactly the labels used.
proof fn lemma_add_ref_names(names: Seq<Seq<char>>, cs: Seq<Cell>)
    requires
        names.no_duplicates(),
    ensures
        add_ref_names(names, cs).no_duplicates(),
        names.is_prefix_of(add_ref_names(names, cs)),
        forall|k: int| 0 <= k < cs.len() ==> (#[trigger] cs[k] matches Cell::LabelRef(n) ==> add_ref_names(names, cs).contains(n)),
        forall|x: Seq<char>| #[trigger] add_ref_names(names, cs).contains(x) ==> names.contains(x) || exists|k: int|
            0 <= k < cs.len() && cs[k] == Cell::LabelRef(x),
    decreases cs.len(),
{
    if cs.len() > 0 {
        let d = cs.drop_last();
        lemma_add_ref_names(names, d);
        let m = add_ref_names(names, d);
        let r = add_ref_names(names, cs);
        assert forall|x: Seq<char>| m.contains(x) implies r.contains(x) by {
            let t = choose|t: int| 0 <= t < m.len() && m[t] == x;
            if r != m {
                assert(r[t] == m[t]);
            }
        }
        assert forall|k: int| 0 <= k < cs.len() implies (#[trigger] cs[k] matches Cell::LabelRef(n) ==> r.contains(n)) by {
            if k < d.len() {
                assert(cs[k] == d[k]);
            } else {
                if let Cell::LabelRef(n) = cs.last() {
                    if !m.contains(n) {
                        assert(r[m.len() as int] == n);
                    }
                }
            }
        }
        assert forall|x: Seq<char>| #[trigger] r.contains(x) implies names.contains(x) || exists|k: int|
            0 <= k < cs.len() && cs[k] == Cell::LabelRef(x) by {
            if m.contains(x) {
                if !names.contains(x) {
                    let k = choose|k: int| 0 <= k < d.len() && d[k] == Cell::LabelRef(x);
                    assert(cs[k] == d[k]);
                }
            } else {
                assert(cs[cs.len() - 1] == Cell::LabelRef(x));
            }
        }
        assert(names.is_prefix_of(r)) by {
            if r != m {
                assert(r.subrange(0, names.len() as int) =~= m.subrange(0, names.len() as int));
            }
        }
    }
}

/// Once a compilation has stopped, it stays as it stopped.
proof fn lemma_pass_stopped(asts: Seq<AstView>, k: int, m: int)
    requires
        0 <= k <= m,
        spec_pass(asts, k).fault is Some,
    ensures
        spec_pass(asts, m) == spec_pass(asts, k),
    decreases m - k,
{
    if m > k {
        lemma_pass_stopped(asts, k, m - 1);
    }
}

/// Each declared label got the offset of the code emitted before its
/// declaration: in a compilation that has not stopped, a label declared at
/// offset `o` has a declaration `asts[i]` with `o` cells emitted before it.
pub proof fn lemma_label_offset(asts: Seq<AstView>, k: int, n: Seq<char>)
    requires
        0 <= k <= asts.len(),
        spec_pass(asts, k).fault is None,
        decl_offset(spec_pass(asts, k).decls, n) is Some,
    ensures
        exists|i: int|
            0 <= i < k && asts[i] == AstView::Label(n) && decl_offset(spec_pass(asts, k).decls, n) == Some(
                spec_pass(asts, i).cells.len() as int,
            ),
    decreases k,
{
    let s = spec_pass(asts, k - 1);
    let t = spec_pass(asts, k);
    if s.fault is Some {
        lemma_pass_stopped(asts, k - 1, k);
        lemma_label_offset(asts, k - 1, n);
    } else {
        assert(t == spec_apply(s, spec_step(asts[k - 1])));
        match spec_step(asts[k - 1]) {
            Step::Declare(m) => {
                if decl_offset(s.decls, m) is Some {
                    assert(t.fault is Some);
                } else if m == n {
                    assert(asts[k - 1] == AstView::Label(n));
                    assert(t.decls.last() == (n, s.cells.len() as int));
                    assert(decl_offset(t.decls, n) == Some(s.cells.len() as int));
                } else {
                    assert(t.decls.drop_last() =~= s.decls);
                    assert(decl_offset(t.decls, n) == decl_offset(s.decls, n));
                    lemma_label_offset(asts, k - 1, n);
                }
            },
            Step::Emit(cs) => {
                assert(t.decls == s.decls);
                lemma_label_offset(asts, k - 1, n);
            },
            _ => {
                assert(t.fault is Some);
            },
        }
    }
}

/// When no name is undeclared, every name is declared.
proof fn lemma_first_undeclared(names: Seq<Seq<char>>, decls: Seq<(Seq<char>, int)>)
    ensures
        first_undeclared(names, decls) is None ==> forall|x: Seq<char>| #[trigger] names.contains(x) ==> decl_offset(
            decls,
            x,
        ) is Some,
    decreases names.len(),
{
    if names.len() > 0 {
        let d = names.drop_first();
        lemma_first_undeclared(d, decls);
        if first_undeclared(names, decls) is None {
            assert(decl_offset(decls, names[0]) is Some);
            assert(first_undeclared(d, decls) is None);
            assert forall|x: Seq<char>| #[trigger] names.contains(x) implies decl_offset(decls, x) is Some by {
                let t = choose|t: int| 0 <= t < names.len() && names[t] == x;
                if t > 0 {
                    assert(d[t - 1] == x);
                    assert(d.contains(x));
                }
            }
        }
    }
}

/// The label names of a compilation are distinct and include every label used.
proof fn lemma_pass_names(asts: Seq<AstView>, k: int)
    ensures
        spec_pass(asts, k).names.no_duplicates(),
        forall|p: int| 0 <= p < spec_pass(asts, k).cells.len() ==> (#[trigger] spec_pass(asts, k).cells[p] matches Cell::LabelRef(
            n,
        ) ==> spec_pass(asts, k).names.contains(n)),
    decreases k,
{
    if k > 0 {
        lemma_pass_names(asts, k - 1);
        let s = spec_pass(asts, k - 1);
        if s.fault is None {
            match spec_step(asts[k - 1]) {
                Step::Emit(cs) => {
                    lemma_add_ref_names(s.names, cs);
                    let t = spec_pass(asts, k);
                    assert forall|p: int| 0 <= p < t.cells.len() implies (#[trigger] t.cells[p] matches Cell::LabelRef(
                        n,
                    ) ==> t.names.contains(n)) by {
                        if p < s.cells.len() {
                            assert(t.cells[p] == s.cells[p]);
                            if let Cell::LabelRef(n) = s.cells[p] {
                                assert(s.names.contains(n));
                                let q = choose|q: int| 0 <= q < s.names.len() && s.names[q] == n;
                                assert(t.names[q] == n);
                            }
                        } else {
                            assert(t.cells[p] == cs[p - s.cells.len()]);
                        }
                    }
                },
                Step::Declare(n) => {
                    let t = spec_pass(asts, k);
                    if decl_offset(s.decls, n) is None {
                        assert forall|p: int| 0 <= p < t.cells.len() implies (#[trigger] t.cells[p] matches Cell::LabelRef(
                            m,
                        ) ==> t.names.contains(m)) by {
                            if let Cell::LabelRef(m) = s.cells[p] {
                                let q = choose|q: int| 0 <= q < s.names.len() && s.names[q] == m;
                                assert(t.names[q] == m);
                            }
                        }
                    }
                },
                _ => {},
            }
        }
    }
}

/// A compilation that succeeds leaves no open label use: every use of a label
/// in the code is a reference to the offset of that label's declaration.
pub proof fn lemma_compiled_uses_resolved(asts: Seq<AstView>, p: int)
    requires
        spec_compile(asts) is Done,
        0 <= p < spec_pass(asts, asts.len() as int).cells.len(),
    ensures
        ({
            let s = spec_pass(asts, asts.len() as int);
            s.cells[p] matches Cell::LabelRef(n) ==> (decl_offset(s.decls, n) matches Some(o) && spec_compile(
                asts,
            )->Done_0[p] == Code::Value(Value::Ref(o as usize)))
        }),
{
    let s = spec_pass(asts, asts.len() as int);
    lemma_pass_names(asts, asts.len() as int);
    lemma_first_undeclared(s.names, s.decls);
    if let Cell::LabelRef(n) = s.cells[p] {
        assert(s.names.contains(n));
    }
}

/// The position of the table entry of label `name`, if there is one.
fn find_label(labels: &Vec<(String, LabelOffset)>, name: &str) -> (res: Option<usize>)
    ensures
        match res {
            Some(i) => i < labels@.len() && labels@[i as int].0@ == name@,
            None => forall|i: int| 0 <= i < labels@.len() ==> (#[trigger] labels@[i]).0@ != name@,
        },
{
    let n = labels.len();
    let mut i: usize = 0;
    while i < n
        invariant
            n == labels@.len(),
            i <= n,
            forall|j: int| 0 <= j < i ==> (#[trigger] labels@[j]).0@ != name@,
        decreases n - i,
    {
        if crate::text::str_eq(labels[i].0.as_str(), name) {
            return Some(i);
        }
        i += 1;
    }
    None
}

/// A copy of an operand.
fn copy_operand(o: &Operand) -> (res: Operand)
    ensures
        res@ == o@,
    decreases o,
{
    match o {
        Operand::Deref(b) => Operand::Deref(Box::new(copy_operand(b))),
        Operand::Register(r) => Operand::Register(*r),
        Operand::Value(s) => Operand::Value(s.clone()),
        Operand::Ident(s) => Operand::Ident(s.clone()),
    }
}

/// Assembles the line-based assembly language: mnemonics become instructions,
/// operands become cells of their own, and labels become the offsets of their
/// declarations, uses before the declaration included.
pub struct Compiler {
    codeblock: Vec<Code>,
    labels: Vec<(String, LabelOffset)>,
}

pub type CompileResult = Result<Program, Error>;

impl Compiler {
    /// The compiler has not compiled anything yet.
    pub closed spec fn is_fresh(&self) -> bool {
        self.codeblock@.len() == 0 && self.labels@.len() == 0
    }

    /// A compiler that has not compiled anything yet.
    pub fn new() -> (res: Self)
        ensures
            res.is_fresh(),
    {
        Compiler { codeblock: Vec::new(), labels: Vec::new() }
    }

    fn push_code(&mut self, c: Code, Ghost(s): Ghost<PassState>)
        requires
            compiler_inv(old(self).codeblock@, old(self).labels@, s),
        ensures
            compiler_inv(final(self).codeblock@, final(self).labels@, emit_state(s, seq![Cell::Fixed(c)])),
    {
        let ghost t = emit_state(s, seq![Cell::Fixed(c)]);
        self.codeblock.push(c);
        proof {
            assert(seq![Cell::Fixed(c)].drop_last() =~= Seq::<Cell>::empty());
            assert(add_ref_names(s.names, Seq::<Cell>::empty()) == s.names);
            assert(t.names == s.names);
            assert forall|p: int| 0 <= p < self.codeblock@.len() implies #[trigger] self.codeblock@[p] == placeholder(t.cells[p], t.decls) by {
                if p < s.cells.len() {
                    assert(t.cells[p] == s.cells[p]);
                }
            }
            assert forall|i: int| 0 <= i < self.labels@.len() implies (#[trigger] self.labels@[i]).0@ == t.names[i] && entry_ok(self.labels@[i].1, t.names[i], t) by {
                let n = t.names[i];
                assert(ref_positions(t.cells, n) =~= ref_positions(s.cells, n)) by {
                    assert(t.cells.drop_last() =~= s.cells);
                }
            }
            assert forall|p: int| 0 <= p < t.cells.len() implies (#[trigger] t.cells[p] matches Cell::LabelRef(n) ==> t.names.contains(n)) by {
                if p < s.cells.len() {
                    assert(t.cells[p] == s.cells[p]);
                }
            }
        }
    }

    fn push_inx(&mut self, inx: Instruction, Ghost(s): Ghost<PassState>)
        requires
            compiler_inv(old(self).codeblock@, old(self).labels@, s),
        ensures
            compiler_inv(final(self).codeblock@, final(self).labels@, emit_state(s, seq![inx_cell(inx)])),
    {
        self.push_code(Code::Instruction(inx), Ghost(s));
    }

    /// Emits a use of label `name`: its offset when it is declared, otherwise
    /// the reference `usize::MAX`, remembered to be patched.
    fn reference_label(&mut self, name: String, Ghost(s): Ghost<PassState>)
        requires
            compiler_inv(old(self).codeblock@, old(self).labels@, s),
        ensures
            compiler_inv(final(self).codeblock@, final(self).labels@, emit_state(s, seq![Cell::LabelRef(name@)])),
    {
        let ghost n = name@;
        let ghost cs = seq![Cell::LabelRef(n)];
        let ghost t = emit_state(s, cs);
        let pos = self.codeblock.len();
        proof {
            assert(cs.drop_last() =~= Seq::<Cell>::empty());
            assert(add_ref_names(s.names, Seq::<Cell>::empty()) == s.names);
            assert(t.names == add_name(s.names, n));
            assert(t.cells.drop_last() =~= s.cells);
            assert(t.cells.last() == Cell::LabelRef(n));
        }
        match find_label(&self.labels, name.as_str()) {
            Some(i) => {
                let ghost labels0 = self.labels@;
                assert(s.names[i as int] == n);
                assert(s.names.contains(n));
                let entry = self.labels.remove(i);
                match entry.1 {
                    LabelOffset::Resolved(off) => {
                        self.labels.insert(i, (entry.0, LabelOffset::Resolved(off)));
                        self.codeblock.push(Code::Value(Value::Ref(off)));
                    },
                    LabelOffset::Unresolved(ps) => {
                        let mut ps = ps;
                        let ghost ps0 = ps@;
                        ps.push(pos);
                        proof {
                            assert(ps@.map_values(|u: usize| u as int) =~= ps0.map_values(|u: usize| u as int).push(pos as int));
                        }
                        self.labels.insert(i, (entry.0, LabelOffset::Unresolved(ps)));
                        self.codeblock.push(Code::Value(Value::Ref(usize::MAX)));
                    },
                }
                proof {
                    assert(self.labels@.len() == labels0.len());
                    assert forall|j: int| 0 <= j < self.labels@.len() implies (#[trigger] self.labels@[j]).0@ == t.names[j] && entry_ok(self.labels@[j].1, t.names[j], t) by {
                        let m = t.names[j];
                        if j != i {
                            assert(self.labels@[j] == labels0[j]);
                            assert(m != n) by {
                                assert(s.names[j] == m);
                            }
                            assert(ref_positions(t.cells, m) =~= ref_positions(s.cells, m));
                        }
                    }
                    assert forall|p: int| 0 <= p < self.codeblock@.len() implies #[trigger] self.codeblock@[p] == placeholder(t.cells[p], t.decls) by {
                        if p < s.cells.len() {
                            assert(t.cells[p] == s.cells[p]);
                        }
                    }
                    assert forall|p: int| 0 <= p < t.cells.len() implies (#[trigger] t.cells[p] matches Cell::LabelRef(m) ==> t.names.contains(m)) by {
                        if p < s.cells.len() {
                            assert(t.cells[p] == s.cells[p]);
                        }
                    }
                }
            },
            None => {
                let ghost labels0 = self.labels@;
                proof {
                    assert(!s.names.contains(n)) by {
                        if s.names.contains(n) {
                            let q = choose|q: int| 0 <= q < s.names.len() && s.names[q] == n;
                            assert(labels0[q].0@ == n);
                        }
                    }
                    assert(decl_offset(s.decls, n) is None);
                    assert(t.names == s.names.push(n));
                    assert(ref_positions(s.cells, n) =~= Seq::<int>::empty()) by {
                        lemma_ref_positions(s.cells, n);
                        if ref_positions(s.cells, n).len() > 0 {
                            let q = ref_positions(s.cells, n)[0];
                            assert(ref_positions(s.cells, n).contains(q));
                            assert(s.cells[q] == Cell::LabelRef(n));
                        }
                    }
                }
                let mut ps: Vec<usize> = Vec::new();
                ps.push(pos);
                proof {
                    assert(ps@.map_values(|u: usize| u as int) =~= seq![pos as int]);
                    assert(ref_positions(t.cells, n) =~= seq![pos as int]);
                }
                self.labels.push((name, LabelOffset::Unresolved(ps)));
                self.codeblock.push(Code::Value(Value::Ref(usize::MAX)));
                proof {
                    assert forall|j: int| 0 <= j < self.labels@.len() implies (#[trigger] self.labels@[j]).0@ == t.names[j] && entry_ok(self.labels@[j].1, t.names[j], t) by {
                        let m = t.names[j];
                        if j < labels0.len() {
                            assert(self.labels@[j] == labels0[j]);
                            assert(m != n) by {
                                assert(s.names[j] == m);
                            }
                            assert(ref_positions(t.cells, m) =~= ref_positions(s.cells, m));
                        }
                    }
                    assert forall|p: int| 0 <= p < self.codeblock@.len() implies #[trigger] self.codeblock@[p] == placeholder(t.cells[p], t.decls) by {
                        if p < s.cells.len() {
                            assert(t.cells[p] == s.cells[p]);
                        }
                    }
                    assert forall|p: int| 0 <= p < t.cells.len() implies (#[trigger] t.cells[p] matches Cell::LabelRef(m) ==> t.names.contains(m)) by {
                        if p < s.cells.len() {
                            assert(t.cells[p] == s.cells[p]);
                            if let Cell::LabelRef(m) = s.cells[p] {
                                let q = choose|q: int| 0 <= q < s.names.len() && s.names[q] == m;
                                assert(t.names[q] == m);
                            }
                        } else {
                            assert(t.names[s.names.len() as int] == n);
                        }
                    }
                    assert forall|x: Seq<char>| #[trigger] decl_offset(t.decls, x) is Some implies t.names.contains(x) by {
                        let q = choose|q: int| 0 <= q < s.names.len() && s.names[q] == x;
                        assert(t.names[q] == x);
                    }
                }
            },
        }
    }

    /// Emits the cells of an operand; `false` where compiling it panics.
    fn compile_operand(&mut self, op: Operand, Ghost(s): Ghost<PassState>) -> (ok: bool)
        requires
            compiler_inv(old(self).codeblock@, old(self).labels@, s),
        ensures
            match operand_cells(op@) {
                Some(cs) => ok && compiler_inv(final(self).codeblock@, final(self).labels@, emit_state(s, cs)),
                None => !ok,
            },
    {
        match op {
            Operand::Ident(name) => {
                self.reference_label(name, Ghost(s));
                true
            },
            Operand::Register(r) => {
                self.push_code(Code::Register(r), Ghost(s));
                true
            },
            Operand::Value(text) => match Value::try_from_str(text.as_str()) {
                Some(v) => {
                    self.push_code(Code::Value(v), Ghost(s));
                    true
                },
                None => false,
            },
            Operand::Deref(_) => false,
        }
    }
}

/// Emitting two runs of cells one after the other emits both.
proof fn lemma_emit_concat(s: PassState, a: Seq<Cell>, b: Seq<Cell>)
    ensures
        emit_state(emit_state(s, a), b) == emit_state(s, a + b),
{
    lemma_add_ref_names_concat(s.names, a, b);
    assert(s.cells + a + b =~= s.cells + (a + b));
}

/// The first undeclared name, when all names before position `i` are declared.
proof fn lemma_first_undeclared_at(names: Seq<Seq<char>>, decls: Seq<(Seq<char>, int)>, i: int)
    requires
        0 <= i <= names.len(),
        forall|j: int| 0 <= j < i ==> decl_offset(decls, #[trigger] names[j]) is Some,
    ensures
        i < names.len() && decl_offset(decls, names[i]) is None ==> first_undeclared(names, decls) == Some(names[i]),
        i == names.len() ==> first_undeclared(names, decls) is None,
    decreases i,
{
    if i > 0 {
        let d = names.drop_first();
        assert forall|j: int| 0 <= j < i - 1 implies decl_offset(decls, #[trigger] d[j]) is Some by {
            assert(d[j] == names[j + 1]);
        }
        lemma_first_undeclared_at(d, decls, i - 1);
        assert(decl_offset(decls, names[0]) is Some);
        if i < names.len() {
            assert(d[i - 1] == names[i]);
        }
    } else {
        if names.len() == 0 {
        }
    }
}

/// The error of a redeclared label.
pub open spec fn redeclared_msg(n: Seq<char>) -> Seq<char> {
    "redeclaration of label `"@ + n + "`"@
}

/// The error of a label used but never declared.
pub open spec fn not_declared_msg(n: Seq<char>) -> Seq<char> {
    "label `"@ + n + "` was not declared"@
}

/// `res` is what compiling `src` gives: `None` where parsing it panics, else
/// the parse error, or the outcome of compiling the parsed program (`None`
/// where that panics).
pub open spec fn compiled(src: Seq<char>, res: Option<CompileResult>) -> bool {
    if parse_splits_at(src, 0, 0) {
        res is None
    } else {
    match spec_parse_at(src, 0, 0) {
        Err(m) => res matches Some(Err(e)) && is_single_error(e, ErrorType::Untyped, (0usize, 0usize, 0usize), m),
        Ok(asts) => match spec_compile(asts) {
            Outcome::Panic => res is None,
            Outcome::Redeclared(n) => res matches Some(Err(e)) && is_single_error(e, ErrorType::Redeclared, (0usize, 0usize, 0usize), redeclared_msg(n)),
            Outcome::NotAValue => res matches Some(Err(e)) && e.ty == ErrorType::NotAValue && e.loc == (0usize, 0usize, 0usize) && e.content@.len() == 0,
            Outcome::NotDeclared(n) => res matches Some(Err(e)) && is_single_error(e, ErrorType::NotDeclared, (0usize, 0usize, 0usize), not_declared_msg(n)),
            Outcome::Done(code, labels) => res matches Some(Ok(p)) && p.code@ == code && labels_view(p.labels@) == labels,
        },
    }
    }
}

impl Compiler {
    /// Declares label `name` at the current offset and patches the uses that
    /// wait for it; a label declared before is an error.
    fn declare_label(&mut self, name: String, Ghost(s): Ghost<PassState>) -> (res: Result<(), Error>)
        requires
            compiler_inv(old(self).codeblock@, old(self).labels@, s),
        ensures
            decl_offset(s.decls, name@) is Some ==> (res matches Err(e) && is_single_error(e, ErrorType::Redeclared, (0usize, 0usize, 0usize), redeclared_msg(name@))),
            decl_offset(s.decls, name@) is None ==> (res is Ok && compiler_inv(final(self).codeblock@, final(self).labels@, spec_apply(s, Step::Declare(name@)))),
    {
        let ghost n = name@;
        let ghost t = spec_apply(s, Step::Declare(n));
        let off = self.codeblock.len();
        let ghost cb0 = self.codeblock@;
        let ghost labels0 = self.labels@;
        match find_label(&self.labels, name.as_str()) {
            Some(i) => {
                assert(s.names[i as int] == n);
                let entry = self.labels.remove(i);
                let ghost labels1 = self.labels@;
                match entry.1 {
                    LabelOffset::Resolved(_) => raise::redeclared(&LexIdent::new((0, 0, 0), name)),
                    LabelOffset::Unresolved(ps) => {
                        let ghost psi = ps@.map_values(|u: usize| u as int);
                        proof {
                            assert(entry_ok(labels0[i as int].1, n, s));
                            assert(psi == ref_positions(s.cells, n));
                            assert(decl_offset(s.decls, n) is None);
                            lemma_ref_positions(s.cells, n);
                            assert forall|q: int| 0 <= q < ps@.len() implies #[trigger] ps@[q] < cb0.len() by {
                                assert(psi[q] == ps@[q] as int);
                            }
                            assert(t.decls == s.decls.push((n, s.cells.len() as int)));
                            assert(t.decls.drop_last() =~= s.decls);
                            assert(t.names == s.names);
                        }
                        let mut k: usize = 0;
                        while k < ps.len()
                            invariant
                                k <= ps@.len(),
                                psi == ps@.map_values(|u: usize| u as int),
                                self.codeblock@.len() == cb0.len(),
                                self.labels@ == labels1,
                                forall|q: int| 0 <= q < ps@.len() ==> #[trigger] ps@[q] < cb0.len(),
                                forall|p: int| 0 <= p < cb0.len() ==> (psi.subrange(0, k as int).contains(p) ==> #[trigger] self.codeblock@[p] == Code::Value(Value::Ref(off))),
                                forall|p: int| 0 <= p < cb0.len() ==> (!psi.subrange(0, k as int).contains(p) ==> #[trigger] self.codeblock@[p] == cb0[p]),
                            decreases ps@.len() - k,
                        {
                            let ghost pre = psi.subrange(0, k as int);
                            let ghost post = psi.subrange(0, k + 1);
                            let at = ps[k];
                            self.codeblock.set(at, Code::Value(Value::Ref(off)));
                            proof {
                                assert(post[k as int] == at as int);
                                assert forall|p: int| 0 <= p < cb0.len() implies (post.contains(p) ==> #[trigger] self.codeblock@[p] == Code::Value(Value::Ref(off))) by {
                                    if post.contains(p) && p != at as int {
                                        let q = choose|q: int| 0 <= q < post.len() && post[q] == p;
                                        assert(q != k);
                                        assert(pre[q] == p);
                                        assert(pre.contains(p));
                                    }
                                }
                                assert forall|p: int| 0 <= p < cb0.len() implies (!post.contains(p) ==> #[trigger] self.codeblock@[p] == cb0[p]) by {
                                    if !post.contains(p) {
                                        assert(p != at as int);
                                        if pre.contains(p) {
                                            let q = choose|q: int| 0 <= q < pre.len() && pre[q] == p;
                                            assert(post[q] == p);
                                        }
                                    }
                                }
                            }
                            k += 1;
                        }
                        self.labels.insert(i, (entry.0, LabelOffset::Resolved(off)));
                        proof {
                            assert(psi.subrange(0, psi.len() as int) =~= psi);
                            assert forall|p: int| 0 <= p < self.codeblock@.len() implies #[trigger] self.codeblock@[p] == placeholder(t.cells[p], t.decls) by {
                                if s.cells[p] == Cell::LabelRef(n) {
                                    assert(psi.contains(p));
                                } else {
                                    assert(!psi.contains(p));
                                    assert(self.codeblock@[p] == cb0[p]);
                                    assert(cb0[p] == placeholder(s.cells[p], s.decls));
                                }
                            }
                            assert forall|j: int| 0 <= j < self.labels@.len() implies (#[trigger] self.labels@[j]).0@ == t.names[j] && entry_ok(self.labels@[j].1, t.names[j], t) by {
                                if j != i {
                                    assert(self.labels@[j] == labels0[j]);
                                    assert(t.names[j] != n) by {
                                        assert(s.names[j] == t.names[j]);
                                        assert(s.names[i as int] == n);
                                    }
                                    assert(entry_ok(labels0[j].1, s.names[j], s));
                                }
                            }
                            assert forall|x: Seq<char>| #[trigger] decl_offset(t.decls, x) is Some implies t.names.contains(x) by {
                                if x == n {
                                    assert(t.names[i as int] == n);
                                } else {
                                    assert(decl_offset(s.decls, x) is Some);
                                }
                            }
                            assert forall|x: Seq<char>| #[trigger] decl_offset(t.decls, x) is Some implies 0 <= decl_offset(t.decls, x)->0 <= t.cells.len() by {
                                if x != n {
                                    assert(decl_offset(t.decls, x) == decl_offset(s.decls, x));
                                }
                            }
                        }
                        Ok(())
                    },
                }
            },
            None => {
                proof {
                    assert(!s.names.contains(n)) by {
                        if s.names.contains(n) {
                            let q = choose|q: int| 0 <= q < s.names.len() && s.names[q] == n;
                            assert(labels0[q].0@ == n);
                        }
                    }
                    assert(decl_offset(s.decls, n) is None);
                    assert(t.names == s.names.push(n));
                    assert(t.decls.drop_last() =~= s.decls);
                    assert(t.decls.last() == (n, s.cells.len() as int));
                }
                self.labels.push((name, LabelOffset::Resolved(off)));
                proof {
                    assert forall|p: int| 0 <= p < self.codeblock@.len() implies #[trigger] self.codeblock@[p] == placeholder(t.cells[p], t.decls) by {
                        assert(cb0[p] == placeholder(s.cells[p], s.decls));
                        if let Cell::LabelRef(m) = s.cells[p] {
                            assert(s.names.contains(m));
                            assert(m != n);
                            assert(decl_offset(t.decls, m) == decl_offset(s.decls, m));
                        }
                    }
                    assert forall|j: int| 0 <= j < self.labels@.len() implies (#[trigger] self.labels@[j]).0@ == t.names[j] && entry_ok(self.labels@[j].1, t.names[j], t) by {
                        if j < labels0.len() {
                            assert(self.labels@[j] == labels0[j]);
                            assert(s.names[j] == t.names[j]);
                            assert(t.names[j] != n) by {
                                assert(s.names.contains(s.names[j]));
                            }
                            assert(entry_ok(labels0[j].1, s.names[j], s));
                            assert(decl_offset(t.decls, t.names[j]) == decl_offset(s.decls, t.names[j]));
                        }
                    }
                    assert forall|x: Seq<char>| #[trigger] decl_offset(t.decls, x) is Some implies t.names.contains(x) by {
                        if x == n {
                            assert(t.names[s.names.len() as int] == n);
                        } else {
                            assert(decl_offset(s.decls, x) is Some);
                            let q = choose|q: int| 0 <= q < s.names.len() && s.names[q] == x;
                            assert(t.names[q] == x);
                        }
                    }
                    assert forall|x: Seq<char>| #[trigger] decl_offset(t.decls, x) is Some implies 0 <= decl_offset(t.decls, x)->0 <= t.cells.len() by {
                        if x != n {
                            assert(decl_offset(t.decls, x) == decl_offset(s.decls, x));
                        }
                    }
                    assert forall|p: int| 0 <= p < t.cells.len() implies (#[trigger] t.cells[p] matches Cell::LabelRef(m) ==> t.names.contains(m)) by {
                        if let Cell::LabelRef(m) = t.cells[p] {
                            assert(s.names.contains(m));
                            let q = choose|q: int| 0 <= q < s.names.len() && s.names[q] == m;
                            assert(t.names[q] == m);
                        }
                    }
                }
                Ok(())
            },
        }
    }
}

impl Compiler {
    /// Emits the cells of one operand after `acc`, tracking the state.
    fn emit_operand(&mut self, op: Operand, Ghost(s): Ghost<PassState>, Ghost(acc): Ghost<Seq<Cell>>) -> (ok: bool)
        requires
            compiler_inv(old(self).codeblock@, old(self).labels@, emit_state(s, acc)),
        ensures
            match operand_cells(op@) {
                Some(cs) => ok && compiler_inv(final(self).codeblock@, final(self).labels@, emit_state(s, acc + cs)),
                None => !ok,
            },
    {
        let ok = self.compile_operand(op, Ghost(emit_state(s, acc)));
        proof {
            if let Some(cs) = operand_cells(op@) {
                lemma_emit_concat(s, acc, cs);
            }
        }
        ok
    }

    /// Emits one instruction after `acc`, tracking the state.
    fn emit_inx(&mut self, inx: Instruction, Ghost(s): Ghost<PassState>, Ghost(acc): Ghost<Seq<Cell>>)
        requires
            compiler_inv(old(self).codeblock@, old(self).labels@, emit_state(s, acc)),
        ensures
            compiler_inv(final(self).codeblock@, final(self).labels@, emit_state(s, acc + seq![inx_cell(inx)])),
    {
        self.push_inx(inx, Ghost(emit_state(s, acc)));
        proof {
            lemma_emit_concat(s, acc, seq![inx_cell(inx)]);
        }
    }

    /// Compiles one parsed element: `None` where the compilation panics.
    fn compile_step(&mut self, step: Ast, Ghost(s): Ghost<PassState>) -> (res: Option<Result<(), Error>>)
        requires
            compiler_inv(old(self).codeblock@, old(self).labels@, s),
        ensures
            match spec_step(step@) {
                Step::Emit(cs) => res matches Some(Ok(_)) && compiler_inv(final(self).codeblock@, final(self).labels@, emit_state(s, cs)),
                Step::Declare(n) => if decl_offset(s.decls, n) is Some {
                    res matches Some(Err(e)) && is_single_error(e, ErrorType::Redeclared, (0usize, 0usize, 0usize), redeclared_msg(n))
                } else {
                    res matches Some(Ok(_)) && compiler_inv(final(self).codeblock@, final(self).labels@, spec_apply(s, Step::Declare(n)))
                },
                Step::NotAValue => res matches Some(Err(e)) && e.ty == ErrorType::NotAValue && e.loc == (0usize, 0usize, 0usize) && e.content@.len() == 0,
                Step::Panic => res is None,
            },
    {
        proof {
            assert(s.cells + Seq::<Cell>::empty() =~= s.cells);
            assert(add_ref_names(s.names, Seq::<Cell>::empty()) == s.names);
            assert(emit_state(s, Seq::<Cell>::empty()) == s);
        }
        let ghost e = Seq::<Cell>::empty();
        match step {
            Ast::Label(name) => Some(self.declare_label(name, Ghost(s))),
            Ast::Declare(text) => match Value::try_from_str(text.as_str()) {
                Some(v) => {
                    self.push_code(Code::Value(v), Ghost(s));
                    Some(Ok(()))
                },
                None => None,
            },
            Ast::Statement(kw) => {
                if kw == Keyword::Dv || kw == Keyword::Mov {
                    return None;
                }
                self.push_inx(kw.into_inx(), Ghost(s));
                Some(Ok(()))
            },
            Ast::Statement1(kw, x) => {
                if kw == Keyword::Dv {
                    match x {
                        Operand::Value(text) => match Value::try_from_str(text.as_str()) {
                            Some(v) => {
                                self.push_code(Code::Value(v), Ghost(s));
                                Some(Ok(()))
                            },
                            None => None,
                        },
                        other => Some(raise::not_a_value(other)),
                    }
                } else if kw == Keyword::Mov {
                    None
                } else {
                    let ghost a1 = seq![inx_cell(spec_keyword_inx(kw))];
                    self.emit_inx(kw.into_inx(), Ghost(s), Ghost(e));
                    assert(e + a1 =~= a1);
                    if !self.emit_operand(x, Ghost(s), Ghost(a1)) {
                        return None;
                    }
                    Some(Ok(()))
                }
            },
            Ast::Statement2(kw, x1, x2) => {
                if kw == Keyword::Mov {
                    let ghost src_cells = mov_source(x2@);
                    let ghost dst_cells = mov_target(x1@);
                    let ghost mut acc = e;
                    match x2 {
                        Operand::Deref(y) => {
                            self.emit_inx(Instruction::Push, Ghost(s), Ghost(acc));
                            proof { acc = acc + seq![inx_cell(Instruction::Push)]; }
                            if !self.emit_operand(*y, Ghost(s), Ghost(acc)) {
                                return None;
                            }
                            proof { acc = acc + operand_cells(y@)->0; }
                            self.emit_inx(Instruction::Load, Ghost(s), Ghost(acc));
                            proof { acc = acc + seq![inx_cell(Instruction::Load)]; }
                        },
                        other => {
                            self.emit_inx(Instruction::Push, Ghost(s), Ghost(acc));
                            proof { acc = acc + seq![inx_cell(Instruction::Push)]; }
                            if !self.emit_operand(other, Ghost(s), Ghost(acc)) {
                                return None;
                            }
                            proof { acc = acc + operand_cells(other@)->0; }
                        },
                    }
                    proof {
                        assert(src_cells is Some);
                        assert(acc =~= src_cells->0);
                    }
                    let ghost mid = acc;
                    match x1 {
                        Operand::Deref(y) => {
                            self.emit_inx(Instruction::Push, Ghost(s), Ghost(acc));
                            proof { acc = acc + seq![inx_cell(Instruction::Push)]; }
                            if !self.emit_operand(*y, Ghost(s), Ghost(acc)) {
                                return None;
                            }
                            proof { acc = acc + operand_cells(y@)->0; }
                            self.emit_inx(Instruction::Store, Ghost(s), Ghost(acc));
                            proof { acc = acc + seq![inx_cell(Instruction::Store)]; }
                        },
                        other => {
                            self.emit_inx(Instruction::Pop, Ghost(s), Ghost(acc));
                            proof { acc = acc + seq![inx_cell(Instruction::Pop)]; }
                            if !self.emit_operand(other, Ghost(s), Ghost(acc)) {
                                return None;
                            }
                            proof { acc = acc + operand_cells(other@)->0; }
                        },
                    }
                    proof {
                        assert(dst_cells is Some);
                        assert(acc =~= mid + dst_cells->0);
                    }
                    Some(Ok(()))
                } else if kw == Keyword::Add || kw == Keyword::Sub || kw == Keyword::Mul || kw == Keyword::Div
                    || kw == Keyword::Rem || kw == Keyword::Pow || kw == Keyword::Neg || kw == Keyword::And
                    || kw == Keyword::Or || kw == Keyword::Xor || kw == Keyword::Shl || kw == Keyword::Shr {
                    let x1_again = copy_operand(&x1);
                    let ghost mut acc = e;
                    self.emit_inx(Instruction::Push, Ghost(s), Ghost(acc));
                    proof { acc = acc + seq![inx_cell(Instruction::Push)]; }
                    if !self.emit_operand(x1, Ghost(s), Ghost(acc)) {
                        return None;
                    }
                    proof { acc = acc + operand_cells(x1_again@)->0; }
                    self.emit_inx(Instruction::Push, Ghost(s), Ghost(acc));
                    proof { acc = acc + seq![inx_cell(Instruction::Push)]; }
                    if !self.emit_operand(x2, Ghost(s), Ghost(acc)) {
                        return None;
                    }
                    proof { acc = acc + operand_cells(x2@)->0; }
                    self.emit_inx(kw.into_inx(), Ghost(s), Ghost(acc));
                    proof { acc = acc + seq![inx_cell(spec_keyword_inx(kw))]; }
                    self.emit_inx(Instruction::Pop, Ghost(s), Ghost(acc));
                    proof { acc = acc + seq![inx_cell(Instruction::Pop)]; }
                    if !self.emit_operand(x1_again, Ghost(s), Ghost(acc)) {
                        return None;
                    }
                    proof { acc = acc + operand_cells(x1_again@)->0; }
                    Some(Ok(()))
                } else if kw == Keyword::Dv {
                    None
                } else {
                    let ghost mut acc = e;
                    self.emit_inx(kw.into_inx(), Ghost(s), Ghost(acc));
                    proof { acc = acc + seq![inx_cell(spec_keyword_inx(kw))]; }
                    if !self.emit_operand(x1, Ghost(s), Ghost(acc)) {
                        return None;
                    }
                    proof { acc = acc + operand_cells(x1@)->0; }
                    if !self.emit_operand(x2, Ghost(s), Ghost(acc)) {
                        return None;
                    }
                    Some(Ok(()))
                }
            },
        }
    }
}

impl Compiler {
    /// Compiles `src`; `None` where compiling panics.
    fn run(self, src: &str) -> (res: Option<CompileResult>)
        requires
            self.is_fresh(),
            src@.len() < usize::MAX,
        ensures
            compiled(src@, res),
    {
        let ast = match try_parse(src) {
            None => return None,
            Some(Ok(a)) => a,
            Some(Err(m)) => {
                return Some(Err(Error::new(ErrorType::Untyped).msg(m)));
            },
        };
        let ghost asts = asts_view(ast@);
        let n = ast.len();
        let mut it = TokenStream::new(ast);
        let mut this = self;
        let mut k: usize = 0;
        proof {
            assert(it@.subrange(0, it@.len() as int) =~= it@);
            assert(asts_view(it@) == asts);
            let s0 = spec_pass(asts, 0);
            assert(s0.names =~= Seq::<Seq<char>>::empty());
            assert(s0.names.no_duplicates());
        }
        while k < n
            invariant
                n == asts.len(),
                k <= n,
                it@.len() == n - k,
                forall|j: int| 0 <= j < it@.len() ==> #[trigger] it@[j]@ == asts[k + j],
                compiler_inv(this.codeblock@, this.labels@, spec_pass(asts, k as int)),
                !parse_splits_at(src@, 0, 0),
                match spec_parse_at(src@, 0, 0) {
                    Ok(v) => v == asts,
                    Err(_) => false,
                },
            decreases n - k,
        {
            let ghost s = spec_pass(asts, k as int);
            let ghost rest = it@;
            let step = it.next().unwrap();
            assert(step@ == asts[k as int]);
            let r = this.compile_step(step, Ghost(s));
            proof {
                assert(spec_pass(asts, k + 1) == spec_apply(s, spec_step(asts[k as int])));
                assert forall|j: int| 0 <= j < it@.len() implies #[trigger] it@[j]@ == asts[k + 1 + j] by {
                    assert(it@[j] == rest[j + 1]);
                }
            }
            match r {
                None => {
                    proof {
                        lemma_pass_stopped(asts, k + 1, n as int);
                    }
                    return None;
                },
                Some(Err(e)) => {
                    proof {
                        lemma_pass_stopped(asts, k + 1, n as int);
                    }
                    return Some(Err(e));
                },
                Some(Ok(())) => {},
            }
            k += 1;
        }
        let ghost s = spec_pass(asts, n as int);
        let m = this.labels.len();
        let mut labels: Vec<(String, usize)> = Vec::new();
        let mut i: usize = 0;
        while i < m
            invariant
                m == this.labels@.len(),
                i <= m,
                s == spec_pass(asts, n as int),
                n == asts.len(),
                compiler_inv(this.codeblock@, this.labels@, s),
                forall|j: int| 0 <= j < i ==> decl_offset(s.decls, #[trigger] s.names[j]) is Some,
                labels_view(labels@) == s.names.subrange(0, i as int).map_values(
                    |x: Seq<char>| (x, decl_offset(s.decls, x)->0 as usize),
                ),
                !parse_splits_at(src@, 0, 0),
                match spec_parse_at(src@, 0, 0) {
                    Ok(v) => v == asts,
                    Err(_) => false,
                },
            decreases m - i,
        {
            assert(entry_ok(this.labels@[i as int].1, s.names[i as int], s));
            match &this.labels[i].1 {
                LabelOffset::Resolved(off) => {
                    let ghost l0 = labels@;
                    labels.push((this.labels[i].0.clone(), *off));
                    proof {
                        assert(labels_view(labels@) =~= labels_view(l0).push((s.names[i as int], *off)));
                        assert(s.names.subrange(0, i + 1).map_values(|x: Seq<char>| (x, decl_offset(s.decls, x)->0 as usize))
                            =~= s.names.subrange(0, i as int).map_values(|x: Seq<char>| (x, decl_offset(s.decls, x)->0 as usize)).push(
                                (s.names[i as int], decl_offset(s.decls, s.names[i as int])->0 as usize)));
                    }
                },
                LabelOffset::Unresolved(_) => {
                    proof {
                        lemma_first_undeclared_at(s.names, s.decls, i as int);
                    }
                    return Some(raise::not_declared(&LexIdent::new((0, 0, 0), this.labels[i].0.clone())));
                },
            }
            i += 1;
        }
        proof {
            lemma_first_undeclared_at(s.names, s.decls, m as int);
            assert(s.names.subrange(0, m as int) =~= s.names);
            assert(this.codeblock@ =~= s.cells.map_values(|c: Cell| placeholder(c, s.decls)));
        }
        Some(Ok(Program { code: this.codeblock, labels }))
    }

    /// Compiles the source text of a program: each line holds a label, a
    /// statement, or both, and `;` starts a comment.
    pub fn compile(self, src: &str) -> (res: CompileResult)
        requires
            self.is_fresh(),
            src@.len() < usize::MAX,
            !parse_splits_at(src@, 0, 0),
            spec_parse_at(src@, 0, 0) matches Ok(asts) ==> !(spec_compile(asts) is Panic),
        ensures
            compiled(src@, Some(res)),
    {
        match self.run(src) {
            Some(r) => r,
            None => vstd::pervasive::unreached(),
        }
    }
}

/// Compiles `src` like `Compiler::compile`, or gives `None` where that panics:
/// where a line cuts a word inside a character, or a constant does not read as
/// `true`, `false` or an integer.
pub fn try_compile(src: &str) -> (res: Option<CompileResult>)
    requires
        src@.len() < usize::MAX,
    ensures
        compiled(src@, res),
{
    Compiler::new().run(src)
}

} // verus!
