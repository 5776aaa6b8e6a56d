use crate::assembler::compiler::error::raise::spec_not_a_value_msg;
use crate::assembler::compiler::error::{spec_expected_either_msg, spec_redeclared_msg, Error, ErrorType};
use crate::assembler::compiler::objects::ident::Ident;
use crate::assembler::compiler::objects::label::Label;
use crate::assembler::compiler::objects::statement::Statement;
use crate::assembler::compiler::objects::ty::Type;
use crate::assembler::compiler::parser::{
    asts_view, error_is, operand_view, operands_view, opt_operand_view, parse, spec_parse_at, try_parse, Ast, AstView, ErrorView, Operand,
    OperandView,
};
use crate::assembler::compiler::unit::{
    cast_pieces, castable, compilable, dv_castable, declared_in, find_entry, first_arg, inx_cell, is_operator, keeps_source, keys_unique, label_view,
    cells_of, labels_kept, link_ok, linked_len, merged_through, patch_table, shifted_entry, piece_cells, plain_ops, record_decl, record_one, record_pieces,
    record_use, reports_undeclared, uses_disjoint, uses_resolved, lemma_patch_table_resolved, spec_cast, stmt_args, stmt_pieces, subs_len, subs_ok, table_view, undeclared_uses, uses_below,
    view_has_key, LabelView, Piece, Unit,
};
use crate::assembler::parser::keyword::{spec_keyword_inx, Keyword};
use crate::assembler::target::Instruction;
use crate::text::str_eq;
use crate::assembler::program::{Code, Program, Value};
use vstd::prelude::*;

verus! {

/// What compiling changes of a unit: its cells and its labels.
pub struct UnitState {
    pub code: Seq<Code>,
    pub labels: Seq<(Ident, LabelView)>,
}

/// The cells and labels of a unit.
pub open spec fn unit_state(u: Unit) -> UnitState {
    UnitState { code: u.code@, labels: table_view(u.labels.entries@) }
}

/// The table after `.export` of the label `id`: the label of that name is
/// made public, or a new public label, neither declared nor used, is made.
pub open spec fn record_public(t: Seq<(Ident, LabelView)>, id: Ident) -> Seq<(Ident, LabelView)> {
    if view_has_key(t, id.raw@) {
        let k = choose|i: int| 0 <= i < t.len() && (#[trigger] t[i]).0.raw@ == id.raw@;
        t.update(k, (t[k].0, LabelView {
            decl: t[k].1.decl,
            locations: t[k].1.locations,
            parent: t[k].1.parent,
            public: true,
        }))
    } else {
        t.push((id, LabelView { decl: None, locations: Seq::empty(), parent: None, public: true }))
    }
}

/// A fresh error of kind `ty` at `(0, 0, 0)` with the message `msg`.
pub open spec fn plain_error(ty: ErrorType, msg: Seq<char>) -> ErrorView {
    ErrorView { ty: Some(ty), loc: (0usize, 0usize, 0usize), msg }
}

/// What one parsed element does to a unit: a label is declared at the
/// current end of the code (a label declared before is an error); `.export`
/// makes the label its operand names public; a statement is compiled as
/// `Unit::compile_statement` describes.
pub open spec fn ast_step(s: UnitState, a: Ast) -> Result<UnitState, ErrorView> {
    match a {
        Ast::Label(id) => if declared_in(s.labels, id.raw@) {
            Err(plain_error(ErrorType::Redeclared, spec_redeclared_msg(id)))
        } else {
            Ok(UnitState { code: s.code, labels: record_decl(s.labels, id, s.code.len() as usize) })
        },
        Ast::Macro(_, args) => match args@[0] {
            Operand::Ident(id) => Ok(UnitState { code: s.code, labels: record_public(s.labels, id) }),
            _ => Ok(s),
        },
        Ast::Statement(st) => if st.kw == Keyword::Dv {
            match first_arg(st) {
                None => Err(plain_error(ErrorType::ExpectedGot, spec_expected_either_msg(seq!["label"@, "const"@], None))),
                Some(Operand::Value(v)) => Ok(UnitState {
                    code: s.code.push(Code::Value(match st.ty {
                        Some(t) => spec_cast(v, t),
                        None => v,
                    })),
                    labels: s.labels,
                }),
                Some(other) => Err(plain_error(ErrorType::NotAValue, spec_not_a_value_msg(other))),
            }
        } else {
            Ok(UnitState {
                code: s.code + piece_cells(stmt_pieces(st)),
                labels: record_pieces(s.labels, stmt_pieces(st), s.code.len() as int),
            })
        },
        Ast::Declare(_) => Ok(s),
    }
}

/// The elements compiled in order from state `s`: the state reached, and
/// the error that stopped compiling, if one did (the state is then the one
/// before the failing element).
pub open spec fn run_steps(s: UnitState, asts: Seq<Ast>) -> (UnitState, Option<ErrorView>)
    decreases asts.len(),
{
    if asts.len() == 0 {
        (s, None)
    } else {
        match ast_step(s, asts[0]) {
            Ok(s2) => run_steps(s2, asts.drop_first()),
            Err(e) => (s, Some(e)),
        }
    }
}

/// The operands of a statement by their abstract values, in order.
pub open spec fn view_args(a1: Option<OperandView>, a2: Option<OperandView>) -> Seq<OperandView> {
    match (a1, a2) {
        (Some(a), Some(b)) => seq![a, b],
        (Some(a), None) => seq![a],
        (None, Some(b)) => seq![b],
        (None, None) => Seq::empty(),
    }
}

/// An operand of `mov`: dereferenced at most once.
pub open spec fn mov_side_ok(o: OperandView) -> bool {
    match o {
        OperandView::Deref(b) => !(*b is Deref),
        _ => true,
    }
}

/// A statement compiles without a fault: `dv` casts its constant only to a
/// type it can take; `cmp` and `mov` have two operands, and every other
/// mnemonic with two operands is an operator; only `mov` dereferences its
/// operands, each at most once.
pub open spec fn statement_view_ok(kw: Keyword, ty: Option<Type>, a1: Option<OperandView>, a2: Option<OperandView>) -> bool {
    let args = view_args(a1, a2);
    if kw == Keyword::Dv {
        args.len() > 0 ==> match (args[0], ty) {
            (OperandView::Value(v), Some(t)) => castable(v, t),
            _ => true,
        }
    } else {
        &&& (kw == Keyword::Cmp || kw == Keyword::Mov) ==> args.len() >= 2
        &&& (kw != Keyword::Cmp && kw != Keyword::Mov && args.len() >= 2) ==> is_operator(kw)
        &&& if kw == Keyword::Mov {
            args.len() >= 2 ==> mov_side_ok(args[0]) && mov_side_ok(args[1])
        } else {
            forall|i: int| 0 <= i < args.len() ==> !(#[trigger] args[i] is Deref)
        }
    }
}

/// A parsed element compiles without a fault: a label, an `.export` whose
/// first operand is a label name, or a statement as `statement_view_ok` says.
/// Data declarations and other macros are not compiled.
pub open spec fn ast_view_ok(a: AstView) -> bool {
    match a {
        AstView::Declare(_) => false,
        AstView::Label(_, _) => true,
        AstView::Macro(_, name, ops) => name == "export"@ && ops.len() > 0 && ops[0] is Ident,
        AstView::Statement(kw, ty, a1, a2) => statement_view_ok(kw, ty, a1, a2),
    }
}

/// Source text that parses without a fault, and whose elements all compile
/// without one.
pub open spec fn program_supported(src: Seq<char>) -> bool {
    match spec_parse_at(src, 0, 0) {
        Some(Ok(v)) => forall|i: int| 0 <= i < v.len() ==> ast_view_ok(#[trigger] v[i]),
        Some(Err(_)) => true,
        None => false,
    }
}

/// A parsed element that `compile_ast` accepts.
pub open spec fn ast_ok(a: Ast) -> bool {
    match a {
        Ast::Declare(_) => false,
        Ast::Label(_) => true,
        Ast::Macro(_, args) => args@.len() > 0 && args@[0] is Ident,
        Ast::Statement(st) => if st.kw == Keyword::Dv {
            dv_castable(st)
        } else {
            compilable(st)
        },
    }
}

proof fn lemma_view_args(st: Statement<Operand>)
    ensures
        view_args(opt_operand_view(st.arg1), opt_operand_view(st.arg2)).len() == stmt_args(st).len(),
        forall|i: int|
            0 <= i < stmt_args(st).len() ==> view_args(opt_operand_view(st.arg1), opt_operand_view(st.arg2))[i]
                == operand_view(#[trigger] stmt_args(st)[i]),
{
}

proof fn lemma_deref_view(o: Operand)
    ensures
        (operand_view(o) is Deref) == (o is Deref),
        o matches Operand::Deref(b) ==> operand_view(o) == OperandView::Deref(Box::new(operand_view(*b))),
{
}

proof fn lemma_plain_concat(a: Seq<Piece>, b: Seq<Piece>)
    requires
        plain_ops(a),
        plain_ops(b),
    ensures
        plain_ops(a + b),
{
    assert forall|i: int| 0 <= i < (a + b).len() implies !(#[trigger] (a + b)[i] matches Piece::Op(Operand::Deref(_))) by {
        if i < a.len() {
            assert((a + b)[i] == a[i]);
        } else {
            assert((a + b)[i] == b[i - a.len()]);
        }
    }
}

/// A statement other than `dv` whose abstract value compiles compiles.
proof fn lemma_statement_ok(st: Statement<Operand>)
    requires
        st.kw != Keyword::Dv,
        statement_view_ok(st.kw, st.ty, opt_operand_view(st.arg1), opt_operand_view(st.arg2)),
    ensures
        compilable(st),
{
    let args = stmt_args(st);
    let va = view_args(opt_operand_view(st.arg1), opt_operand_view(st.arg2));
    lemma_view_args(st);
    assert forall|i: int| 0 <= i < args.len() implies (#[trigger] va[i] is Deref) == (args[i] is Deref) by {
        lemma_deref_view(args[i]);
    }
    let ps = stmt_pieces(st);
    assert(plain_ops(cast_pieces(st.ty)));
    if st.kw == Keyword::Cmp {
        assert(!(va[0] is Deref) && !(va[1] is Deref));
        assert(plain_ops(ps));
    } else if st.kw == Keyword::Mov {
        lemma_deref_view(args[0]);
        lemma_deref_view(args[1]);
        let src = match args[1] {
            Operand::Deref(b) => seq![inx_cell(Instruction::Push), Piece::Op(*b), inx_cell(Instruction::Load)],
            other => seq![inx_cell(Instruction::Push), Piece::Op(other)],
        };
        let dst = match args[0] {
            Operand::Deref(b) => seq![inx_cell(Instruction::Push), Piece::Op(*b), inx_cell(Instruction::Store)],
            other => seq![inx_cell(Instruction::Pop), Piece::Op(other)],
        };
        if let Operand::Deref(b) = args[1] {
            lemma_deref_view(*b);
        }
        if let Operand::Deref(b) = args[0] {
            lemma_deref_view(*b);
        }
        assert(plain_ops(src));
        assert(plain_ops(dst));
        lemma_plain_concat(src, cast_pieces(st.ty));
        lemma_plain_concat(src + cast_pieces(st.ty), dst);
        assert(ps == src + cast_pieces(st.ty) + dst);
    } else if args.len() == 0 {
        assert(plain_ops(ps));
    } else if args.len() == 1 {
        assert(!(va[0] is Deref));
        assert(plain_ops(ps));
    } else {
        assert(!(va[0] is Deref) && !(va[1] is Deref));
        let head = seq![inx_cell(Instruction::Push), Piece::Op(args[0])];
        let tail = seq![
            inx_cell(Instruction::Push),
            Piece::Op(args[1]),
            inx_cell(spec_keyword_inx(st.kw)),
            inx_cell(Instruction::Pop),
            Piece::Op(args[0]),
        ];
        assert(plain_ops(head));
        assert(plain_ops(tail));
        lemma_plain_concat(head, cast_pieces(st.ty));
        lemma_plain_concat(head + cast_pieces(st.ty), tail);
    }
}

/// An element whose abstract value compiles compiles.
proof fn lemma_ast_ok(a: Ast)
    requires
        ast_view_ok(a@),
    ensures
        ast_ok(a),
{
    match a {
        Ast::Statement(st) => {
            lemma_view_args(st);
            assert(a@ == AstView::Statement(st.kw, st.ty, opt_operand_view(st.arg1), opt_operand_view(st.arg2)));
            if st.kw == Keyword::Dv {
                if let Some(Operand::Value(v)) = first_arg(st) {
                    let va = view_args(opt_operand_view(st.arg1), opt_operand_view(st.arg2));
                    assert(operand_view(stmt_args(st)[0]) == OperandView::Value(v));
                    assert(va[0] == OperandView::Value(v));
                    assert(statement_view_ok(st.kw, st.ty, opt_operand_view(st.arg1), opt_operand_view(st.arg2)));
                    if let Some(t) = st.ty {
                        assert(castable(v, t));
                    }
                }
            } else {
                lemma_statement_ok(st);
            }
        },
        Ast::Macro(_, args) => {
            assert(operands_view(args@)[0] == operand_view(args@[0]));
        },
        _ => {},
    }
}

proof fn lemma_uses_below_grow(t: Seq<(Ident, LabelView)>, n: int, m: int)
    requires
        uses_below(t, n),
        n <= m,
    ensures
        uses_below(t, m),
{
}

proof fn lemma_uses_below_decl(t: Seq<(Ident, LabelView)>, id: Ident, off: usize, n: int)
    requires
        uses_below(t, n),
    ensures
        uses_below(record_decl(t, id, off), n),
{
    if view_has_key(t, id.raw@) {
        let k = choose|i: int| 0 <= i < t.len() && (#[trigger] t[i]).0.raw@ == id.raw@;
        let r = record_decl(t, id, off);
        assert forall|i: int, j: int| 0 <= i < r.len() && 0 <= j < r[i].1.locations.len() implies (
        #[trigger] r[i].1.locations[j]).1 < n by {
            assert(r[i].1.locations == t[i].1.locations);
        }
    }
}

proof fn lemma_uses_below_public(t: Seq<(Ident, LabelView)>, id: Ident, n: int)
    requires
        uses_below(t, n),
    ensures
        uses_below(record_public(t, id), n),
{
    if view_has_key(t, id.raw@) {
        let r = record_public(t, id);
        assert forall|i: int, j: int| 0 <= i < r.len() && 0 <= j < r[i].1.locations.len() implies (
        #[trigger] r[i].1.locations[j]).1 < n by {
            assert(r[i].1.locations == t[i].1.locations);
        }
    }
}

proof fn lemma_uses_below_use(t: Seq<(Ident, LabelView)>, id: Ident, pos: usize, n: int)
    requires
        uses_below(t, n),
        pos < n,
    ensures
        uses_below(record_use(t, id, pos), n),
{
    let r = record_use(t, id, pos);
    if view_has_key(t, id.raw@) {
        let k = choose|i: int| 0 <= i < t.len() && (#[trigger] t[i]).0.raw@ == id.raw@;
        assert forall|i: int, j: int| 0 <= i < r.len() && 0 <= j < r[i].1.locations.len() implies (
        #[trigger] r[i].1.locations[j]).1 < n by {
            if i == k {
                if j < t[k].1.locations.len() {
                    assert(r[i].1.locations[j] == t[k].1.locations[j]);
                }
            } else {
                assert(r[i] == t[i]);
            }
        }
    } else {
        assert forall|i: int, j: int| 0 <= i < r.len() && 0 <= j < r[i].1.locations.len() implies (
        #[trigger] r[i].1.locations[j]).1 < n by {
            if i < t.len() {
                assert(r[i] == t[i]);
            }
        }
    }
}

proof fn lemma_uses_below_pieces(t: Seq<(Ident, LabelView)>, ps: Seq<Piece>, pos: int, n: int)
    requires
        uses_below(t, n),
        0 <= pos,
        pos + ps.len() <= n,
        n <= usize::MAX,
    ensures
        uses_below(record_pieces(t, ps, pos), n),
    decreases ps.len(),
{
    if ps.len() > 0 {
        if let Piece::Op(Operand::Ident(id)) = ps[0] {
            lemma_uses_below_use(t, id, pos as usize, n);
        }
        lemma_uses_below_pieces(record_one(t, ps[0], pos), ps.drop_first(), pos + 1, n);
    }
}

proof fn lemma_disjoint_decl(t: Seq<(Ident, LabelView)>, id: Ident, off: usize)
    requires
        uses_disjoint(t),
    ensures
        uses_disjoint(record_decl(t, id, off)),
{
    let r = record_decl(t, id, off);
    assert forall|a: int, b: int, i: int, j: int|
        0 <= a < r.len() && 0 <= b < r.len() && a != b && 0 <= i < r[a].1.locations.len() && 0 <= j
            < r[b].1.locations.len() implies (#[trigger] r[a].1.locations[i]).1 != (#[trigger] r[b].1.locations[j]).1 by {
        assert(a < t.len() && b < t.len());
        assert(r[a].1.locations == t[a].1.locations && r[b].1.locations == t[b].1.locations);
        assert(t[a].1.locations[i].1 != t[b].1.locations[j].1);
    }
}

proof fn lemma_disjoint_public(t: Seq<(Ident, LabelView)>, id: Ident)
    requires
        uses_disjoint(t),
    ensures
        uses_disjoint(record_public(t, id)),
{
    let r = record_public(t, id);
    assert forall|a: int, b: int, i: int, j: int|
        0 <= a < r.len() && 0 <= b < r.len() && a != b && 0 <= i < r[a].1.locations.len() && 0 <= j
            < r[b].1.locations.len() implies (#[trigger] r[a].1.locations[i]).1 != (#[trigger] r[b].1.locations[j]).1 by {
        assert(a < t.len() && b < t.len());
        assert(r[a].1.locations == t[a].1.locations && r[b].1.locations == t[b].1.locations);
        assert(t[a].1.locations[i].1 != t[b].1.locations[j].1);
    }
}

proof fn lemma_disjoint_use(t: Seq<(Ident, LabelView)>, id: Ident, pos: usize, n: int)
    requires
        uses_disjoint(t),
        uses_below(t, n),
        pos >= n,
    ensures
        uses_disjoint(record_use(t, id, pos)),
{
    let r = record_use(t, id, pos);
    if view_has_key(t, id.raw@) {
        let k = choose|i: int| 0 <= i < t.len() && (#[trigger] t[i]).0.raw@ == id.raw@;
        assert forall|a: int, b: int, i: int, j: int|
            0 <= a < r.len() && 0 <= b < r.len() && a != b && 0 <= i < r[a].1.locations.len() && 0 <= j
                < r[b].1.locations.len() implies (#[trigger] r[a].1.locations[i]).1 != (
        #[trigger] r[b].1.locations[j]).1 by {
            if a == k {
                assert(r[b] == t[b]);
                assert(t[b].1.locations[j].1 < n);
                if i < t[k].1.locations.len() {
                    assert(r[a].1.locations[i] == t[k].1.locations[i]);
                    assert(t[a].1.locations[i].1 != t[b].1.locations[j].1);
                }
            } else if b == k {
                assert(r[a] == t[a]);
                assert(t[a].1.locations[i].1 < n);
                if j < t[k].1.locations.len() {
                    assert(r[b].1.locations[j] == t[k].1.locations[j]);
                    assert(t[a].1.locations[i].1 != t[b].1.locations[j].1);
                }
            } else {
                assert(r[a] == t[a] && r[b] == t[b]);
                assert(t[a].1.locations[i].1 != t[b].1.locations[j].1);
            }
        }
    } else {
        assert forall|a: int, b: int, i: int, j: int|
            0 <= a < r.len() && 0 <= b < r.len() && a != b && 0 <= i < r[a].1.locations.len() && 0 <= j
                < r[b].1.locations.len() implies (#[trigger] r[a].1.locations[i]).1 != (
        #[trigger] r[b].1.locations[j]).1 by {
            if a == t.len() {
                assert(r[b] == t[b]);
                assert(t[b].1.locations[j].1 < n);
            } else if b == t.len() {
                assert(r[a] == t[a]);
                assert(t[a].1.locations[i].1 < n);
            } else {
                assert(r[a] == t[a] && r[b] == t[b]);
                assert(t[a].1.locations[i].1 != t[b].1.locations[j].1);
            }
        }
    }
}

proof fn lemma_disjoint_pieces(t: Seq<(Ident, LabelView)>, ps: Seq<Piece>, pos: int)
    requires
        uses_disjoint(t),
        uses_below(t, pos),
        0 <= pos,
        pos + ps.len() <= usize::MAX,
    ensures
        uses_disjoint(record_pieces(t, ps, pos)),
    decreases ps.len(),
{
    if ps.len() > 0 {
        let t1 = record_one(t, ps[0], pos);
        lemma_uses_below_grow(t, pos, pos + 1);
        if let Piece::Op(Operand::Ident(id)) = ps[0] {
            lemma_disjoint_use(t, id, pos as usize, pos);
            lemma_uses_below_use(t, id, pos as usize, pos + 1);
        }
        lemma_disjoint_pieces(t1, ps.drop_first(), pos + 1);
    }
}

/// `.export name`: the label `name` is made public, or a new public label of
/// that name is made.
fn export(unit: &mut Unit, args: Vec<Operand>) -> (res: Result<(), Error>)
    requires
        keys_unique(old(unit).labels.entries@),
        args@.len() > 0,
        args@[0] is Ident,
    ensures
        res is Ok,
        final(unit).code == old(unit).code,
        keeps_source(*old(unit), *final(unit)),
        keys_unique(final(unit).labels.entries@),
        args@[0] matches Operand::Ident(id) && table_view(final(unit).labels.entries@) == record_public(
            table_view(old(unit).labels.entries@),
            id,
        ),
{
    let id = match &args[0] {
        Operand::Ident(i) => i.clone(),
        _ => vstd::pervasive::unreached(),
    };
    let ghost e0 = unit.labels.entries@;
    let ghost t0 = table_view(e0);
    proof {
        if view_has_key(t0, id.raw@) {
            let i = choose|i: int| 0 <= i < t0.len() && (#[trigger] t0[i]).0.raw@ == id.raw@;
            assert(e0[i].0.raw@ == id.raw@);
        }
    }
    match find_entry(&unit.labels.entries, id.raw.as_str()) {
        Some(p) => {
            let mut e = unit.labels.entries.remove(p);
            e.1.public = true;
            unit.labels.entries.insert(p, e);
            proof {
                assert(unit.labels.entries@ =~= e0.update(p as int, e));
                assert(t0[p as int].0.raw@ == id.raw@);
                let k = choose|i: int| 0 <= i < t0.len() && (#[trigger] t0[i]).0.raw@ == id.raw@;
                assert(e0[k].0.raw@ == e0[p as int].0.raw@);
                assert(k == p);
                assert(table_view(unit.labels.entries@) =~= record_public(t0, id));
                assert forall|i: int, j: int|
                    0 <= i < unit.labels.entries@.len() && 0 <= j < unit.labels.entries@.len() && i != j implies (
                    #[trigger] unit.labels.entries@[i]).0.raw@ != (#[trigger] unit.labels.entries@[j]).0.raw@ by {
                    assert(e0[i].0.raw@ != e0[j].0.raw@);
                }
            }
        },
        None => {
            let mut l = Label::new();
            l.public = true;
            proof {
                assert(!view_has_key(t0, id.raw@)) by {
                    if view_has_key(t0, id.raw@) {
                        let i = choose|i: int| 0 <= i < t0.len() && (#[trigger] t0[i]).0.raw@ == id.raw@;
                        assert(e0[i].0.raw@ == id.raw@);
                    }
                }
                assert(l.locations@ =~= Seq::<(Ident, usize)>::empty());
            }
            unit.labels.entries.push((id, l));
            proof {
                assert(table_view(unit.labels.entries@) =~= record_public(t0, id));
                assert forall|i: int, j: int|
                    0 <= i < unit.labels.entries@.len() && 0 <= j < unit.labels.entries@.len() && i != j implies (
                    #[trigger] unit.labels.entries@[i]).0.raw@ != (#[trigger] unit.labels.entries@[j]).0.raw@ by {
                    if i < e0.len() && j < e0.len() {
                        assert(e0[i].0.raw@ != e0[j].0.raw@);
                    } else if i < e0.len() {
                        assert(e0[i].0.raw@ != id.raw@);
                    } else {
                        assert(e0[j].0.raw@ != id.raw@);
                    }
                }
            }
        },
    }
    Ok(())
}

/// Compiles one parsed element into the unit, as `ast_step` describes; on an
/// error the cells and labels are left as they were.
fn compile_ast(unit: &mut Unit, a: Ast) -> (res: Result<(), Error>)
    requires
        keys_unique(old(unit).labels.entries@),
        uses_below(table_view(old(unit).labels.entries@), old(unit).code@.len() as int),
        uses_disjoint(table_view(old(unit).labels.entries@)),
        ast_ok(a),
    ensures
        keys_unique(final(unit).labels.entries@),
        uses_below(table_view(final(unit).labels.entries@), final(unit).code@.len() as int),
        uses_disjoint(table_view(final(unit).labels.entries@)),
        keeps_source(*old(unit), *final(unit)),
        match ast_step(unit_state(*old(unit)), a) {
            Ok(s) => res is Ok && unit_state(*final(unit)) == s,
            Err(e) => res matches Err(x) && error_is(x, e) && unit_state(*final(unit)) == unit_state(*old(unit)),
        },
{
    let ghost t0 = table_view(unit.labels.entries@);
    let ghost n0 = unit.code@.len() as int;
    match a {
        Ast::Label(id) => {
            let off = unit.code.len();
            let ghost idg = id;
            let r = unit.declare_label(id, off);
            proof {
                lemma_uses_below_decl(t0, idg, off, n0);
                lemma_disjoint_decl(t0, idg, off);
            }
            r
        },
        Ast::Macro(_, args) => {
            let ghost a0 = args@[0];
            let r = export(unit, args);
            proof {
                if let Operand::Ident(id) = a0 {
                    lemma_uses_below_public(t0, id, n0);
                    lemma_disjoint_public(t0, id);
                }
            }
            r
        },
        Ast::Statement(st) => {
            let ghost stg = st;
            let r = unit.compile_statement(st);
            let n1 = unit.code.len();
            proof {
                if stg.kw == Keyword::Dv {
                    lemma_uses_below_grow(t0, n0, unit.code@.len() as int);
                } else {
                    lemma_uses_below_pieces(t0, stmt_pieces(stg), n0, unit.code@.len() as int);
                    lemma_disjoint_pieces(t0, stmt_pieces(stg), n0);
                }
            }
            r
        },
        Ast::Declare(_) => vstd::pervasive::unreached(),
    }
}

/// The outcome `o` of compiling is the state `after` reached and the result `res`.
pub open spec fn outcome_is(o: (UnitState, Option<ErrorView>), after: UnitState, res: Result<(), Error>) -> bool {
    &&& after == o.0
    &&& match o.1 {
        None => res is Ok,
        Some(e) => res matches Err(x) && error_is(x, e),
    }
}

/// Compiling the source text `src` took a unit from the state `before` to the
/// state `after`, with result `res`: an error in parsing leaves the unit
/// alone; otherwise the parsed elements are compiled in order until one fails.
pub open spec fn compiled(src: Seq<char>, before: UnitState, after: UnitState, res: Result<(), Error>) -> bool {
    match spec_parse_at(src, 0, 0) {
        Some(Ok(v)) => exists|asts: Seq<Ast>| #[trigger] asts_view(asts) == v && outcome_is(run_steps(before, asts), after, res),
        Some(Err(e)) => after == before && (res matches Err(x) && error_is(x, e)),
        None => false,
    }
}

/// A unit that compiling can go on with: unique label names, every use of a
/// label inside its cells, no two labels used at one cell, and source text it
/// can parse and compile.
pub open spec fn unit_ready(u: Unit) -> bool {
    &&& keys_unique(u.labels.entries@)
    &&& uses_below(table_view(u.labels.entries@), u.code@.len() as int)
    &&& uses_disjoint(table_view(u.labels.entries@))
    &&& u.src@.len() < usize::MAX
    &&& program_supported(u.src@)
}

/// Parses the unit's source and compiles the elements in order, stopping at
/// the first error.
fn compile_unit(unit: &mut Unit) -> (res: Result<(), Error>)
    requires
        unit_ready(*old(unit)),
    ensures
        keys_unique(final(unit).labels.entries@),
        uses_below(table_view(final(unit).labels.entries@), final(unit).code@.len() as int),
        uses_disjoint(table_view(final(unit).labels.entries@)),
        keeps_source(*old(unit), *final(unit)),
        compiled(old(unit).src@, unit_state(*old(unit)), unit_state(*final(unit)), res),
{
    let ghost s0 = unit_state(*unit);
    let parsed = parse(unit.src.as_str());
    let mut asts = match parsed {
        Ok(a) => a,
        Err(e) => {
            return Err(e);
        },
    };
    let ghost all = asts@;
    let ghost v = asts_view(all);
    proof {
        assert forall|k: int| 0 <= k < all.len() implies ast_ok(#[trigger] all[k]) by {
            assert(v[k] == all[k]@);
            lemma_ast_ok(all[k]);
        }
    }
    while asts.len() > 0
        invariant
            forall|k: int| 0 <= k < asts@.len() ==> ast_ok(#[trigger] asts@[k]),
            run_steps(s0, all) == run_steps(unit_state(*unit), asts@),
            keys_unique(unit.labels.entries@),
            uses_below(table_view(unit.labels.entries@), unit.code@.len() as int),
            uses_disjoint(table_view(unit.labels.entries@)),
            keeps_source(*old(unit), *unit),
            asts_view(all) == v,
            spec_parse_at(old(unit).src@, 0, 0) == Some(Ok::<Seq<AstView>, ErrorView>(v)),
            s0 == unit_state(*old(unit)),
        decreases asts@.len(),
    {
        let ghost rest = asts@;
        let ghost cur = unit_state(*unit);
        let a = asts.remove(0);
        assert(asts@ == rest.drop_first());
        assert(ast_ok(rest[0]));
        match compile_ast(unit, a) {
            Ok(()) => {},
            Err(e) => {
                proof {
                    let ev = ast_step(cur, rest[0])->Err_0;
                    assert(run_steps(cur, rest) == (cur, Some(ev)));
                    assert(outcome_is(run_steps(s0, all), unit_state(*unit), Err::<(), Error>(e)));
                    assert(asts_view(all) == v);
                }
                return Err(e);
            },
        }
    }
    Ok(())
}

/// The assembler's driver: the unit being compiled, once there is one.
pub struct Compiler {
    pub unit: Option<Unit>,
}

impl Compiler {
    /// A driver without a unit.
    pub fn new() -> (res: Self)
        ensures
            res.unit is None,
    {
        Self { unit: None }
    }

    /// Links the unit and hands it out; the driver is left without one. The
    /// result is that of `Unit::link` on the unit.
    pub fn finish(&mut self) -> (res: Result<Unit, Error>)
        requires
            old(self).unit matches Some(u) && link_ok(u),
        ensures
            final(self).unit is None,
            old(self).unit matches Some(u) && {
                &&& res matches Ok(l) ==> {
                    &&& l.path == u.path
                    &&& l.src == u.src
                    &&& l.sub_units@.len() == u.sub_units@.len()
                    &&& keys_unique(l.labels.entries@)
                    &&& labels_kept(u.labels.entries@, l.labels.entries@)
                    &&& l.code@.len() == linked_len(u)
                    &&& undeclared_uses(table_view(l.labels.entries@)).len() == 0
                    &&& l.code@ == patch_table(u.code@, table_view(l.labels.entries@)) + cells_of(l.sub_units@)
                    &&& forall|k: int| 0 <= k < u.labels.entries@.len() ==> #[trigger] l.labels.entries@[k] == merged_through(
                        u.labels.entries@[k], l.sub_units@)
                    &&& forall|t: int| 0 <= t < u.sub_units@.len() ==> {
                        &&& (#[trigger] l.sub_units@[t]).code@.subrange(0, u.sub_units@[t].code@.len() as int)
                            == patch_table(u.sub_units@[t].code@, table_view(l.sub_units@[t].labels.entries@))
                        &&& l.sub_units@[t].labels.entries@.len() == u.sub_units@[t].labels.entries@.len()
                        &&& forall|i: int| 0 <= i < u.sub_units@[t].labels.entries@.len() ==> #[trigger] l.sub_units@[t].labels.entries@[i]
                            == shifted_entry(u.sub_units@[t].labels.entries@[i], u.code@.len() + subs_len(u.sub_units@.subrange(0, t)))
                    }
                }
                &&& u.sub_units@.len() == 0 ==> match res {
                    Ok(l) => {
                        &&& l.labels == u.labels
                        &&& l.code@ == patch_table(u.code@, table_view(u.labels.entries@))
                        &&& undeclared_uses(table_view(u.labels.entries@)).len() == 0
                    },
                    Err(e) => undeclared_uses(table_view(u.labels.entries@)).len() > 0 && reports_undeclared(e,
                        undeclared_uses(table_view(u.labels.entries@))),
                }
            },
    {
        let mut unit = match self.unit.take() {
            Some(u) => u,
            None => vstd::pervasive::unreached(),
        };
        match unit.link() {
            Ok(()) => Ok(unit),
            Err(e) => Err(e),
        }
    }

    /// Starts a unit for the source text `src` read from `path` and compiles
    /// it; the unit is then ready to be linked.
    pub fn compile_path(&mut self, src: &str, path: String) -> (res: Result<(), Error>)
        requires
            src@.len() < usize::MAX,
            program_supported(src@),
        ensures
            final(self).unit matches Some(u) && {
                &&& u.path == Some(path)
                &&& u.src@ == src@
                &&& u.sub_units@.len() == 0
                &&& keys_unique(u.labels.entries@)
                &&& uses_below(table_view(u.labels.entries@), u.code@.len() as int)
                &&& uses_disjoint(table_view(u.labels.entries@))
                &&& link_ok(u)
                &&& compiled(src@, UnitState { code: Seq::empty(), labels: Seq::empty() }, unit_state(u), res)
            },
    {
        let unit = Unit::from_path(String::from_str(src), path);
        proof {
            assert(unit.code@ =~= Seq::<Code>::empty());
            assert(table_view(unit.labels.entries@) =~= Seq::<(Ident, LabelView)>::empty());
        }
        self.unit = Some(unit);
        let r = self.compile();
        let _n = match &self.unit {
            Some(u) => u.code.len(),
            None => 0,
        };
        proof {
            let u = self.unit->Some_0;
            assert(subs_len(u.sub_units@) == 0);
            assert(subs_ok(u.code@.len() as int, u.labels.entries@, u.sub_units@));
        }
        r
    }

    /// Compiles the unit's source text into it, as `compiled` describes.
    pub fn compile(&mut self) -> (res: Result<(), Error>)
        requires
            old(self).unit matches Some(u) && unit_ready(u),
        ensures
            old(self).unit matches Some(u) && final(self).unit matches Some(u2) && {
                &&& keeps_source(u, u2)
                &&& keys_unique(u2.labels.entries@)
                &&& uses_below(table_view(u2.labels.entries@), u2.code@.len() as int)
                &&& uses_disjoint(table_view(u2.labels.entries@))
                &&& compiled(u.src@, unit_state(u), unit_state(u2), res)
            },
    {
        let mut unit = match self.unit.take() {
            Some(u) => u,
            None => vstd::pervasive::unreached(),
        };
        let r = compile_unit(&mut unit);
        self.unit = Some(unit);
        r
    }
}

/// Whether the mnemonic is an arithmetic or logic operator (`is_operator`).
fn keyword_is_operator(k: Keyword) -> (res: bool)
    ensures
        res == is_operator(k),
{
    match k {
        Keyword::Add | Keyword::Sub | Keyword::Mul | Keyword::Div | Keyword::Rem | Keyword::Pow | Keyword::Neg
        | Keyword::And | Keyword::Or | Keyword::Xor | Keyword::Shl | Keyword::Shr => true,
        _ => false,
    }
}

/// Whether the value can be cast to the type (`castable`).
fn value_castable(v: Value, t: Type) -> (res: bool)
    ensures
        res == castable(v, t),
{
    match t {
        Type::F64 => false,
        Type::T => match v {
            Value::T(_) => true,
            Value::I(n) => n as usize <= 1,
            Value::I64(n) => n as usize <= 1,
            Value::Ref(n) => n <= 1,
        },
        _ => true,
    }
}

/// Whether an operand is a dereference.
fn is_deref(o: &Operand) -> (res: bool)
    ensures
        res == (operand_view(*o) is Deref),
{
    match o {
        Operand::Deref(_) => true,
        _ => false,
    }
}

/// Whether an operand of `mov` is dereferenced at most once (`mov_side_ok`).
fn mov_side_supported(o: &Operand) -> (res: bool)
    ensures
        res == mov_side_ok(operand_view(*o)),
{
    match o {
        Operand::Deref(b) => {
            proof {
                lemma_deref_view(**b);
            }
            !is_deref(&**b)
        },
        _ => true,
    }
}

/// Whether a statement compiles without a fault (`statement_view_ok`).
fn statement_supported(st: &Statement<Operand>) -> (res: bool)
    ensures
        res == statement_view_ok(st.kw, st.ty, opt_operand_view(st.arg1), opt_operand_view(st.arg2)),
{
    let ghost va = view_args(opt_operand_view(st.arg1), opt_operand_view(st.arg2));
    let (first, second): (Option<&Operand>, Option<&Operand>) = match (&st.arg1, &st.arg2) {
        (Some(a), Some(b)) => (Some(a), Some(b)),
        (Some(a), None) => (Some(a), None),
        (None, Some(b)) => (Some(b), None),
        (None, None) => (None, None),
    };
    proof {
        lemma_view_args(*st);
    }
    let n: usize = if second.is_some() {
        2
    } else if first.is_some() {
        1
    } else {
        0
    };
    assert(n == va.len());
    assert(first matches Some(a) ==> va[0] == operand_view(*a));
    assert(second matches Some(b) ==> va[1] == operand_view(*b));
    if st.kw == Keyword::Dv {
        match (first, st.ty) {
            (Some(Operand::Value(v)), Some(t)) => value_castable(*v, t),
            _ => true,
        }
    } else {
        let is_cmp = st.kw == Keyword::Cmp;
        let is_mov = st.kw == Keyword::Mov;
        if (is_cmp || is_mov) && n < 2 {
            return false;
        }
        if !is_cmp && !is_mov && n >= 2 && !keyword_is_operator(st.kw) {
            return false;
        }
        if is_mov {
            match (first, second) {
                (Some(a), Some(b)) => mov_side_supported(a) && mov_side_supported(b),
                _ => true,
            }
        } else {
            let ok1 = match first {
                Some(a) => !is_deref(a),
                None => true,
            };
            let ok2 = match second {
                Some(b) => !is_deref(b),
                None => true,
            };
            proof {
                if ok1 && ok2 {
                    assert forall|i: int| 0 <= i < va.len() implies !(#[trigger] va[i] is Deref) by {
                        assert(i == 0 || i == 1);
                    }
                }
            }
            ok1 && ok2
        }
    }
}

/// Whether a parsed element compiles without a fault (`ast_view_ok`).
fn ast_supported(a: &Ast) -> (res: bool)
    ensures
        res == ast_view_ok(a@),
{
    match a {
        Ast::Declare(_) => false,
        Ast::Label(_) => true,
        Ast::Macro(id, args) => {
            let named = str_eq(id.raw.as_str(), "export");
            proof {
                reveal_strlit("export");
            }
            if !named || args.len() == 0 {
                return false;
            }
            proof {
                assert(operands_view(args@)[0] == operand_view(args@[0]));
            }
            match &args[0] {
                Operand::Ident(_) => true,
                _ => false,
            }
        },
        Ast::Statement(st) => statement_supported(st),
    }
}

/// Whether the source text parses and compiles without a fault
/// (`program_supported`).
pub fn check_program(src: &str) -> (res: bool)
    requires
        src@.len() < usize::MAX,
    ensures
        res == program_supported(src@),
{
    match try_parse(src) {
        None => false,
        Some(Err(_)) => true,
        Some(Ok(asts)) => {
            let ghost v = asts_view(asts@);
            let mut i: usize = 0;
            while i < asts.len()
                invariant
                    i <= asts@.len(),
                    v == asts_view(asts@),
                    spec_parse_at(src@, 0, 0) == Some(Ok::<Seq<AstView>, ErrorView>(v)),
                    forall|k: int| 0 <= k < i ==> ast_view_ok(#[trigger] v[k]),
                decreases asts@.len() - i,
            {
                assert(v[i as int] == asts@[i as int]@);
                if !ast_supported(&asts[i]) {
                    assert(v.len() == asts@.len());
                    assert(exists|k: int| 0 <= k < v.len() && !ast_view_ok(#[trigger] v[k]));
                    assert(spec_parse_at(src@, 0, 0) matches Some(Ok(w)) && w == v);
                    return false;
                }
                i += 1;
            }
            true
        },
    }
}

/// The state of a fresh unit: no cells and no labels.
pub open spec fn empty_state() -> UnitState {
    UnitState { code: Seq::empty(), labels: Seq::empty() }
}

/// Assembling the source text `src` read from `path` gave `r`: compiling it
/// into a fresh unit either failed with the error `r` holds, or reached a
/// state `s` that linking then turned into `r`: the unit with every use of a
/// label patched to its declaration, or, where a used label is undeclared,
/// the report of all such uses.
pub open spec fn assembled(src: Seq<char>, path: String, r: Result<Unit, Error>) -> bool {
    exists|s: UnitState, cres: Result<(), Error>|
        #[trigger] compiled(src, empty_state(), s, cres) && match cres {
            Err(e) => r == Err::<Unit, Error>(e),
            Ok(_) => match r {
                Ok(l) => {
                    &&& l.path == Some(path)
                    &&& l.src@ == src
                    &&& l.sub_units@.len() == 0
                    &&& table_view(l.labels.entries@) == s.labels
                    &&& l.code@ == patch_table(s.code, s.labels)
                    &&& undeclared_uses(s.labels).len() == 0
                },
                Err(e) => undeclared_uses(s.labels).len() > 0 && reports_undeclared(e, undeclared_uses(s.labels)),
            },
        }
}

/// Assembles source text read from `path` into a linked unit, as `assembled`
/// describes; `None` where the text does not parse and compile without a
/// fault (`program_supported`). In an assembled unit the cell at each use of
/// a label refers to the label's declaration.
pub fn compile_source(src: &str, path: String) -> (res: Option<Result<Unit, Error>>)
    requires
        src@.len() < usize::MAX,
    ensures
        res is None <==> !program_supported(src@),
        res matches Some(r) ==> assembled(src@, path, r),
        res matches Some(Ok(l)) ==> uses_resolved(l.code@, table_view(l.labels.entries@)),
{
    if !check_program(src) {
        return None;
    }
    let ghost p = path;
    let mut c = Compiler::new();
    let compiled_res = c.compile_path(src, path);
    let ghost u = c.unit->Some_0;
    match compiled_res {
        Err(e) => {
            proof {
                assert(empty_state() == UnitState { code: Seq::<Code>::empty(), labels: Seq::<(Ident, LabelView)>::empty() });
                assert(compiled(src@, empty_state(), unit_state(u), Err::<(), Error>(e)));
            }
            Some(Err(e))
        },
        Ok(()) => {
            let r = c.finish();
            proof {
                if r is Ok {
                    lemma_patch_table_resolved(u.code@, table_view(u.labels.entries@));
                }
                assert(empty_state() == UnitState { code: Seq::<Code>::empty(), labels: Seq::<(Ident, LabelView)>::empty() });
                assert(compiled(src@, empty_state(), unit_state(u), Ok::<(), Error>(())));
            }
            Some(r)
        },
    }
}

/// The program of a unit: its cells; label offsets are not carried over.
pub fn into_program(unit: Unit) -> (res: Program)
    ensures
        res.code@ == unit.code@,
        res.labels@.len() == 0,
{
    Program { code: unit.code, labels: Vec::new() }
}

} // verus!
