use crate::assembler::compiler::error::raise;
use crate::assembler::compiler::error::{
    is_error_line, is_single_error, spec_expected_either_msg, spec_not_declared_msg, spec_redeclared_msg, Error, ErrorType,
};
use crate::assembler::compiler::objects::ident::Ident;
use crate::assembler::compiler::objects::label::Label;
use crate::assembler::compiler::objects::statement::Statement;
use crate::assembler::compiler::objects::ty::{spec_type_index, Type};
use crate::assembler::compiler::parser::{copy_operand, Operand};
use crate::assembler::parser::keyword::{is_instruction_keyword, spec_keyword_inx, Keyword};
use crate::assembler::program::{Code, Value};
use crate::assembler::target::Instruction;
use crate::text::str_eq;
use std::rc::Rc;
use vstd::prelude::*;

verus! {

/// The labels of a unit, keyed by the text of their identifiers.
#[derive(Debug)]
pub struct LabelTable {
    pub entries: Vec<(Ident, Label)>,
}

/// No two entries share a key.
pub open spec fn keys_unique(e: Seq<(Ident, Label)>) -> bool {
    forall|i: int, j: int| 0 <= i < e.len() && 0 <= j < e.len() && i != j ==> (#[trigger] e[i]).0.raw@
        != (#[trigger] e[j]).0.raw@
}

/// Whether some entry has key `k`.
pub open spec fn has_key(e: Seq<(Ident, Label)>, k: Seq<char>) -> bool {
    exists|i: int| 0 <= i < e.len() && (#[trigger] e[i]).0.raw@ == k
}

/// The position of the entry with key `k` (meaningful when there is one).
pub open spec fn key_pos(e: Seq<(Ident, Label)>, k: Seq<char>) -> int {
    choose|i: int| 0 <= i < e.len() && (#[trigger] e[i]).0.raw@ == k
}

/// `l` with its declaration replaced by `d`.
pub open spec fn with_decl(l: Label, d: Option<(Ident, usize)>) -> Label {
    Label { decl: d, locations: l.locations, parent: l.parent, public: l.public }
}

/// Two labels may be merged when the one in context is undeclared and the other declared.
pub open spec fn mergeable(ctx: Seq<(Ident, Label)>, scope: Seq<(Ident, Label)>) -> bool {
    forall|i: int, j: int| 0 <= i < ctx.len() && 0 <= j < scope.len() && (#[trigger] ctx[i]).0.raw@
        == (#[trigger] scope[j]).0.raw@ ==> ctx[i].1.decl is None && scope[j].1.decl is Some
}

/// The entry of `ctx` after merging: it takes the declaration of the entry of
/// `scope` with the same key, if there is one.
pub open spec fn merged_entry(entry: (Ident, Label), scope: Seq<(Ident, Label)>) -> (Ident, Label) {
    if has_key(scope, entry.0.raw@) {
        (entry.0, with_decl(entry.1, scope[key_pos(scope, entry.0.raw@)].1.decl))
    } else {
        entry
    }
}

fn clone_decl(d: &Option<(Ident, usize)>) -> (res: Option<(Ident, usize)>)
    ensures
        res == *d,
{
    match d {
        Some((id, off)) => Some((id.clone(), *off)),
        None => None,
    }
}


/// A label by its declaration, its uses, its parent and its visibility.
pub struct LabelView {
    pub decl: Option<(Ident, usize)>,
    pub locations: Seq<(Ident, usize)>,
    pub parent: Option<Rc<Label>>,
    pub public: bool,
}

/// The abstract value of a label.
pub open spec fn label_view(l: Label) -> LabelView {
    LabelView { decl: l.decl, locations: l.locations@, parent: l.parent, public: l.public }
}

/// The abstract value of the entries of a label table.
pub open spec fn table_view(e: Seq<(Ident, Label)>) -> Seq<(Ident, LabelView)> {
    e.map_values(|x: (Ident, Label)| (x.0, label_view(x.1)))
}

/// Whether some entry of an abstract table has key `k`.
pub open spec fn view_has_key(t: Seq<(Ident, LabelView)>, k: Seq<char>) -> bool {
    exists|i: int| 0 <= i < t.len() && (#[trigger] t[i]).0.raw@ == k
}

/// The table after a use of the label `id` at position `pos`: the use is
/// added to the label of that name, or a new undeclared label is made for it.
pub open spec fn record_use(t: Seq<(Ident, LabelView)>, id: Ident, pos: usize) -> Seq<(Ident, LabelView)> {
    if view_has_key(t, id.raw@) {
        let k = choose|i: int| 0 <= i < t.len() && (#[trigger] t[i]).0.raw@ == id.raw@;
        t.update(k, (t[k].0, LabelView {
            decl: t[k].1.decl,
            locations: t[k].1.locations.push((id, pos)),
            parent: t[k].1.parent,
            public: t[k].1.public,
        }))
    } else {
        t.push((id, LabelView { decl: None, locations: seq![(id, pos)], parent: None, public: false }))
    }
}

/// The table after the declaration of the label `id` at offset `off`, for a
/// label that is not declared yet: an undeclared label of that name takes the
/// declaration, or a new declared label is made.
pub open spec fn record_decl(t: Seq<(Ident, LabelView)>, id: Ident, off: usize) -> Seq<(Ident, LabelView)> {
    if view_has_key(t, id.raw@) {
        let k = choose|i: int| 0 <= i < t.len() && (#[trigger] t[i]).0.raw@ == id.raw@;
        t.update(k, (t[k].0, LabelView {
            decl: Some((id, off)),
            locations: t[k].1.locations,
            parent: t[k].1.parent,
            public: t[k].1.public,
        }))
    } else {
        t.push((id, LabelView { decl: Some((id, off)), locations: Seq::empty(), parent: None, public: false }))
    }
}

/// The label named `k` in an abstract table is declared.
pub open spec fn declared_in(t: Seq<(Ident, LabelView)>, k: Seq<char>) -> bool {
    exists|i: int| 0 <= i < t.len() && (#[trigger] t[i]).0.raw@ == k && t[i].1.decl is Some
}

/// What a statement emits, in order: a fixed cell, or an operand.
pub enum Piece {
    Cell(Code),
    Op(Operand),
}

/// The cell an operand stands for: a register, a constant, or, for a label,
/// a placeholder reference that linking replaces.
pub open spec fn operand_cell(o: Operand) -> Code {
    match o {
        Operand::Register(r) => Code::Register(r),
        Operand::Value(v) => Code::Value(v),
        _ => Code::Value(Value::Ref(usize::MAX)),
    }
}

/// The cell a piece stands for.
pub open spec fn piece_cell(p: Piece) -> Code {
    match p {
        Piece::Cell(c) => c,
        Piece::Op(o) => operand_cell(o),
    }
}

/// The cells of a sequence of pieces.
pub open spec fn piece_cells(ps: Seq<Piece>) -> Seq<Code> {
    ps.map_values(|p: Piece| piece_cell(p))
}

/// The labels after the use, if any, that one piece makes at position `pos`.
pub open spec fn record_one(t: Seq<(Ident, LabelView)>, p: Piece, pos: int) -> Seq<(Ident, LabelView)> {
    match p {
        Piece::Op(Operand::Ident(id)) => record_use(t, id, pos as usize),
        _ => t,
    }
}

/// The labels after the uses that the pieces `ps` make, the first of them
/// placed at position `pos`.
pub open spec fn record_pieces(t: Seq<(Ident, LabelView)>, ps: Seq<Piece>, pos: int) -> Seq<(Ident, LabelView)>
    decreases ps.len(),
{
    if ps.len() == 0 {
        t
    } else {
        record_pieces(record_one(t, ps[0], pos), ps.drop_first(), pos + 1)
    }
}

/// An instruction cell.
pub open spec fn inx_cell(i: Instruction) -> Piece {
    Piece::Cell(Code::Instruction(i))
}

/// The operands of a statement, in order.
pub open spec fn stmt_args(st: Statement<Operand>) -> Seq<Operand> {
    match (st.arg1, st.arg2) {
        (Some(a), Some(b)) => seq![a, b],
        (Some(a), None) => seq![a],
        (None, Some(b)) => seq![b],
        (None, None) => Seq::empty(),
    }
}

/// Whether the mnemonic is one of the arithmetic and logic operators.
pub open spec fn is_operator(k: Keyword) -> bool {
    k == Keyword::Add || k == Keyword::Sub || k == Keyword::Mul || k == Keyword::Div || k == Keyword::Rem
        || k == Keyword::Pow || k == Keyword::Neg || k == Keyword::And || k == Keyword::Or || k == Keyword::Xor
        || k == Keyword::Shl || k == Keyword::Shr
}

/// The cast cells of a type annotation: a cast to the type's index, or none.
pub open spec fn cast_pieces(ty: Option<Type>) -> Seq<Piece> {
    match ty {
        Some(t) => seq![inx_cell(Instruction::Cast), Piece::Cell(Code::Value(Value::I(spec_type_index(t))))],
        None => Seq::empty(),
    }
}

/// What a statement other than `dv` emits: `cmp` pushes both operands and
/// compares them; `mov` pushes the source (loading through a dereference),
/// casts it when typed, and pops it into the target (storing through a
/// dereference); an operator pushes both operands, casting the first when
/// typed, applies the operator and pops the result into the first operand;
/// any other instruction is emitted with its operand, if it has one.
pub open spec fn stmt_pieces(st: Statement<Operand>) -> Seq<Piece> {
    let args = stmt_args(st);
    if st.kw == Keyword::Cmp {
        seq![inx_cell(Instruction::Push), Piece::Op(args[0]), inx_cell(Instruction::Push), Piece::Op(args[1]),
            inx_cell(Instruction::Cmp)]
    } else if st.kw == Keyword::Mov {
        let src = match args[1] {
            Operand::Deref(b) => seq![inx_cell(Instruction::Push), Piece::Op(*b), inx_cell(Instruction::Load)],
            other => seq![inx_cell(Instruction::Push), Piece::Op(other)],
        };
        let dst = match args[0] {
            Operand::Deref(b) => seq![inx_cell(Instruction::Push), Piece::Op(*b), inx_cell(Instruction::Store)],
            other => seq![inx_cell(Instruction::Pop), Piece::Op(other)],
        };
        src + cast_pieces(st.ty) + dst
    } else if args.len() == 0 {
        seq![inx_cell(spec_keyword_inx(st.kw))]
    } else if args.len() == 1 {
        seq![inx_cell(spec_keyword_inx(st.kw)), Piece::Op(args[0])]
    } else {
        seq![inx_cell(Instruction::Push), Piece::Op(args[0])] + cast_pieces(st.ty) + seq![
            inx_cell(Instruction::Push),
            Piece::Op(args[1]),
            inx_cell(spec_keyword_inx(st.kw)),
            inx_cell(Instruction::Pop),
            Piece::Op(args[0]),
        ]
    }
}

/// Every operand piece is a plain operand, not a dereference.
pub open spec fn plain_ops(ps: Seq<Piece>) -> bool {
    forall|i: int| 0 <= i < ps.len() ==> !(#[trigger] ps[i] matches Piece::Op(Operand::Deref(_)))
}

/// A statement other than `dv` that compiles without a fault: `cmp` and `mov`
/// have two operands and every other mnemonic with two operands is an
/// operator, and no operand is dereferenced more than `mov` allows.
pub open spec fn compilable(st: Statement<Operand>) -> bool {
    let args = stmt_args(st);
    &&& st.kw != Keyword::Dv
    &&& (st.kw == Keyword::Cmp || st.kw == Keyword::Mov) ==> args.len() >= 2
    &&& (st.kw != Keyword::Cmp && st.kw != Keyword::Mov && args.len() >= 2) ==> is_operator(st.kw)
    &&& plain_ops(stmt_pieces(st))
}

/// The value `v` cast to the type `t`, for the types a value can take here.
pub open spec fn spec_cast(v: Value, t: Type) -> Value {
    match t {
        Type::I => match v {
            Value::I(n) => Value::I(n),
            Value::I64(n) => Value::I(n as i8),
            Value::Ref(n) => Value::I(n as i8),
            Value::T(b) => Value::I(if b { 1 } else { 0 }),
        },
        Type::I64 => match v {
            Value::I(n) => Value::I64(n as i64),
            Value::I64(n) => Value::I64(n),
            Value::Ref(n) => Value::I64(n as i64),
            Value::T(b) => Value::I64(if b { 1 } else { 0 }),
        },
        Type::Ref => match v {
            Value::I(n) => Value::Ref(n as usize),
            Value::I64(n) => Value::Ref(n as usize),
            Value::Ref(n) => Value::Ref(n),
            Value::T(b) => Value::Ref(if b { 1 } else { 0 }),
        },
        _ => match v {
            Value::T(b) => Value::T(b),
            Value::I(n) => Value::T(n as usize == 1),
            Value::I64(n) => Value::T(n as usize == 1),
            Value::Ref(n) => Value::T(n == 1),
        },
    }
}

/// The type of a value.
pub open spec fn spec_value_type(v: Value) -> Type {
    match v {
        Value::I(_) => Type::I,
        Value::I64(_) => Type::I64,
        Value::Ref(_) => Type::Ref,
        Value::T(_) => Type::T,
    }
}

/// The number a value holds; a truth value holds 1 or 0.
pub open spec fn spec_value_number(v: Value) -> int {
    match v {
        Value::I(n) => n as int,
        Value::I64(n) => n as int,
        Value::Ref(n) => n as int,
        Value::T(b) => if b { 1 } else { 0 },
    }
}

/// A value of type `t` can hold the number `n`.
pub open spec fn number_fits(n: int, t: Type) -> bool {
    match t {
        Type::I => i8::MIN <= n <= i8::MAX,
        Type::I64 => i64::MIN <= n <= i64::MAX,
        Type::Ref => 0 <= n <= usize::MAX,
        Type::T => 0 <= n <= 1,
        Type::F64 => false,
    }
}

/// Casting a value to a type other than `f64` gives a value of that type,
/// holding the same number wherever the type can hold it; cast to a truth
/// value, a number (one that fits an index, or any small integer) is true
/// exactly when it is 1.
pub proof fn lemma_cast_keeps_number(v: Value, t: Type)
    requires
        t != Type::F64,
    ensures
        spec_value_type(spec_cast(v, t)) == t,
        number_fits(spec_value_number(v), t) ==> spec_value_number(spec_cast(v, t)) == spec_value_number(v),
        t == Type::T && (v is I || v is T || 0 <= spec_value_number(v) <= usize::MAX) ==> spec_cast(v, t) == Value::T(
            spec_value_number(v) == 1),
{
    if let Value::I(n) = v {
        assert((n as usize == 1) == (n == 1)) by (bit_vector);
    }
}

/// The number a value stands for as an index.
pub open spec fn spec_value_index(v: Value) -> usize {
    match v {
        Value::I(n) => n as usize,
        Value::I64(n) => n as usize,
        Value::Ref(n) => n,
        Value::T(b) => if b { 1 } else { 0 },
    }
}

/// A cast that the value can undergo: to a type other than `f64`, and to the
/// truth type only from a truth value or from the numbers 0 and 1.
pub open spec fn castable(v: Value, t: Type) -> bool {
    &&& t != Type::F64
    &&& t == Type::T ==> (v is T || spec_value_index(v) <= 1)
}


/// A unit of the assembler: the cells emitted so far, its labels, the path
/// and text of its source, and the units it includes.
#[derive(Debug)]
pub struct Unit {
    pub code: Vec<Code>,
    pub labels: LabelTable,
    pub path: Option<String>,
    pub src: String,
    pub sub_units: Vec<Unit>,
}

proof fn lemma_record_pieces_push(t: Seq<(Ident, LabelView)>, ps: Seq<Piece>, p: Piece, pos: int)
    ensures
        record_pieces(t, ps.push(p), pos) == record_one(record_pieces(t, ps, pos), p, pos + ps.len()),
    decreases ps.len(),
{
    let q = ps.push(p);
    if ps.len() == 0 {
        assert(q[0] == p);
        assert(q.drop_first() =~= Seq::<Piece>::empty());
        assert(record_pieces(t, q, pos) == record_pieces(record_one(t, p, pos), q.drop_first(), pos + 1));
    } else {
        let t1 = record_one(t, ps[0], pos);
        assert(q[0] == ps[0]);
        assert(q.drop_first() =~= ps.drop_first().push(p));
        assert(record_pieces(t, q, pos) == record_pieces(t1, q.drop_first(), pos + 1));
        assert(record_pieces(t, ps, pos) == record_pieces(t1, ps.drop_first(), pos + 1));
        lemma_record_pieces_push(t1, ps.drop_first(), p, pos + 1);
    }
}

/// The value cast to the type.
fn cast_value(v: Value, t: Type) -> (res: Value)
    requires
        castable(v, t),
    ensures
        res == spec_cast(v, t),
{
    match t {
        Type::I => match v {
            Value::I(n) => Value::I(n),
            Value::I64(n) => Value::I(n as i8),
            Value::Ref(n) => Value::I(n as i8),
            Value::T(b) => Value::I(if b { 1 } else { 0 }),
        },
        Type::I64 => match v {
            Value::I(n) => Value::I64(n as i64),
            Value::I64(n) => Value::I64(n),
            Value::Ref(n) => Value::I64(n as i64),
            Value::T(b) => Value::I64(if b { 1 } else { 0 }),
        },
        Type::Ref => match v {
            Value::I(n) => Value::Ref(n as usize),
            Value::I64(n) => Value::Ref(n as usize),
            Value::Ref(n) => Value::Ref(n),
            Value::T(b) => Value::Ref(if b { 1 } else { 0 }),
        },
        Type::T => match v {
            Value::T(b) => Value::T(b),
            Value::I(n) => Value::T(n as usize == 1),
            Value::I64(n) => Value::T(n as usize == 1),
            Value::Ref(n) => Value::T(n == 1),
        },
        Type::F64 => vstd::pervasive::unreached(),
    }
}

/// The pieces a statement other than `dv` emits.
fn statement_pieces(st: &Statement<Operand>) -> (ps: Vec<Piece>)
    requires
        st.kw != Keyword::Dv,
        (st.kw == Keyword::Cmp || st.kw == Keyword::Mov) ==> stmt_args(*st).len() >= 2,
    ensures
        ps@ == stmt_pieces(*st),
{
    let mut args: Vec<Operand> = Vec::new();
    if let Some(a) = &st.arg1 {
        args.push(copy_operand(a));
    }
    if let Some(b) = &st.arg2 {
        args.push(copy_operand(b));
    }
    assert(args@ =~= stmt_args(*st));
    let mut ps: Vec<Piece> = Vec::new();
    match st.kw {
        Keyword::Cmp => {
            ps.push(Piece::Cell(Code::Instruction(Instruction::Push)));
            ps.push(Piece::Op(copy_operand(&args[0])));
            ps.push(Piece::Cell(Code::Instruction(Instruction::Push)));
            ps.push(Piece::Op(copy_operand(&args[1])));
            ps.push(Piece::Cell(Code::Instruction(Instruction::Cmp)));
        },
        Keyword::Mov => {
            ps.push(Piece::Cell(Code::Instruction(Instruction::Push)));
            match &args[1] {
                Operand::Deref(b) => {
                    ps.push(Piece::Op(copy_operand(b)));
                    ps.push(Piece::Cell(Code::Instruction(Instruction::Load)));
                },
                other => ps.push(Piece::Op(copy_operand(other))),
            }
            if let Some(t) = st.ty {
                ps.push(Piece::Cell(Code::Instruction(Instruction::Cast)));
                ps.push(Piece::Cell(Code::Value(Value::I(i8::from(t)))));
            }
            match &args[0] {
                Operand::Deref(b) => {
                    ps.push(Piece::Cell(Code::Instruction(Instruction::Push)));
                    ps.push(Piece::Op(copy_operand(b)));
                    ps.push(Piece::Cell(Code::Instruction(Instruction::Store)));
                },
                other => {
                    ps.push(Piece::Cell(Code::Instruction(Instruction::Pop)));
                    ps.push(Piece::Op(copy_operand(other)));
                },
            }
        },
        _ => {
            let inx = st.inx();
            if args.len() == 0 {
                ps.push(Piece::Cell(Code::Instruction(inx)));
            } else if args.len() == 1 {
                ps.push(Piece::Cell(Code::Instruction(inx)));
                ps.push(Piece::Op(copy_operand(&args[0])));
            } else {
                ps.push(Piece::Cell(Code::Instruction(Instruction::Push)));
                ps.push(Piece::Op(copy_operand(&args[0])));
                if let Some(t) = st.ty {
                    ps.push(Piece::Cell(Code::Instruction(Instruction::Cast)));
                    ps.push(Piece::Cell(Code::Value(Value::I(i8::from(t)))));
                }
                ps.push(Piece::Cell(Code::Instruction(Instruction::Push)));
                ps.push(Piece::Op(copy_operand(&args[1])));
                ps.push(Piece::Cell(Code::Instruction(inx)));
                ps.push(Piece::Cell(Code::Instruction(Instruction::Pop)));
                ps.push(Piece::Op(copy_operand(&args[0])));
            }
        },
    }
    assert(ps@ =~= stmt_pieces(*st));
    ps
}


/// The first operand of a statement, if it has one.
pub open spec fn first_arg(st: Statement<Operand>) -> Option<Operand> {
    let args = stmt_args(st);
    if args.len() > 0 {
        Some(args[0])
    } else {
        None
    }
}

/// A `dv` whose first operand is a constant and which is typed casts the
/// constant only to a type it can take.
pub open spec fn dv_castable(st: Statement<Operand>) -> bool {
    match (first_arg(st), st.ty) {
        (Some(Operand::Value(v)), Some(t)) => castable(v, t),
        _ => true,
    }
}

/// The unit's own state besides its cells and labels is unchanged.
pub open spec fn keeps_source(a: Unit, b: Unit) -> bool {
    &&& b.path == a.path
    &&& b.src == a.src
    &&& b.sub_units == a.sub_units
}

proof fn lemma_view_has_key(e: Seq<(Ident, Label)>, k: Seq<char>)
    ensures
        view_has_key(table_view(e), k) == has_key(e, k),
{
    if has_key(e, k) {
        let i = choose|i: int| 0 <= i < e.len() && (#[trigger] e[i]).0.raw@ == k;
        assert(table_view(e)[i].0.raw@ == k);
    }
    if view_has_key(table_view(e), k) {
        let i = choose|i: int| 0 <= i < table_view(e).len() && (#[trigger] table_view(e)[i]).0.raw@ == k;
        assert(e[i].0.raw@ == k);
    }
}

impl Unit {
    /// An empty unit of the source text read from `path`.
    pub fn from_path(src: String, path: String) -> (res: Self)
        ensures
            res.code@.len() == 0,
            res.labels.entries@.len() == 0,
            res.path == Some(path),
            res.src == src,
            res.sub_units@.len() == 0,
    {
        Unit { code: Vec::new(), labels: LabelTable { entries: Vec::new() }, path: Some(path), src, sub_units: Vec::new() }
    }

    /// An empty unit of the source text, read from no file.
    pub fn from(src: String) -> (res: Self)
        ensures
            res.code@.len() == 0,
            res.labels.entries@.len() == 0,
            res.path is None,
            res.src == src,
            res.sub_units@.len() == 0,
    {
        Unit { code: Vec::new(), labels: LabelTable { entries: Vec::new() }, path: None, src, sub_units: Vec::new() }
    }

    /// Emits an instruction.
    pub fn push_inx(&mut self, inx: Instruction)
        ensures
            final(self).code@ == old(self).code@.push(Code::Instruction(inx)),
            final(self).labels == old(self).labels,
            keeps_source(*old(self), *final(self)),
    {
        self.code.push(Code::Instruction(inx));
    }

    /// Records a use of the label `id` at cell `pos`.
    fn use_label(&mut self, id: &Ident, pos: usize)
        requires
            keys_unique(old(self).labels.entries@),
        ensures
            keys_unique(final(self).labels.entries@),
            table_view(final(self).labels.entries@) == record_use(table_view(old(self).labels.entries@), *id, pos),
            final(self).code == old(self).code,
            keeps_source(*old(self), *final(self)),
    {
        let ghost e0 = self.labels.entries@;
        let ghost t0 = table_view(e0);
        proof {
            lemma_view_has_key(e0, id.raw@);
        }
        match find_entry(&self.labels.entries, id.raw.as_str()) {
            Some(p) => {
                let mut e = self.labels.entries.remove(p);
                e.1.locations.push((id.clone(), pos));
                self.labels.entries.insert(p, e);
                proof {
                    assert(self.labels.entries@ =~= e0.update(p as int, e));
                    let k = choose|i: int| 0 <= i < t0.len() && (#[trigger] t0[i]).0.raw@ == id.raw@;
                    assert(e0[k].0.raw@ == e0[p as int].0.raw@);
                    assert(k == p);
                    assert(table_view(self.labels.entries@) =~= record_use(t0, *id, pos));
                    assert forall|i: int, j: int|
                        0 <= i < self.labels.entries@.len() && 0 <= j < self.labels.entries@.len() && i != j implies (
                        #[trigger] self.labels.entries@[i]).0.raw@ != (#[trigger] self.labels.entries@[j]).0.raw@ by {
                        assert(e0[i].0.raw@ != e0[j].0.raw@);
                    }
                }
            },
            None => {
                let l = Label::new().location(id, pos);
                proof {
                    assert(l.locations@ =~= seq![(*id, pos)]);
                    assert(label_view(l) == LabelView { decl: None, locations: seq![(*id, pos)], parent: None, public: false });
                }
                self.labels.entries.push((id.clone(), l));
                proof {
                    assert(table_view(self.labels.entries@) =~= record_use(t0, *id, pos));
                    assert forall|i: int, j: int|
                        0 <= i < self.labels.entries@.len() && 0 <= j < self.labels.entries@.len() && i != j implies (
                        #[trigger] self.labels.entries@[i]).0.raw@ != (#[trigger] self.labels.entries@[j]).0.raw@ by {
                        if i < e0.len() && j < e0.len() {
                            assert(e0[i].0.raw@ != e0[j].0.raw@);
                        } else if i < e0.len() {
                            assert(e0[i].0.raw@ != id.raw@);
                        } else {
                            assert(e0[j].0.raw@ != id.raw@);
                        }
                    }
                }
            },
        }
    }

    /// Emits the cell of an operand; a label operand is recorded as a use of
    /// the label at that cell, which holds a placeholder until linking.
    pub fn compile_operand(&mut self, op: Operand) -> (res: Result<(), String>)
        requires
            keys_unique(old(self).labels.entries@),
            !(op is Deref),
        ensures
            res is Ok,
            final(self).code@ == old(self).code@.push(operand_cell(op)),
            keys_unique(final(self).labels.entries@),
            table_view(final(self).labels.entries@) == record_one(table_view(old(self).labels.entries@), Piece::Op(op),
                old(self).code@.len() as int),
            keeps_source(*old(self), *final(self)),
    {
        let len = self.code.len();
        let cell = match &op {
            Operand::Ident(ident) => {
                self.use_label(ident, len);
                Code::Value(Value::Ref(usize::MAX))
            },
            Operand::Register(reg) => Code::Register(*reg),
            Operand::Value(value) => Code::Value(*value),
            Operand::Deref(_) => vstd::pervasive::unreached(),
        };
        self.code.push(cell);
        Ok(())
    }

    /// Emits one piece.
    fn emit(&mut self, p: &Piece)
        requires
            keys_unique(old(self).labels.entries@),
            !(*p matches Piece::Op(Operand::Deref(_))),
        ensures
            final(self).code@ == old(self).code@.push(piece_cell(*p)),
            keys_unique(final(self).labels.entries@),
            table_view(final(self).labels.entries@) == record_one(table_view(old(self).labels.entries@), *p,
                old(self).code@.len() as int),
            keeps_source(*old(self), *final(self)),
    {
        match p {
            Piece::Cell(c) => self.code.push(*c),
            Piece::Op(o) => {
                let _ = self.compile_operand(copy_operand(o));
            },
        }
    }

    /// Emits the pieces in order.
    fn emit_all(&mut self, ps: &Vec<Piece>)
        requires
            keys_unique(old(self).labels.entries@),
            plain_ops(ps@),
        ensures
            final(self).code@ == old(self).code@ + piece_cells(ps@),
            keys_unique(final(self).labels.entries@),
            table_view(final(self).labels.entries@) == record_pieces(table_view(old(self).labels.entries@), ps@,
                old(self).code@.len() as int),
            keeps_source(*old(self), *final(self)),
    {
        let ghost c0 = self.code@;
        let ghost t0 = table_view(self.labels.entries@);
        let mut k: usize = 0;
        while k < ps.len()
            invariant
                k <= ps@.len(),
                plain_ops(ps@),
                keys_unique(self.labels.entries@),
                self.code@ == c0 + piece_cells(ps@.subrange(0, k as int)),
                table_view(self.labels.entries@) == record_pieces(t0, ps@.subrange(0, k as int), c0.len() as int),
                keeps_source(*old(self), *self),
            decreases ps@.len() - k,
        {
            let ghost pre = ps@.subrange(0, k as int);
            proof {
                assert(!(ps@[k as int] matches Piece::Op(Operand::Deref(_))));
                lemma_record_pieces_push(t0, pre, ps@[k as int], c0.len() as int);
                assert(ps@.subrange(0, k + 1) =~= pre.push(ps@[k as int]));
                assert(piece_cells(pre.push(ps@[k as int])) =~= piece_cells(pre).push(piece_cell(ps@[k as int])));
            }
            self.emit(&ps[k]);
            k += 1;
        }
        proof {
            assert(ps@.subrange(0, k as int) =~= ps@);
        }
    }

    /// Compiles a statement: `dv` emits its constant, cast to the type when
    /// the statement is typed; every other statement emits the pieces
    /// `stmt_pieces` describes.
    pub fn compile_statement(&mut self, stmt: Statement<Operand>) -> (res: Result<(), Error>)
        requires
            keys_unique(old(self).labels.entries@),
            stmt.kw == Keyword::Dv ==> dv_castable(stmt),
            stmt.kw != Keyword::Dv ==> compilable(stmt),
        ensures
            keys_unique(final(self).labels.entries@),
            keeps_source(*old(self), *final(self)),
            stmt.kw == Keyword::Dv ==> match first_arg(stmt) {
                None => res matches Err(e) && is_single_error(e, Some(ErrorType::ExpectedGot), (0usize, 0usize, 0usize),
                    spec_expected_either_msg(seq!["label"@, "const"@], None)) && final(self).code@ == old(self).code@
                    && final(self).labels == old(self).labels,
                Some(Operand::Value(v)) => res is Ok && final(self).code@ == old(self).code@.push(Code::Value(
                    match stmt.ty {
                        Some(t) => spec_cast(v, t),
                        None => v,
                    })) && final(self).labels == old(self).labels,
                Some(other) => res matches Err(e) && is_single_error(e, Some(ErrorType::NotAValue), (0usize, 0usize, 0usize),
                    raise::spec_not_a_value_msg(other)) && final(self).code@ == old(self).code@
                    && final(self).labels == old(self).labels,
            },
            stmt.kw != Keyword::Dv ==> {
                &&& res is Ok
                &&& final(self).code@ == old(self).code@ + piece_cells(stmt_pieces(stmt))
                &&& table_view(final(self).labels.entries@) == record_pieces(table_view(old(self).labels.entries@),
                    stmt_pieces(stmt), old(self).code@.len() as int)
            },
    {
        if let Keyword::Dv = stmt.kw {
            let first = match stmt.arg1 {
                Some(a) => Some(a),
                None => stmt.arg2,
            };
            match first {
                None => {
                    let r = raise::expected_either_got(&["label", "const"], None);
                    proof {
                        assert(["label", "const"]@.map_values(|s: &str| s@) =~= seq!["label"@, "const"@]);
                    }
                    r
                },
                Some(Operand::Value(value)) => {
                    let v = match stmt.ty {
                        Some(t) => cast_value(value, t),
                        None => value,
                    };
                    self.code.push(Code::Value(v));
                    Ok(())
                },
                Some(arg) => raise::not_a_value(arg),
            }
        } else {
            let ps = statement_pieces(&stmt);
            self.emit_all(&ps);
            Ok(())
        }
    }

    /// Declares the label `ident` at cell `off`: an undeclared label of that
    /// name takes the declaration, or a new label is made; a label declared
    /// before is a redeclaration.
    pub fn declare_label(&mut self, ident: Ident, off: usize) -> (res: Result<(), Error>)
        requires
            keys_unique(old(self).labels.entries@),
        ensures
            keys_unique(final(self).labels.entries@),
            final(self).code == old(self).code,
            keeps_source(*old(self), *final(self)),
            declared_in(table_view(old(self).labels.entries@), ident.raw@) ==> (res matches Err(e) && is_single_error(e,
                Some(ErrorType::Redeclared), (0usize, 0usize, 0usize), spec_redeclared_msg(ident))
                && final(self).labels == old(self).labels),
            !declared_in(table_view(old(self).labels.entries@), ident.raw@) ==> res is Ok && table_view(
                final(self).labels.entries@) == record_decl(table_view(old(self).labels.entries@), ident, off),
    {
        let ghost e0 = self.labels.entries@;
        let ghost t0 = table_view(e0);
        proof {
            lemma_view_has_key(e0, ident.raw@);
        }
        match find_entry(&self.labels.entries, ident.raw.as_str()) {
            Some(p) => {
                proof {
                    assert(t0[p as int].0.raw@ == ident.raw@);
                    assert forall|i: int| 0 <= i < t0.len() && (#[trigger] t0[i]).0.raw@ == ident.raw@ implies i == p by {
                        assert(e0[i].0.raw@ == e0[p as int].0.raw@);
                    }
                }
                if self.labels.entries[p].1.decl.is_some() {
                    proof {
                        assert(declared_in(t0, ident.raw@));
                    }
                    return raise::redeclared(&ident);
                }
                let mut e = self.labels.entries.remove(p);
                e.1.decl = Some((ident, off));
                self.labels.entries.insert(p, e);
                proof {
                    assert(!declared_in(t0, ident.raw@));
                    assert(self.labels.entries@ =~= e0.update(p as int, e));
                    let k = choose|i: int| 0 <= i < t0.len() && (#[trigger] t0[i]).0.raw@ == ident.raw@;
                    assert(k == p);
                    assert(table_view(self.labels.entries@) =~= record_decl(t0, ident, off));
                    assert forall|i: int, j: int|
                        0 <= i < self.labels.entries@.len() && 0 <= j < self.labels.entries@.len() && i != j implies (
                        #[trigger] self.labels.entries@[i]).0.raw@ != (#[trigger] self.labels.entries@[j]).0.raw@ by {
                        assert(e0[i].0.raw@ != e0[j].0.raw@);
                    }
                }
                Ok(())
            },
            None => {
                let ghost id = ident;
                let l = Label::new().declaration(&ident, off);
                proof {
                    assert(l.locations@ =~= Seq::<(Ident, usize)>::empty());
                    assert(label_view(l) == LabelView { decl: Some((id, off)), locations: Seq::empty(), parent: None, public: false });
                }
                self.labels.entries.push((ident, l));
                proof {
                    assert(!declared_in(t0, id.raw@));
                    assert(table_view(self.labels.entries@) =~= record_decl(t0, id, off));
                    assert forall|i: int, j: int|
                        0 <= i < self.labels.entries@.len() && 0 <= j < self.labels.entries@.len() && i != j implies (
                        #[trigger] self.labels.entries@[i]).0.raw@ != (#[trigger] self.labels.entries@[j]).0.raw@ by {
                        if i < e0.len() && j < e0.len() {
                            assert(e0[i].0.raw@ != e0[j].0.raw@);
                        } else if i < e0.len() {
                            assert(e0[i].0.raw@ != id.raw@);
                        } else {
                            assert(e0[j].0.raw@ != id.raw@);
                        }
                    }
                }
                Ok(())
            },
        }
    }
}


/// Every use of a label of `t` lies below `len`.
pub open spec fn uses_below(t: Seq<(Ident, LabelView)>, len: int) -> bool {
    forall|i: int, j: int| 0 <= i < t.len() && 0 <= j < t[i].1.locations.len() ==> (#[trigger] t[i].1.locations[j]).1 < len
}

/// Position `p` is one of the uses in `locs`.
pub open spec fn used_at(locs: Seq<(Ident, usize)>, p: int) -> bool {
    exists|j: int| 0 <= j < locs.len() && (#[trigger] locs[j]).1 == p
}

/// The code after each use of the label `l`, when it is declared, is set to
/// a reference to its declaration.
pub open spec fn patch_label(code: Seq<Code>, l: LabelView) -> Seq<Code> {
    match l.decl {
        Some((_, off)) => Seq::new(code.len(), |p: int| if used_at(l.locations, p) {
            Code::Value(Value::Ref(off))
        } else {
            code[p]
        }),
        None => code,
    }
}

/// The code after patching the uses of the labels of `t`, in order.
pub open spec fn patch_table(code: Seq<Code>, t: Seq<(Ident, LabelView)>) -> Seq<Code>
    decreases t.len(),
{
    if t.len() == 0 {
        code
    } else {
        patch_label(patch_table(code, t.drop_last()), t.last().1)
    }
}

/// The identifiers of the uses of undeclared labels of `t`, in order.
pub open spec fn undeclared_uses(t: Seq<(Ident, LabelView)>) -> Seq<Ident>
    decreases t.len(),
{
    if t.len() == 0 {
        Seq::empty()
    } else {
        undeclared_uses(t.drop_last()) + if t.last().1.decl is None {
            t.last().1.locations.map_values(|u: (Ident, usize)| u.0)
        } else {
            Seq::empty()
        }
    }
}

/// `e` reports each use of `ids` as undeclared, one line each, in order.
pub open spec fn reports_undeclared(e: Error, ids: Seq<Ident>) -> bool {
    &&& e.ty is None
    &&& e.loc == (0usize, 0usize, 0usize)
    &&& e.content@.len() == ids.len()
    &&& forall|k: int| 0 <= k < ids.len() ==> is_error_line(#[trigger] e.content@[k]@, ids[k].loc, spec_not_declared_msg(ids[k]))
}


impl Unit {
    /// Replaces each use of a declared label by a reference to its
    /// declaration; uses of undeclared labels are reported, one error line
    /// each.
    fn resolve(&mut self) -> (res: Result<(), Error>)
        requires
            uses_below(table_view(old(self).labels.entries@), old(self).code@.len() as int),
        ensures
            final(self).labels == old(self).labels,
            keeps_source(*old(self), *final(self)),
            final(self).code@ == patch_table(old(self).code@, table_view(old(self).labels.entries@)),
            match res {
                Ok(_) => undeclared_uses(table_view(old(self).labels.entries@)).len() == 0,
                Err(e) => undeclared_uses(table_view(old(self).labels.entries@)).len() > 0 && reports_undeclared(e,
                    undeclared_uses(table_view(old(self).labels.entries@))),
            },
    {
        let ghost t = table_view(self.labels.entries@);
        let ghost code0 = self.code@;
        let n = self.labels.entries.len();
        let mut err = Error::new();
        let mut i: usize = 0;
        proof {
            assert(t.subrange(0, 0) =~= Seq::<(Ident, LabelView)>::empty());
        }
        while i < n
            invariant
                i <= n,
                n == t.len(),
                t == table_view(self.labels.entries@),
                self.labels == old(self).labels,
                keeps_source(*old(self), *self),
                uses_below(t, code0.len() as int),
                self.code@.len() == code0.len(),
                self.code@ == patch_table(code0, t.subrange(0, i as int)),
                reports_undeclared(err, undeclared_uses(t.subrange(0, i as int))),
            decreases n - i,
        {
            let ghost before = self.code@;
            let ghost l = t[i as int].1;
            let m = self.labels.entries[i].1.locations.len();
            proof {
                assert(t.subrange(0, i + 1).drop_last() =~= t.subrange(0, i as int));
                assert(t.subrange(0, i + 1).last() == t[i as int]);
            }
            match &self.labels.entries[i].1.decl {
                Some(d) => {
                    let off = d.1;
                    let mut j: usize = m;
                    while j > 0
                        invariant
                            j <= m,
                            m == l.locations.len(),
                            l == table_view(self.labels.entries@)[i as int].1,
                            l.decl matches Some(d) && d.1 == off,
                            self.labels == old(self).labels,
                            keeps_source(*old(self), *self),
                            uses_below(t, code0.len() as int),
                            t == table_view(self.labels.entries@),
                            i < t.len(),
                            before.len() == code0.len(),
                            self.code@.len() == before.len(),
                            forall|p: int| 0 <= p < before.len() ==> #[trigger] self.code@[p] == if (exists|jj: int| j <= jj < m
                                && (#[trigger] l.locations[jj]).1 == p) {
                                Code::Value(Value::Ref(off))
                            } else {
                                before[p]
                            },
                        decreases j,
                    {
                        j -= 1;
                        let idx = self.labels.entries[i].1.locations[j].1;
                        proof {
                            assert(l.locations[j as int].1 < code0.len());
                        }
                        self.code.set(idx, Code::Value(Value::Ref(off)));
                        proof {
                            assert forall|p: int| 0 <= p < before.len() implies #[trigger] self.code@[p] == if (exists|jj: int| j
                                <= jj < m && (#[trigger] l.locations[jj]).1 == p) {
                                Code::Value(Value::Ref(off))
                            } else {
                                before[p]
                            } by {
                                if p == idx as int {
                                    assert(l.locations[j as int].1 == p);
                                }
                            }
                        }
                    }
                    proof {
                        assert(self.code@ =~= patch_label(before, l));
                        assert(undeclared_uses(t.subrange(0, i + 1)) =~= undeclared_uses(t.subrange(0, i as int)));
                    }
                },
                None => {
                    let ghost ids0 = undeclared_uses(t.subrange(0, i as int));
                    let ghost us = l.locations.map_values(|u: (Ident, usize)| u.0);
                    let mut j: usize = 0;
                    while j < m
                        invariant
                            j <= m,
                            m == l.locations.len(),
                            l == table_view(self.labels.entries@)[i as int].1,
                            us == l.locations.map_values(|u: (Ident, usize)| u.0),
                            self.labels == old(self).labels,
                            self.code@ == before,
                            keeps_source(*old(self), *self),
                            t == table_view(self.labels.entries@),
                            i < t.len(),
                            reports_undeclared(err, ids0 + us.subrange(0, j as int)),
                        decreases m - j,
                    {
                        let r = raise::not_declared::<()>(&self.labels.entries[i].1.locations[j].0);
                        let line = match r {
                            Err(e) => e.content[0].clone(),
                            Ok(_) => vstd::pervasive::unreached(),
                        };
                        err.content.push(line);
                        proof {
                            assert(ids0 + us.subrange(0, j + 1) =~= (ids0 + us.subrange(0, j as int)).push(us[j as int]));
                        }
                        j += 1;
                    }
                    proof {
                        assert(us.subrange(0, m as int) =~= us);
                        assert(patch_label(before, l) == before);
                    }
                },
            }
            i += 1;
        }
        proof {
            assert(t.subrange(0, n as int) =~= t);
        }
        if err.content.len() == 0 {
            Ok(())
        } else {
            Err(err)
        }
    }
}


/// The number of cells a unit has once linked: its own and those of its
/// included units, linked.
pub open spec fn linked_len(u: Unit) -> int
    decreases u, 1int,
{
    u.code@.len() + subs_len(u.sub_units@)
}

/// The number of cells the units of `s` have once linked.
pub open spec fn subs_len(s: Seq<Unit>) -> int
    decreases s, 0int,
{
    if s.len() == 0 {
        0
    } else {
        subs_len(s.drop_last()) + linked_len(s.last())
    }
}

/// How deeply units are included in `u`.
pub open spec fn depth(u: Unit) -> nat
    decreases u, 1int,
{
    1 + subs_depth(u.sub_units@)
}

/// The greatest depth among the units of `s`.
pub open spec fn subs_depth(s: Seq<Unit>) -> nat
    decreases s, 0int,
{
    if s.len() == 0 {
        0
    } else {
        let a = subs_depth(s.drop_last());
        let b = depth(s.last());
        if a < b {
            b
        } else {
            a
        }
    }
}

/// Every label of the table is declared.
pub open spec fn all_declared(e: Seq<(Ident, Label)>) -> bool {
    forall|i: int| 0 <= i < e.len() ==> (#[trigger] e[i]).1.decl is Some
}

/// The offset a label is declared at (0 for an undeclared label).
pub open spec fn decl_offset(l: Label) -> usize {
    match l.decl {
        Some(d) => d.1,
        None => 0,
    }
}

/// The identifier a label is declared with (meaningful for a declared label).
pub open spec fn decl_ident(l: Label) -> Ident {
    match l.decl {
        Some(d) => d.0,
        None => arbitrary(),
    }
}

/// The label named `k` in `e` is undeclared.
pub open spec fn undeclared_key(e: Seq<(Ident, Label)>, k: Seq<char>) -> bool {
    exists|i: int| 0 <= i < e.len() && (#[trigger] e[i]).0.raw@ == k && e[i].1.decl is None
}

/// An included unit can be linked behind `offset` cells into a unit whose
/// labels are `ctx`, after the units `earlier`: it can be linked itself,
/// all its labels are declared and stay addressable once shifted, and each
/// label it shares with `ctx` is undeclared there and in no earlier unit.
pub open spec fn sub_ok(offset: int, ctx: Seq<(Ident, Label)>, earlier: Seq<Unit>, sub: Unit) -> bool
    decreases sub, 2int,
{
    &&& link_ok(sub)
    &&& all_declared(sub.labels.entries@)
    &&& forall|i: int| 0 <= i < sub.labels.entries@.len() ==> decl_offset((#[trigger] sub.labels.entries@[i]).1) + offset
        <= usize::MAX
    &&& forall|k: Seq<char>| has_key(sub.labels.entries@, k) && has_key(ctx, k) ==> undeclared_key(ctx, k) && forall|t: int|
        0 <= t < earlier.len() ==> !has_key((#[trigger] earlier[t]).labels.entries@, k)
}

/// The units `s`, included after `base` cells into a unit whose labels are
/// `ctx`, can be linked in order.
pub open spec fn subs_ok(base: int, ctx: Seq<(Ident, Label)>, s: Seq<Unit>) -> bool
    decreases s, 0int,
{
    s.len() > 0 ==> {
        &&& subs_ok(base, ctx, s.drop_last())
        &&& sub_ok(base + subs_len(s.drop_last()), ctx, s.drop_last(), s.last())
    }
}

/// A unit can be linked without a fault: its labels are unique, their uses
/// lie in its code, all its cells once linked stay addressable, and its
/// included units can be linked in order.
pub open spec fn link_ok(u: Unit) -> bool
    decreases u, 1int,
{
    &&& keys_unique(u.labels.entries@)
    &&& uses_below(table_view(u.labels.entries@), u.code@.len() as int)
    &&& linked_len(u) <= usize::MAX
    &&& subs_ok(u.code@.len() as int, u.labels.entries@, u.sub_units@)
}


/// The labels of `b` are those of `a`, with the same keys, uses, parents and
/// visibility, and every label declared in `a` declared alike in `b`.
pub open spec fn labels_kept(a: Seq<(Ident, Label)>, b: Seq<(Ident, Label)>) -> bool {
    &&& b.len() == a.len()
    &&& forall|i: int| 0 <= i < a.len() ==> {
        &&& (#[trigger] b[i]).0 == a[i].0
        &&& b[i].1.locations == a[i].1.locations
        &&& b[i].1.parent == a[i].1.parent
        &&& b[i].1.public == a[i].1.public
        &&& a[i].1.decl is Some ==> b[i].1.decl == a[i].1.decl
    }
}

/// Two label tables have the same keys, each undeclared in one exactly when
/// in the other.
pub open spec fn same_status(a: Seq<(Ident, Label)>, b: Seq<(Ident, Label)>) -> bool {
    forall|k: Seq<char>| #![trigger has_key(a, k)] #![trigger has_key(b, k)] has_key(a, k) == has_key(b, k) && undeclared_key(a, k)
        == undeclared_key(b, k)
}

proof fn lemma_subs_ok_ctx(base: int, c1: Seq<(Ident, Label)>, c2: Seq<(Ident, Label)>, s: Seq<Unit>)
    requires
        same_status(c1, c2),
        subs_ok(base, c1, s),
    ensures
        subs_ok(base, c2, s),
    decreases s.len(),
{
    if s.len() > 0 {
        lemma_subs_ok_ctx(base, c1, c2, s.drop_last());
        let sub = s.last();
        let e = s.drop_last();
        let o = base + subs_len(e);
        assert(sub_ok(o, c1, e, sub));
        assert forall|k: Seq<char>| has_key(sub.labels.entries@, k) && has_key(c2, k) implies undeclared_key(c2, k) && forall|t: int|
            0 <= t < e.len() ==> !has_key((#[trigger] e[t]).labels.entries@, k) by {
            assert(has_key(c1, k));
            assert(undeclared_key(c1, k));
        }
        assert(sub_ok(o, c2, e, sub));
    }
}

proof fn lemma_subs_ok_at(base: int, ctx: Seq<(Ident, Label)>, s: Seq<Unit>, i: int)
    requires
        subs_ok(base, ctx, s),
        0 <= i < s.len(),
    ensures
        sub_ok(base + subs_len(s.subrange(0, i)), ctx, s.subrange(0, i), s[i]),
    decreases s.len(),
{
    if i == s.len() - 1 {
        assert(s.drop_last() =~= s.subrange(0, i));
    } else {
        lemma_subs_ok_at(base, ctx, s.drop_last(), i);
        assert(s.drop_last().subrange(0, i) =~= s.subrange(0, i));
    }
}

proof fn lemma_subs_len_step(s: Seq<Unit>, i: int)
    requires
        0 <= i < s.len(),
    ensures
        subs_len(s.subrange(0, i + 1)) == subs_len(s.subrange(0, i)) + linked_len(s[i]),
{
    assert(s.subrange(0, i + 1).drop_last() =~= s.subrange(0, i));
}

proof fn lemma_linked_len_nonneg(u: Unit)
    ensures
        linked_len(u) >= 0,
    decreases u, 1int,
{
    assert(decreases_to!(u => u.sub_units));
    assert(decreases_to!(u.sub_units => u.sub_units@));
    lemma_subs_len_nonneg(u.sub_units@);
}

proof fn lemma_subs_len_nonneg(s: Seq<Unit>)
    ensures
        subs_len(s) >= 0,
    decreases s, 0int,
{
    if s.len() > 0 {
        lemma_subs_len_nonneg(s.drop_last());
        assert(decreases_to!(s => s[s.len() - 1]));
        lemma_linked_len_nonneg(s.last());
    }
}

/// The units of a prefix have no more cells once linked than all of them.
proof fn lemma_subs_len_mono(s: Seq<Unit>, i: int)
    requires
        0 <= i <= s.len(),
    ensures
        subs_len(s.subrange(0, i)) <= subs_len(s),
    decreases s.len() - i,
{
    if i < s.len() {
        lemma_subs_len_step(s, i);
        lemma_linked_len_nonneg(s[i]);
        lemma_subs_len_mono(s, i + 1);
    } else {
        assert(s.subrange(0, i) =~= s);
    }
}

/// A table with a use of an undeclared label has a use, so its code has a cell.
proof fn lemma_undeclared_has_use(t: Seq<(Ident, LabelView)>, len: int)
    requires
        undeclared_uses(t).len() > 0,
        uses_below(t, len),
    ensures
        len > 0,
    decreases t.len(),
{
    let d = t.drop_last();
    if t.last().1.decl is None && t.last().1.locations.len() > 0 {
        assert(t.last() == t[t.len() - 1]);
        assert(t[t.len() - 1].1.locations[0].1 < len);
    } else {
        assert(undeclared_uses(d).len() > 0);
        assert(uses_below(d, len)) by {
            assert forall|i: int, j: int| 0 <= i < d.len() && 0 <= j < d[i].1.locations.len() implies (
            #[trigger] d[i].1.locations[j]).1 < len by {
                assert(d[i] == t[i]);
            }
        }
        lemma_undeclared_has_use(d, len);
    }
}

proof fn lemma_depth_at(s: Seq<Unit>, i: int)
    requires
        0 <= i < s.len(),
    ensures
        depth(s[i]) <= subs_depth(s),
    decreases s.len(),
{
    if i < s.len() - 1 {
        lemma_depth_at(s.drop_last(), i);
    }
}

/// The labels of `t`, all declared, with their declarations moved `off`
/// cells on.
fn shift_decls(t: &mut LabelTable, off: usize)
    requires
        all_declared(old(t).entries@),
        forall|i: int| 0 <= i < old(t).entries@.len() ==> decl_offset((#[trigger] old(t).entries@[i]).1) + off <= usize::MAX,
    ensures
        final(t).entries@.len() == old(t).entries@.len(),
        forall|i: int| 0 <= i < old(t).entries@.len() ==> {
            &&& (#[trigger] final(t).entries@[i]).0 == old(t).entries@[i].0
            &&& final(t).entries@[i].1.locations == old(t).entries@[i].1.locations
            &&& final(t).entries@[i].1.parent == old(t).entries@[i].1.parent
            &&& final(t).entries@[i].1.public == old(t).entries@[i].1.public
            &&& final(t).entries@[i].1.decl is Some
            &&& final(t).entries@[i].1.decl->0 == (decl_ident(old(t).entries@[i].1), (decl_offset(old(t).entries@[i].1) + off) as usize)
        },
{
    let ghost orig = t.entries@;
    let n = t.entries.len();
    let mut i: usize = 0;
    while i < n
        invariant
            i <= n,
            n == orig.len(),
            t.entries@.len() == n,
            all_declared(orig),
            forall|k: int| 0 <= k < n ==> decl_offset((#[trigger] orig[k]).1) + off <= usize::MAX,
            forall|k: int| i <= k < n ==> #[trigger] t.entries@[k] == orig[k],
            forall|k: int| 0 <= k < i ==> {
                &&& (#[trigger] t.entries@[k]).0 == orig[k].0
                &&& t.entries@[k].1.locations == orig[k].1.locations
                &&& t.entries@[k].1.parent == orig[k].1.parent
                &&& t.entries@[k].1.public == orig[k].1.public
                &&& t.entries@[k].1.decl is Some
                &&& t.entries@[k].1.decl->0 == (decl_ident(orig[k].1), (decl_offset(orig[k].1) + off) as usize)
            },
        decreases n - i,
    {
        let ghost before = t.entries@;
        let mut e = t.entries.remove(i);
        let d = e.1.decl;
        e.1.decl = match d {
            Some((id, o)) => Some((id, o + off)),
            None => None,
        };
        t.entries.insert(i, e);
        proof {
            assert(t.entries@ =~= before.update(i as int, e));
        }
        i += 1;
    }
}


proof fn lemma_patch_prefix(c: Seq<Code>, t: Seq<(Ident, LabelView)>, len: int)
    requires
        0 <= len <= c.len(),
    ensures
        patch_table(c, t).len() == c.len(),
        patch_table(c, t).subrange(0, len) == patch_table(c.subrange(0, len), t),
    decreases t.len(),
{
    if t.len() > 0 {
        lemma_patch_prefix(c, t.drop_last(), len);
        let p = patch_table(c, t.drop_last());
        assert(patch_label(p, t.last().1).subrange(0, len) =~= patch_label(p.subrange(0, len), t.last().1));
    }
}

/// Patching the uses of labels that all lie before `len` leaves the cells from
/// `len` on as they are.
proof fn lemma_patch_suffix(c: Seq<Code>, t: Seq<(Ident, LabelView)>, len: int)
    requires
        0 <= len <= c.len(),
        uses_below(t, len),
    ensures
        patch_table(c, t).len() == c.len(),
        patch_table(c, t).subrange(len, c.len() as int) == c.subrange(len, c.len() as int),
    decreases t.len(),
{
    if t.len() > 0 {
        let t0 = t.drop_last();
        assert(uses_below(t0, len)) by {
            assert forall|i: int, j: int| 0 <= i < t0.len() && 0 <= j < t0[i].1.locations.len() implies (
                #[trigger] t0[i].1.locations[j]).1 < len by {
                assert(t0[i] == t[i]);
            }
        }
        lemma_patch_suffix(c, t0, len);
        let p = patch_table(c, t0);
        let l = t.last().1;
        assert forall|q: int| len <= q < c.len() implies !used_at(l.locations, q) by {
            if used_at(l.locations, q) {
                let j = choose|j: int| 0 <= j < l.locations.len() && (#[trigger] l.locations[j]).1 == q;
                assert(t[t.len() - 1].1.locations[j].1 < len);
            }
        }
        assert(patch_label(p, l).subrange(len, c.len() as int) =~= p.subrange(len, c.len() as int));
    }
}

/// The label entry `e` with its declaration moved `off` cells further.
pub open spec fn shifted_entry(e: (Ident, Label), off: int) -> (Ident, Label) {
    (e.0, with_decl(e.1, Some((decl_ident(e.1), (decl_offset(e.1) + off) as usize))))
}

/// The cells of the units of `s`, one unit after the other.
pub open spec fn cells_of(s: Seq<Unit>) -> Seq<Code>
    decreases s.len(),
{
    if s.len() == 0 {
        Seq::empty()
    } else {
        cells_of(s.drop_last()) + s.last().code@
    }
}

/// The label entry `e` once the labels of each unit of `s` are merged into it,
/// in order (`merge_labels`).
pub open spec fn merged_through(e: (Ident, Label), s: Seq<Unit>) -> (Ident, Label)
    decreases s.len(),
{
    if s.len() == 0 {
        e
    } else {
        merged_entry(merged_through(e, s.drop_last()), s.last().labels.entries@)
    }
}

/// No two labels of `t` are used at the same position.
pub open spec fn uses_disjoint(t: Seq<(Ident, LabelView)>) -> bool {
    forall|a: int, b: int, i: int, j: int|
        0 <= a < t.len() && 0 <= b < t.len() && a != b && 0 <= i < t[a].1.locations.len() && 0 <= j
            < t[b].1.locations.len() ==> (#[trigger] t[a].1.locations[i]).1 != (#[trigger] t[b].1.locations[j]).1
}

/// Every use of a label of `t` holds, in `code`, a reference to the label's
/// declaration (so every used label is declared).
pub open spec fn uses_resolved(code: Seq<Code>, t: Seq<(Ident, LabelView)>) -> bool {
    forall|k: int, j: int|
        0 <= k < t.len() && 0 <= j < t[k].1.locations.len() ==> (t[k].1.decl matches Some(d) && code[(
        #[trigger] t[k].1.locations[j]).1 as int] == Code::Value(Value::Ref(d.1)))
}

/// Patching the labels of a table keeps the length of the code.
proof fn lemma_patch_len(code: Seq<Code>, t: Seq<(Ident, LabelView)>)
    ensures
        patch_table(code, t).len() == code.len(),
    decreases t.len(),
{
    if t.len() > 0 {
        lemma_patch_len(code, t.drop_last());
    }
}

/// A position used by no label of `t` keeps its cell when the table is patched.
proof fn lemma_patch_unused(code: Seq<Code>, t: Seq<(Ident, LabelView)>, p: int)
    requires
        0 <= p < code.len(),
        forall|k: int| 0 <= k < t.len() ==> !used_at(#[trigger] t[k].1.locations, p),
    ensures
        patch_table(code, t)[p] == code[p],
    decreases t.len(),
{
    if t.len() > 0 {
        lemma_patch_len(code, t.drop_last());
        assert forall|k: int| 0 <= k < t.drop_last().len() implies !used_at(#[trigger] t.drop_last()[k].1.locations, p) by {
            assert(t.drop_last()[k] == t[k]);
        }
        lemma_patch_unused(code, t.drop_last(), p);
        assert(!used_at(t[t.len() - 1].1.locations, p));
    }
}

/// Linking resolves each use: once the labels of a table, no two of which
/// share a use position, are patched into the code, the cell at each use of
/// a declared label is a reference to the label's declaration.
pub proof fn lemma_patch_resolves(code: Seq<Code>, t: Seq<(Ident, LabelView)>, k: int, j: int)
    requires
        uses_disjoint(t),
        uses_below(t, code.len() as int),
        0 <= k < t.len(),
        0 <= j < t[k].1.locations.len(),
        t[k].1.decl is Some,
    ensures
        patch_table(code, t)[t[k].1.locations[j].1 as int] == Code::Value(Value::Ref(t[k].1.decl->Some_0.1)),
    decreases t.len(),
{
    let p = t[k].1.locations[j].1 as int;
    let last = t.len() - 1;
    let d = t.drop_last();
    lemma_patch_len(code, d);
    assert(p < code.len());
    if k == last {
        assert(used_at(t[k].1.locations, p));
        assert(t.last() == t[k]);
    } else {
        assert(d[k] == t[k]);
        assert(uses_disjoint(d)) by {
            assert forall|a: int, b: int, i: int, jj: int|
                0 <= a < d.len() && 0 <= b < d.len() && a != b && 0 <= i < d[a].1.locations.len() && 0 <= jj
                    < d[b].1.locations.len() implies (#[trigger] d[a].1.locations[i]).1 != (
            #[trigger] d[b].1.locations[jj]).1 by {
                assert(d[a] == t[a] && d[b] == t[b]);
                assert(t[a].1.locations[i].1 != t[b].1.locations[jj].1);
            }
        }
        assert(uses_below(d, code.len() as int)) by {
            assert forall|a: int, i: int| 0 <= a < d.len() && 0 <= i < d[a].1.locations.len() implies (
            #[trigger] d[a].1.locations[i]).1 < code.len() by {
                assert(d[a] == t[a]);
                assert(t[a].1.locations[i].1 < code.len());
            }
        }
        lemma_patch_resolves(code, d, k, j);
        assert(!used_at(t[last].1.locations, p)) by {
            if used_at(t[last].1.locations, p) {
                let w = choose|w: int| 0 <= w < t[last].1.locations.len() && (#[trigger] t[last].1.locations[w]).1 == p;
                assert(t[k].1.locations[j].1 != t[last].1.locations[w].1);
            }
        }
        assert(t.last() == t[last]);
    }
}

/// In a table whose uses of undeclared labels are none, every used label is declared.
proof fn lemma_no_undeclared(t: Seq<(Ident, LabelView)>, k: int)
    requires
        undeclared_uses(t).len() == 0,
        0 <= k < t.len(),
        t[k].1.locations.len() > 0,
    ensures
        t[k].1.decl is Some,
    decreases t.len(),
{
    let d = t.drop_last();
    if k == t.len() - 1 {
        if t.last().1.decl is None {
            assert(t.last().1.locations.map_values(|u: (Ident, usize)| u.0).len() > 0);
        }
    } else {
        assert(d[k] == t[k]);
        lemma_no_undeclared(d, k);
    }
}

/// Where no label is undeclared and no two labels share a use position, the
/// patched code resolves every use.
pub proof fn lemma_patch_table_resolved(code: Seq<Code>, t: Seq<(Ident, LabelView)>)
    requires
        uses_disjoint(t),
        uses_below(t, code.len() as int),
        undeclared_uses(t).len() == 0,
    ensures
        uses_resolved(patch_table(code, t), t),
{
    assert forall|k: int, j: int| 0 <= k < t.len() && 0 <= j < t[k].1.locations.len() implies (t[k].1.decl matches Some(
        d) && patch_table(code, t)[(#[trigger] t[k].1.locations[j]).1 as int] == Code::Value(Value::Ref(d.1))) by {
        lemma_no_undeclared(t, k);
        lemma_patch_resolves(code, t, k, j);
    }
}

impl Unit {
    /// Links the unit: each included unit has its declarations moved behind
    /// the cells so far, is linked itself, and its cells are appended and its
    /// declarations handed to the labels of this unit that use them; then
    /// each use of a declared label becomes a reference to its declaration,
    /// and uses of undeclared labels are reported. An included unit that fails
    /// to link ends linking with its error, before all cells are in; otherwise
    /// linking succeeds exactly when no use of the final labels is undeclared.
    pub fn link(&mut self) -> (res: Result<(), Error>)
        requires
            link_ok(*old(self)),
        ensures
            final(self).path == old(self).path,
            final(self).src == old(self).src,
            final(self).sub_units@.len() == old(self).sub_units@.len(),
            keys_unique(final(self).labels.entries@),
            labels_kept(old(self).labels.entries@, final(self).labels.entries@),
            res is Ok <==> (final(self).code@.len() == linked_len(*old(self)) && undeclared_uses(table_view(
                final(self).labels.entries@)).len() == 0),
            final(self).code@.len() <= linked_len(*old(self)),
            res is Err ==> linked_len(*old(self)) > 0,
            final(self).code@.len() == linked_len(*old(self)) ==> match res {
                Ok(_) => true,
                Err(e) => reports_undeclared(e, undeclared_uses(table_view(final(self).labels.entries@))),
            },
            res is Ok ==> {
                &&& final(self).code@.len() == linked_len(*old(self))
                &&& undeclared_uses(table_view(final(self).labels.entries@)).len() == 0
                &&& final(self).code@ == patch_table(old(self).code@, table_view(final(self).labels.entries@))
                    + cells_of(final(self).sub_units@)
                &&& forall|k: int| 0 <= k < old(self).labels.entries@.len() ==> #[trigger] final(self).labels.entries@[k]
                    == merged_through(old(self).labels.entries@[k], final(self).sub_units@)
                &&& forall|t: int| 0 <= t < old(self).sub_units@.len() ==> {
                    &&& (#[trigger] final(self).sub_units@[t]).code@.subrange(0, old(self).sub_units@[t].code@.len() as int)
                        == patch_table(old(self).sub_units@[t].code@, table_view(final(self).sub_units@[t].labels.entries@))
                    &&& final(self).sub_units@[t].labels.entries@.len() == old(self).sub_units@[t].labels.entries@.len()
                    &&& forall|i: int| 0 <= i < old(self).sub_units@[t].labels.entries@.len() ==> #[trigger] final(
                        self).sub_units@[t].labels.entries@[i] == shifted_entry(old(self).sub_units@[t].labels.entries@[i],
                        old(self).code@.len() + subs_len(old(self).sub_units@.subrange(0, t)))
                }
            },
            old(self).sub_units@.len() == 0 ==> {
                &&& final(self).labels == old(self).labels
                &&& final(self).code@ == patch_table(old(self).code@, table_view(old(self).labels.entries@))
                &&& match res {
                    Ok(_) => undeclared_uses(table_view(old(self).labels.entries@)).len() == 0,
                    Err(e) => undeclared_uses(table_view(old(self).labels.entries@)).len() > 0 && reports_undeclared(e,
                        undeclared_uses(table_view(old(self).labels.entries@))),
                }
            },
        decreases depth(*old(self)),
    {
        let ghost orig = self.sub_units@;
        let ghost old_len = self.code@.len();
        let ghost e0 = self.labels.entries@;
        let mut subs: Vec<Unit> = Vec::new();
        std::mem::swap(&mut subs, &mut self.sub_units);
        let mut done: Vec<Unit> = Vec::new();
        let n = subs.len();
        let mut i: usize = 0;
        proof {
            assert(orig.subrange(0, 0) =~= Seq::<Unit>::empty());
            assert(orig.subrange(0, n as int) =~= orig);
            assert(self.code@.subrange(0, old_len as int) =~= self.code@);
        }
        while i < n
            invariant
                i <= n,
                n == orig.len(),
                orig == old(self).sub_units@,
                e0 == old(self).labels.entries@,
                old_len == old(self).code@.len(),
                link_ok(*old(self)),
                subs@ == orig.subrange(i as int, n as int),
                done@.len() == i,
                self.sub_units@.len() == 0,
                self.path == old(self).path,
                self.src == old(self).src,
                self.code@.len() == old_len + subs_len(orig.subrange(0, i as int)),
                self.code@.subrange(0, old_len as int) == old(self).code@,
                self.code@.len() >= old_len,
                keys_unique(self.labels.entries@),
                labels_kept(e0, self.labels.entries@),
                forall|k: int|
                    0 <= k < e0.len() && (forall|t: int| 0 <= t < i ==> !has_key((#[trigger] orig[t]).labels.entries@, e0[k].0.raw@))
                        ==> #[trigger] self.labels.entries@[k].1.decl == e0[k].1.decl,
                i == 0 ==> self.labels == old(self).labels && self.code@ == old(self).code@,
                self.code@ == old(self).code@ + cells_of(done@),
                forall|k: int| 0 <= k < e0.len() ==> #[trigger] self.labels.entries@[k] == merged_through(e0[k], done@),
                forall|t: int| 0 <= t < i ==> {
                    &&& (#[trigger] done@[t]).code@.subrange(0, orig[t].code@.len() as int) == patch_table(orig[t].code@,
                        table_view(done@[t].labels.entries@))
                    &&& done@[t].labels.entries@.len() == orig[t].labels.entries@.len()
                    &&& forall|x: int| 0 <= x < orig[t].labels.entries@.len() ==> #[trigger] done@[t].labels.entries@[x]
                        == shifted_entry(orig[t].labels.entries@[x], old_len + subs_len(orig.subrange(0, t)))
                },
            decreases n - i,
        {
            let mut sub = subs.remove(0);
            let ghost osub = orig[i as int];
            let ghost pre = orig.subrange(0, i as int);
            proof {
                assert(sub == osub);
                lemma_subs_ok_at(old_len as int, e0, orig, i as int);
                lemma_subs_len_step(orig, i as int);
                lemma_depth_at(orig, i as int);
                assert(orig.subrange(0, i as int) == pre);
            }
            let off = self.code.len();
            shift_decls(&mut sub.labels, off);
            let ghost shifted = sub;
            proof {
                let se = sub.labels.entries@;
                let oe = osub.labels.entries@;
                assert(sub_ok(old_len + subs_len(pre), e0, pre, osub));
                assert(link_ok(osub));
                assert forall|k: Seq<char>| #![trigger has_key(oe, k)] #![trigger has_key(se, k)] has_key(oe, k) == has_key(se, k)
                    && undeclared_key(oe, k) == undeclared_key(se, k) by {
                    if has_key(oe, k) {
                        let x = choose|x: int| 0 <= x < oe.len() && (#[trigger] oe[x]).0.raw@ == k;
                        assert(se[x].0.raw@ == k);
                    }
                    if has_key(se, k) {
                        let x = choose|x: int| 0 <= x < se.len() && (#[trigger] se[x]).0.raw@ == k;
                        assert(oe[x].0.raw@ == k);
                    }
                    if undeclared_key(se, k) {
                        let x = choose|x: int| 0 <= x < se.len() && (#[trigger] se[x]).0.raw@ == k && se[x].1.decl is None;
                        assert(false);
                    }
                    if undeclared_key(oe, k) {
                        let x = choose|x: int| 0 <= x < oe.len() && (#[trigger] oe[x]).0.raw@ == k && oe[x].1.decl is None;
                        assert(oe[x].1.decl is Some);
                    }
                }
                lemma_subs_ok_ctx(osub.code@.len() as int, oe, se, osub.sub_units@);
                assert forall|a: int, b: int| 0 <= a < se.len() && 0 <= b < se.len() && a != b implies (#[trigger] se[a]).0.raw@
                    != (#[trigger] se[b]).0.raw@ by {
                    assert(oe[a].0.raw@ != oe[b].0.raw@);
                }
                assert(uses_below(table_view(se), sub.code@.len() as int)) by {
                    assert forall|a: int, b: int| 0 <= a < table_view(se).len() && 0 <= b < table_view(se)[a].1.locations.len() implies (
                        #[trigger] table_view(se)[a].1.locations[b]).1 < sub.code@.len() by {
                        assert(table_view(se)[a].1.locations == table_view(oe)[a].1.locations);
                        assert(table_view(oe)[a].1.locations[b].1 < osub.code@.len());
                    }
                }
                assert(link_ok(sub));
                assert(depth(sub) == depth(osub));
            }
            let r = sub.link();
            match r {
                Err(e) => {
                    proof {
                        lemma_subs_len_mono(orig, i + 1);
                        assert(linked_len(osub) > 0);
                    }
                    done.push(sub);
                    done.append(&mut subs);
                    self.sub_units = done;
                    return Err(e);
                },
                Ok(_) => {},
            }
            let ghost before = self.code@;
            let ghost labels_before = self.labels;
            let m = sub.code.len();
            let mut j: usize = 0;
            while j < m
                invariant
                    j <= m,
                    m == sub.code@.len(),
                    self.code@.len() == before.len() + j,
                    self.code@.subrange(0, before.len() as int) == before,
                    self.code@ == before + sub.code@.subrange(0, j as int),
                    self.labels == labels_before,
                    self.path == old(self).path,
                    self.src == old(self).src,
                    self.sub_units@.len() == 0,
                decreases m - j,
            {
                let ghost b2 = self.code@;
                self.code.push(sub.code[j]);
                proof {
                    assert(self.code@.subrange(0, before.len() as int) =~= b2.subrange(0, before.len() as int));
                }
                j += 1;
            }
            let ghost ctx = self.labels.entries@;
            proof {
                let se = sub.labels.entries@;
                let oe = osub.labels.entries@;
                assert forall|a: int, b: int| 0 <= a < ctx.len() && 0 <= b < se.len() && (#[trigger] ctx[a]).0.raw@
                    == (#[trigger] se[b]).0.raw@ implies ctx[a].1.decl is None && se[b].1.decl is Some by {
                    let k = ctx[a].0.raw@;
                    assert(ctx.len() == e0.len());
                    assert(ctx[a].0 == e0[a].0);
                    assert(oe[b].0.raw@ == k);
                    assert(has_key(oe, k));
                    assert(e0[a].0.raw@ == k);
                    assert(has_key(e0, k));
                    assert(undeclared_key(e0, k));
                    let x = choose|x: int| 0 <= x < e0.len() && (#[trigger] e0[x]).0.raw@ == k && e0[x].1.decl is None;
                    assert(x == a) by {
                        if x != a {
                            assert(e0[x].0.raw@ != e0[a].0.raw@);
                        }
                    }
                    assert forall|t: int| 0 <= t < i implies !has_key((#[trigger] orig[t]).labels.entries@, e0[a].0.raw@) by {
                        assert(pre[t] == orig[t]);
                    }
                    assert(oe[b].1.decl is Some);
                }
            }
            let _ = merge_labels(&mut self.labels, &sub.labels);
            proof {
                let se = sub.labels.entries@;
                let oe = osub.labels.entries@;
                let now = self.labels.entries@;
                assert forall|k: int| 0 <= k < e0.len() implies {
                    &&& (#[trigger] now[k]).0 == e0[k].0
                    &&& now[k].1.locations == e0[k].1.locations
                    &&& now[k].1.parent == e0[k].1.parent
                    &&& now[k].1.public == e0[k].1.public
                    &&& e0[k].1.decl is Some ==> now[k].1.decl == e0[k].1.decl
                } by {
                    assert(now[k] == merged_entry(ctx[k], se));
                    if has_key(se, ctx[k].0.raw@) {
                        let b = key_pos(se, ctx[k].0.raw@);
                        assert(ctx[k].1.decl is None);
                    }
                }
                assert forall|k: int|
                    0 <= k < e0.len() && (forall|t: int| 0 <= t < i + 1 ==> !has_key((#[trigger] orig[t]).labels.entries@, e0[k].0.raw@))
                        implies #[trigger] now[k].1.decl == e0[k].1.decl by {
                    assert(!has_key(orig[i as int].labels.entries@, e0[k].0.raw@));
                    assert(!has_key(se, ctx[k].0.raw@)) by {
                        if has_key(se, ctx[k].0.raw@) {
                            let b = choose|b: int| 0 <= b < se.len() && (#[trigger] se[b]).0.raw@ == ctx[k].0.raw@;
                            assert(oe[b].0.raw@ == e0[k].0.raw@);
                        }
                    }
                    assert(now[k] == merged_entry(ctx[k], se));
                }
                assert forall|a: int, b: int| 0 <= a < now.len() && 0 <= b < now.len() && a != b implies (#[trigger] now[a]).0.raw@
                    != (#[trigger] now[b]).0.raw@ by {
                    assert(now[a] == merged_entry(ctx[a], se));
                    assert(now[b] == merged_entry(ctx[b], se));
                    assert(ctx[a].0.raw@ != ctx[b].0.raw@);
                }
                assert(self.code@.subrange(0, old_len as int) =~= before.subrange(0, old_len as int));
            }
            let ghost prev_done = done@;
            let ghost lsub = sub;
            done.push(sub);
            proof {
                let se = lsub.labels.entries@;
                let oe = osub.labels.entries@;
                assert(done@.drop_last() =~= prev_done);
                assert(done@.last() == lsub);
                assert(lsub.code@.subrange(0, lsub.code@.len() as int) =~= lsub.code@);
                assert(cells_of(done@) == cells_of(prev_done) + lsub.code@);
                assert(self.code@ =~= old(self).code@ + cells_of(done@));
                assert forall|k: int| 0 <= k < e0.len() implies #[trigger] self.labels.entries@[k] == merged_through(e0[k],
                    done@) by {
                    assert(merged_through(e0[k], done@) == merged_entry(merged_through(e0[k], prev_done), se));
                    assert(self.labels.entries@[k] == merged_entry(ctx[k], se));
                }
                assert(shifted.code == osub.code);
                assert forall|x: int| 0 <= x < oe.len() implies #[trigger] se[x] == shifted_entry(oe[x], old_len + subs_len(pre)) by {
                    let sh = shifted.labels.entries@;
                    assert(sh[x].1.decl is Some);
                    assert(se[x].1 == with_decl(oe[x].1, Some((decl_ident(oe[x].1), (decl_offset(oe[x].1) + off) as usize))));
                }
                assert forall|t: int| 0 <= t < i + 1 implies {
                    &&& (#[trigger] done@[t]).code@.subrange(0, orig[t].code@.len() as int) == patch_table(orig[t].code@,
                        table_view(done@[t].labels.entries@))
                    &&& done@[t].labels.entries@.len() == orig[t].labels.entries@.len()
                    &&& forall|x: int| 0 <= x < orig[t].labels.entries@.len() ==> #[trigger] done@[t].labels.entries@[x]
                        == shifted_entry(orig[t].labels.entries@[x], old_len + subs_len(orig.subrange(0, t)))
                } by {
                    if t < i {
                        assert(done@[t] == prev_done[t]);
                    } else {
                        assert(done@[t] == lsub);
                        assert(orig[t] == osub);
                        assert(orig.subrange(0, t) == pre);
                        let pt = patch_table(osub.code@, table_view(se));
                        lemma_patch_prefix(osub.code@, table_view(se), osub.code@.len() as int);
                        assert(lsub.code@ == pt + cells_of(lsub.sub_units@));
                        assert((pt + cells_of(lsub.sub_units@)).subrange(0, pt.len() as int) =~= pt);
                        assert(se.len() == oe.len());
                    }
                }
            }
            i += 1;
        }
        self.sub_units = done;
        proof {
            let t = table_view(self.labels.entries@);
            assert(uses_below(t, self.code@.len() as int)) by {
                let t0 = table_view(e0);
                assert forall|a: int, b: int| 0 <= a < t.len() && 0 <= b < t[a].1.locations.len() implies (
                    #[trigger] t[a].1.locations[b]).1 < self.code@.len() by {
                    assert(self.labels.entries@[a].1.locations == e0[a].1.locations);
                    assert(t[a].1.locations == t0[a].1.locations);
                    assert(t0[a].1.locations[b] == t[a].1.locations[b]);
                    assert(t0[a].1.locations[b].1 < old_len);
                }
            }
            assert(orig.subrange(0, n as int) =~= orig);
        }
        let ghost mid = self.code@;
        let res = self.resolve();
        proof {
            let t = table_view(self.labels.entries@);
            assert(uses_below(t, old_len as int)) by {
                let t0 = table_view(e0);
                assert forall|a: int, b: int| 0 <= a < t.len() && 0 <= b < t[a].1.locations.len() implies (
                    #[trigger] t[a].1.locations[b]).1 < old_len by {
                    assert(self.labels.entries@[a].1.locations == e0[a].1.locations);
                    assert(t[a].1.locations == t0[a].1.locations);
                    assert(t0[a].1.locations[b] == t[a].1.locations[b]);
                }
            }
            lemma_patch_suffix(mid, t, old_len as int);
            lemma_patch_prefix(mid, t, old_len as int);
            assert(mid.subrange(0, old_len as int) =~= old(self).code@);
            assert(mid.subrange(old_len as int, mid.len() as int) =~= cells_of(self.sub_units@));
            assert(self.code@ =~= patch_table(old(self).code@, t) + cells_of(self.sub_units@));
            if res is Err {
                lemma_undeclared_has_use(table_view(self.labels.entries@), mid.len() as int);
            }
        }
        res
    }
}


/// No two entries of an abstract table share a key.
pub open spec fn view_keys_unique(t: Seq<(Ident, LabelView)>) -> bool {
    forall|i: int, j: int| 0 <= i < t.len() && 0 <= j < t.len() && i != j ==> (#[trigger] t[i]).0.raw@ != (#[trigger] t[j]).0.raw@
}

/// The label named `k` in an abstract table (meaningful when there is one).
pub open spec fn label_named(t: Seq<(Ident, LabelView)>, k: Seq<char>) -> LabelView {
    t[choose|i: int| 0 <= i < t.len() && (#[trigger] t[i]).0.raw@ == k].1
}

proof fn lemma_named_at(t: Seq<(Ident, LabelView)>, k: Seq<char>, x: int)
    requires
        view_keys_unique(t),
        0 <= x < t.len(),
        t[x].0.raw@ == k,
    ensures
        (choose|i: int| 0 <= i < t.len() && (#[trigger] t[i]).0.raw@ == k) == x,
        label_named(t, k) == t[x].1,
{
    let c = choose|i: int| 0 <= i < t.len() && (#[trigger] t[i]).0.raw@ == k;
    assert(0 <= c < t.len() && t[c].0.raw@ == k);
    if c != x {
        assert(t[c].0.raw@ != t[x].0.raw@);
    }
}

/// A label can be used before it is declared: recording a use of a label and
/// its declaration in either order gives it the same declaration and the same
/// uses.
pub proof fn lemma_use_decl_commute(t: Seq<(Ident, LabelView)>, id: Ident, d: Ident, p: usize, off: usize)
    requires
        id.raw@ == d.raw@,
        !declared_in(t, d.raw@),
        view_keys_unique(t),
    ensures
        label_named(record_decl(record_use(t, id, p), d, off), d.raw@) == label_named(record_use(record_decl(t, d, off), id,
            p), d.raw@),
        label_named(record_decl(record_use(t, id, p), d, off), d.raw@).decl == Some((d, off)),
        label_named(record_decl(record_use(t, id, p), d, off), d.raw@).locations.last() == (id, p),
{
    let k = d.raw@;
    if view_has_key(t, k) {
        let x = choose|i: int| 0 <= i < t.len() && (#[trigger] t[i]).0.raw@ == k;
        lemma_named_at(t, k, x);
        let u1 = record_use(t, id, p);
        let d1 = record_decl(t, d, off);
        assert(u1[x].0.raw@ == k);
        assert(view_keys_unique(u1)) by {
            assert forall|i: int, j: int| 0 <= i < u1.len() && 0 <= j < u1.len() && i != j implies (#[trigger] u1[i]).0.raw@
                != (#[trigger] u1[j]).0.raw@ by {
                assert(t[i].0.raw@ != t[j].0.raw@);
            }
        }
        assert(view_keys_unique(d1)) by {
            assert forall|i: int, j: int| 0 <= i < d1.len() && 0 <= j < d1.len() && i != j implies (#[trigger] d1[i]).0.raw@
                != (#[trigger] d1[j]).0.raw@ by {
                assert(t[i].0.raw@ != t[j].0.raw@);
            }
        }
        assert(view_has_key(u1, k));
        assert(view_has_key(d1, k)) by {
            assert(d1[x].0.raw@ == k);
        }
        lemma_named_at(u1, k, x);
        lemma_named_at(d1, k, x);
        let a = record_decl(u1, d, off);
        let b = record_use(d1, id, p);
        assert(a[x].0.raw@ == k);
        assert(b[x].0.raw@ == k);
        assert(view_keys_unique(a)) by {
            assert forall|i: int, j: int| 0 <= i < a.len() && 0 <= j < a.len() && i != j implies (#[trigger] a[i]).0.raw@
                != (#[trigger] a[j]).0.raw@ by {
                assert(u1[i].0.raw@ != u1[j].0.raw@);
            }
        }
        assert(view_keys_unique(b)) by {
            assert forall|i: int, j: int| 0 <= i < b.len() && 0 <= j < b.len() && i != j implies (#[trigger] b[i]).0.raw@
                != (#[trigger] b[j]).0.raw@ by {
                assert(d1[i].0.raw@ != d1[j].0.raw@);
            }
        }
        lemma_named_at(a, k, x);
        lemma_named_at(b, k, x);
    } else {
        let n = t.len() as int;
        let u1 = record_use(t, id, p);
        let d1 = record_decl(t, d, off);
        assert(u1[n].0.raw@ == k);
        assert(d1[n].0.raw@ == k);
        assert(view_keys_unique(u1)) by {
            assert forall|i: int, j: int| 0 <= i < u1.len() && 0 <= j < u1.len() && i != j implies (#[trigger] u1[i]).0.raw@
                != (#[trigger] u1[j]).0.raw@ by {
                if i < n && j < n {
                    assert(t[i].0.raw@ != t[j].0.raw@);
                } else if i < n {
                    assert(t[i].0.raw@ != k);
                } else {
                    assert(t[j].0.raw@ != k);
                }
            }
        }
        assert(view_keys_unique(d1)) by {
            assert forall|i: int, j: int| 0 <= i < d1.len() && 0 <= j < d1.len() && i != j implies (#[trigger] d1[i]).0.raw@
                != (#[trigger] d1[j]).0.raw@ by {
                if i < n && j < n {
                    assert(t[i].0.raw@ != t[j].0.raw@);
                } else if i < n {
                    assert(t[i].0.raw@ != k);
                } else {
                    assert(t[j].0.raw@ != k);
                }
            }
        }
        assert(view_has_key(u1, k));
        assert(view_has_key(d1, k));
        lemma_named_at(u1, k, n);
        lemma_named_at(d1, k, n);
        let a = record_decl(u1, d, off);
        let b = record_use(d1, id, p);
        assert(a[n].0.raw@ == k);
        assert(b[n].0.raw@ == k);
        assert(view_keys_unique(a)) by {
            assert forall|i: int, j: int| 0 <= i < a.len() && 0 <= j < a.len() && i != j implies (#[trigger] a[i]).0.raw@
                != (#[trigger] a[j]).0.raw@ by {
                assert(u1[i].0.raw@ != u1[j].0.raw@);
            }
        }
        assert(view_keys_unique(b)) by {
            assert forall|i: int, j: int| 0 <= i < b.len() && 0 <= j < b.len() && i != j implies (#[trigger] b[i]).0.raw@
                != (#[trigger] b[j]).0.raw@ by {
                assert(d1[i].0.raw@ != d1[j].0.raw@);
            }
        }
        lemma_named_at(a, k, n);
        lemma_named_at(b, k, n);
        assert(a[n].1.locations =~= b[n].1.locations);
    }
}

/// The position of the entry with key `key`, if any.
pub fn find_entry(entries: &Vec<(Ident, Label)>, key: &str) -> (res: Option<usize>)
    ensures
        res matches Some(p) ==> p < entries@.len() && entries@[p as int].0.raw@ == key@,
        res is None ==> !has_key(entries@, key@),
{
    let n = entries.len();
    let mut i: usize = 0;
    while i < n
        invariant
            n == entries@.len(),
            i <= n,
            forall|k: int| 0 <= k < i ==> (#[trigger] entries@[k]).0.raw@ != key@,
        decreases n - i,
    {
        if str_eq(entries[i].0.raw.as_str(), key) {
            return Some(i);
        }
        i += 1;
    }
    None
}

/// Hands the declarations of the labels of an included unit (`scope`) to the
/// labels of the including unit (`ctx`) that use them. A label declared in both,
/// or used in the included unit but not declared there, is a redeclaration; the
/// call requires that there is none.
pub fn merge_labels(ctx: &mut LabelTable, scope: &LabelTable) -> (res: Result<(), Error>)
    requires
        keys_unique(old(ctx).entries@),
        keys_unique(scope.entries@),
        mergeable(old(ctx).entries@, scope.entries@),
    ensures
        res is Ok,
        final(ctx).entries@.len() == old(ctx).entries@.len(),
        forall|i: int| 0 <= i < old(ctx).entries@.len() ==> #[trigger] final(ctx).entries@[i]
            == merged_entry(old(ctx).entries@[i], scope.entries@),
{
    let ghost orig = ctx.entries@;
    let ghost se = scope.entries@;
    let mut j: usize = 0;
    while j < scope.entries.len()
        invariant
            j <= se.len(),
            se == scope.entries@,
            keys_unique(orig),
            keys_unique(se),
            mergeable(orig, se),
            ctx.entries@.len() == orig.len(),
            forall|i: int| 0 <= i < orig.len() ==> #[trigger] ctx.entries@[i] == merged_entry(orig[i],
                se.subrange(0, j as int)),
            forall|i: int| 0 <= i < orig.len() ==> has_key(se.subrange(0, j as int), orig[i].0.raw@)
                ==> key_pos(se.subrange(0, j as int), orig[i].0.raw@) == key_pos(se, orig[i].0.raw@),
        decreases se.len() - j,
    {
        let key = &scope.entries[j].0;
        let pos = find_entry(&ctx.entries, key.raw.as_str());
        let found = pos.is_some();
        let i: usize = match pos {
            Some(p) => p,
            None => 0,
        };
        let ghost before = ctx.entries@;
        if found {
            let mut e = ctx.entries.remove(i);
            e.1.decl = clone_decl(&scope.entries[j].1.decl);
            ctx.entries.insert(i, e);
        }
        proof {
            let pre = se.subrange(0, j as int);
            let post = se.subrange(0, j + 1);
            assert(post.drop_last() =~= pre);
            assert forall|k: int| 0 <= k < orig.len() implies #[trigger] ctx.entries@[k] == merged_entry(orig[k], post)
                && (has_key(post, orig[k].0.raw@) ==> key_pos(post, orig[k].0.raw@) == key_pos(se, orig[k].0.raw@)) by {
                let kk = orig[k].0.raw@;
                assert(before[k] == merged_entry(orig[k], pre));
                assert(before[k].0 == orig[k].0);
                if kk == se[j as int].0.raw@ {
                    assert(post[j as int] == se[j as int]);
                    assert(has_key(post, kk));
                    assert(has_key(se, kk)) by { assert(se[j as int].0.raw@ == kk); }
                    let p1 = key_pos(post, kk);
                    let p2 = key_pos(se, kk);
                    assert(post[p1] == se[p1]);
                    assert(p1 == j);
                    assert(p2 == j);
                    assert(!has_key(pre, kk)) by {
                        if has_key(pre, kk) {
                            let q = key_pos(pre, kk);
                            assert(pre[q] == se[q]);
                        }
                    }
                    assert(found) by {
                        if !found {
                            assert(before[k].0.raw@ != key.raw@);
                        }
                    }
                    assert(i == k) by {
                        if i != k {
                            assert(orig[i as int].0.raw@ == before[i as int].0.raw@);
                        }
                    }
                    assert(ctx.entries@[k] == merged_entry(orig[k], post));
                } else {
                    if found {
                        assert(i != k) by {
                            if i == k {
                                assert(before[k].0.raw@ == kk);
                            }
                        }
                        assert(ctx.entries@[k] == before[k]);
                    }
                    assert(has_key(post, kk) == has_key(pre, kk)) by {
                        if has_key(post, kk) {
                            let q = key_pos(post, kk);
                            assert(q != j);
                            assert(pre[q] == post[q]);
                        }
                        if has_key(pre, kk) {
                            let q = key_pos(pre, kk);
                            assert(post[q] == pre[q]);
                        }
                    }
                    if has_key(pre, kk) {
                        let q = key_pos(pre, kk);
                        let q2 = key_pos(post, kk);
                        assert(post[q] == pre[q]);
                        assert(q2 == q) by {
                            assert(post[q2] == se[q2]);
                            assert(pre[q] == se[q]);
                        }
                    }
                }
            }
        }
        j += 1;
    }
    proof {
        assert(se.subrange(0, j as int) =~= se);
    }
    Ok(())
}

} // verus!
