//! The expression layer of the query engine: a typed tree of field lookups,
//! literals and binary operators. Operand compatibility is checked when a
//! node is built, by the output kind each child carries; evaluation walks
//! the tree against one row of the database, resolving a field leaf by
//! looking the row's id up by name.

use vstd::prelude::*;

use crate::db::{blob_dec, first_idx, has_id, Database};
use crate::entity::Entity;
use vstd::string::StringExecFns;

verus! {

/// A value an expression can produce: one of the field kinds the engine
/// queries over.
#[derive(Debug, Clone, PartialEq)]
pub enum Value {
    U32(u32),
    Str(String),
    Bool(bool),
}

/// The model of a value: text as its character sequence.
pub enum ValueView {
    U32(u32),
    Str(Seq<char>),
    Bool(bool),
}

impl DeepView for Value {
    type V = ValueView;

    open spec fn deep_view(&self) -> ValueView {
        match self {
            Value::U32(x) => ValueView::U32(*x),
            Value::Str(s) => ValueView::Str(s@),
            Value::Bool(b) => ValueView::Bool(*b),
        }
    }
}

/// The output kind an expression node carries.
#[derive(Debug, Clone, Copy, PartialEq, Eq, Structural)]
pub enum ValueKind {
    U32,
    Str,
    Bool,
}

/// One typed binary operator: equality, logical, bitwise, ordering and
/// arithmetic forms.
#[derive(Debug, Clone, Copy, PartialEq, Eq, Structural)]
pub enum BinOp {
    Eq,
    Neq,
    LOr,
    LAnd,
    Or,
    And,
    Xor,
    Lt,
    Gt,
    Lte,
    Gte,
    Add,
    Sub,
    Mul,
    Div,
    Rem,
    Shl,
    Shr,
}

/// A field leaf: the field's name and the kind of value it resolves to.
#[derive(Debug, Clone)]
pub struct AttrExpr {
    /// The name the resolver looks the field up by.
    pub field_name: String,
    /// The kind of value the field holds.
    pub kind: ValueKind,
}

impl AttrExpr {
    /// A field leaf.
    pub fn new(field_name: &str, kind: ValueKind) -> (r: AttrExpr)
        ensures
            r.field_name@ == field_name@,
            r.kind == kind,
    {
        AttrExpr { field_name: String::from_str(field_name), kind }
    }
}

/// An inner node: one operator over two subtrees.
#[derive(Debug)]
pub struct BinExpr {
    pub op: BinOp,
    pub lhs: GenExpr,
    pub rhs: GenExpr,
}

/// A typed expression tree: a literal, a field leaf, or a binary node.
#[derive(Debug)]
pub enum GenExpr {
    Lit(Value),
    Attr(AttrExpr),
    Bin(Box<BinExpr>),
}

/// The kind of value a literal holds.
pub open spec fn kind_of_value(v: Value) -> ValueKind {
    match v {
        Value::U32(_) => ValueKind::U32,
        Value::Str(_) => ValueKind::Str,
        Value::Bool(_) => ValueKind::Bool,
    }
}

/// The kind an operator produces from operand kinds, `None` where the
/// operands are incompatible.
pub open spec fn op_kind(op: BinOp, a: ValueKind, b: ValueKind) -> Option<ValueKind> {
    match op {
        BinOp::Eq | BinOp::Neq => if a == b {
            Some(ValueKind::Bool)
        } else {
            None
        },
        BinOp::LOr | BinOp::LAnd => if a == ValueKind::Bool && b == ValueKind::Bool {
            Some(ValueKind::Bool)
        } else {
            None
        },
        BinOp::Or | BinOp::And | BinOp::Xor => if a == b && (a == ValueKind::U32 || a
            == ValueKind::Bool) {
            Some(a)
        } else {
            None
        },
        BinOp::Lt | BinOp::Gt | BinOp::Lte | BinOp::Gte => if a == ValueKind::U32 && b
            == ValueKind::U32 {
            Some(ValueKind::Bool)
        } else {
            None
        },
        BinOp::Add | BinOp::Sub | BinOp::Mul | BinOp::Div | BinOp::Rem | BinOp::Shl
        | BinOp::Shr => if a == ValueKind::U32 && b == ValueKind::U32 {
            Some(ValueKind::U32)
        } else {
            None
        },
    }
}

/// The kind of value a tree produces, `None` where some node is
/// incompatible.
pub open spec fn kind_of(e: GenExpr) -> Option<ValueKind>
    decreases e,
{
    match e {
        GenExpr::Lit(v) => Some(kind_of_value(v)),
        GenExpr::Attr(a) => Some(a.kind),
        GenExpr::Bin(b) => match (kind_of(b.lhs), kind_of(b.rhs)) {
            (Some(x), Some(y)) => op_kind(b.op, x, y),
            _ => None,
        },
    }
}

/// One operator applied to two evaluated values. Arithmetic wraps;
/// division, remainder and shifts refuse a degenerate right operand; a kind
/// mismatch refuses outright.
pub open spec fn apply_op(op: BinOp, x: ValueView, y: ValueView) -> Option<ValueView> {
    match op {
        BinOp::Eq => match (x, y) {
            (ValueView::U32(a), ValueView::U32(b)) => Some(ValueView::Bool(a == b)),
            (ValueView::Str(a), ValueView::Str(b)) => Some(ValueView::Bool(a == b)),
            (ValueView::Bool(a), ValueView::Bool(b)) => Some(ValueView::Bool(a == b)),
            _ => None,
        },
        BinOp::Neq => match (x, y) {
            (ValueView::U32(a), ValueView::U32(b)) => Some(ValueView::Bool(a != b)),
            (ValueView::Str(a), ValueView::Str(b)) => Some(ValueView::Bool(a != b)),
            (ValueView::Bool(a), ValueView::Bool(b)) => Some(ValueView::Bool(a != b)),
            _ => None,
        },
        BinOp::LOr => match (x, y) {
            (ValueView::Bool(a), ValueView::Bool(b)) => Some(ValueView::Bool(a || b)),
            _ => None,
        },
        BinOp::LAnd => match (x, y) {
            (ValueView::Bool(a), ValueView::Bool(b)) => Some(ValueView::Bool(a && b)),
            _ => None,
        },
        BinOp::Or => match (x, y) {
            (ValueView::U32(a), ValueView::U32(b)) => Some(ValueView::U32(a | b)),
            (ValueView::Bool(a), ValueView::Bool(b)) => Some(ValueView::Bool(a || b)),
            _ => None,
        },
        BinOp::And => match (x, y) {
            (ValueView::U32(a), ValueView::U32(b)) => Some(ValueView::U32(a & b)),
            (ValueView::Bool(a), ValueView::Bool(b)) => Some(ValueView::Bool(a && b)),
            _ => None,
        },
        BinOp::Xor => match (x, y) {
            (ValueView::U32(a), ValueView::U32(b)) => Some(ValueView::U32(a ^ b)),
            (ValueView::Bool(a), ValueView::Bool(b)) => Some(ValueView::Bool(a != b)),
            _ => None,
        },
        BinOp::Lt => match (x, y) {
            (ValueView::U32(a), ValueView::U32(b)) => Some(ValueView::Bool(a < b)),
            _ => None,
        },
        BinOp::Gt => match (x, y) {
            (ValueView::U32(a), ValueView::U32(b)) => Some(ValueView::Bool(a > b)),
            _ => None,
        },
        BinOp::Lte => match (x, y) {
            (ValueView::U32(a), ValueView::U32(b)) => Some(ValueView::Bool(a <= b)),
            _ => None,
        },
        BinOp::Gte => match (x, y) {
            (ValueView::U32(a), ValueView::U32(b)) => Some(ValueView::Bool(a >= b)),
            _ => None,
        },
        BinOp::Add => match (x, y) {
            (ValueView::U32(a), ValueView::U32(b)) => Some(
                ValueView::U32(vstd::wrapping::u32_specs::wrapping_add(a, b)),
            ),
            _ => None,
        },
        BinOp::Sub => match (x, y) {
            (ValueView::U32(a), ValueView::U32(b)) => Some(
                ValueView::U32(vstd::wrapping::u32_specs::wrapping_sub(a, b)),
            ),
            _ => None,
        },
        BinOp::Mul => match (x, y) {
            (ValueView::U32(a), ValueView::U32(b)) => Some(
                ValueView::U32(vstd::wrapping::u32_specs::wrapping_mul(a, b)),
            ),
            _ => None,
        },
        BinOp::Div => match (x, y) {
            (ValueView::U32(a), ValueView::U32(b)) => if b == 0 {
                None
            } else {
                Some(ValueView::U32(a / b))
            },
            _ => None,
        },
        BinOp::Rem => match (x, y) {
            (ValueView::U32(a), ValueView::U32(b)) => if b == 0 {
                None
            } else {
                Some(ValueView::U32(a % b))
            },
            _ => None,
        },
        BinOp::Shl => match (x, y) {
            (ValueView::U32(a), ValueView::U32(b)) => if b < 32 {
                Some(ValueView::U32(a << b))
            } else {
                None
            },
            _ => None,
        },
        BinOp::Shr => match (x, y) {
            (ValueView::U32(a), ValueView::U32(b)) => if b < 32 {
                Some(ValueView::U32(a >> b))
            } else {
                None
            },
            _ => None,
        },
    }
}

/// What a field leaf resolves to against a database state: the named field
/// of the first row carrying the id, looked up in the entity's decoded
/// table; nothing where the table, the row or the field is missing.
pub open spec fn resolve_view<E: EntityFields>(
    field: Seq<char>,
    m: Map<Seq<u8>, Seq<u8>>,
    row_id: E::Id,
) -> Option<ValueView> {
    if m.contains_key(E::spec_hash()) {
        match blob_dec::<E>(m[E::spec_hash()]) {
            Some(mv) => if has_id::<E>(mv.entities, row_id) {
                E::field_of(mv.entities[first_idx::<E>(mv.entities, row_id)], field)
            } else {
                None
            },
            None => None,
        }
    } else {
        None
    }
}

/// What a tree evaluates to against a database state and one row id.
pub open spec fn eval<E: EntityFields>(
    e: GenExpr,
    m: Map<Seq<u8>, Seq<u8>>,
    row_id: E::Id,
) -> Option<ValueView>
    decreases e,
{
    match e {
        GenExpr::Lit(v) => Some(v.deep_view()),
        GenExpr::Attr(a) => resolve_view::<E>(a.field_name@, m, row_id),
        GenExpr::Bin(b) => match (eval::<E>(b.lhs, m, row_id), eval::<E>(b.rhs, m, row_id)) {
            (Some(x), Some(y)) => apply_op(b.op, x, y),
            _ => None,
        },
    }
}

/// An entity whose row models expose their fields by name: the spec half of
/// the per-type registration the code-generation facility emits.
pub trait EntityFields: Entity {
    /// The named field of a row's model.
    spec fn field_of(m: <Self as DeepView>::V, field: Seq<char>) -> Option<ValueView>;
}

/// An entity whose fields can be resolved by name against a stored row: the
/// per-type registration the code-generation facility emits.
pub trait ResolveAttrExpr: EntityFields {
    /// The named field of the first stored row carrying this id, re-fetched
    /// from the database by id.
    fn resolve(field_name: &str, row_id: Self::Id, db: &Database) -> (r: Option<Value>)
        ensures
            match r {
                Some(v) => resolve_view::<Self>(field_name@, db@, row_id) == Some(v.deep_view()),
                None => resolve_view::<Self>(field_name@, db@, row_id) is None,
            },
    ;
}

/// The capability object a filter predicate is handed: a value with one
/// typed accessor per field of the entity, built by the same facility that
/// writes the entity's codec.
pub trait ExprEntity: Sized {
    /// The capability object.
    fn new() -> Self;
}

/// The parts of a binary node.
pub open spec fn bin_parts(e: GenExpr) -> Option<(BinOp, GenExpr, GenExpr)> {
    match e {
        GenExpr::Bin(b) => Some((b.op, b.lhs, b.rhs)),
        _ => None,
    }
}

impl GenExpr {
    /// A literal leaf.
    pub fn lit(v: Value) -> (r: GenExpr)
        ensures
            r == GenExpr::Lit(v),
    {
        GenExpr::Lit(v)
    }

    /// The kind of value this tree produces.
    pub fn kind(&self) -> (r: Option<ValueKind>)
        ensures
            r == kind_of(*self),
        decreases *self,
    {
        match self {
            GenExpr::Lit(v) => match v {
                Value::U32(_) => Some(ValueKind::U32),
                Value::Str(_) => Some(ValueKind::Str),
                Value::Bool(_) => Some(ValueKind::Bool),
            },
            GenExpr::Attr(a) => Some(a.kind),
            GenExpr::Bin(b) => {
                let x = match b.lhs.kind() {
                    Some(x) => x,
                    None => {
                        return None;
                    },
                };
                let y = match b.rhs.kind() {
                    Some(y) => y,
                    None => {
                        return None;
                    },
                };
                op_kind_exec(b.op, x, y)
            },
        }
    }

    /// A binary node over this tree and another, refused where the operand
    /// kinds do not fit the operator.
    pub fn bin(self, op: BinOp, rhs: GenExpr) -> (r: Option<GenExpr>)
        ensures
            match r {
                Some(e) => (kind_of(self) matches Some(a) && kind_of(rhs) matches Some(b)
                    && op_kind(op, a, b) is Some) && bin_parts(e) == Some((op, self, rhs)),
                None => !(kind_of(self) matches Some(a) && kind_of(rhs) matches Some(b)
                    && op_kind(op, a, b) is Some),
            },
    {
        let a = match self.kind() {
            Some(a) => a,
            None => {
                return None;
            },
        };
        let b = match rhs.kind() {
            Some(b) => b,
            None => {
                return None;
            },
        };
        if op_kind_exec(op, a, b).is_none() {
            return None;
        }
        Some(GenExpr::Bin(Box::new(BinExpr { op, lhs: self, rhs })))
    }

    /// Equality of two compatible subtrees.
    pub fn eq(self, rhs: GenExpr) -> (r: Option<GenExpr>)
        ensures
            bin_ensures(BinOp::Eq, self, rhs, r),
    {
        self.bin(BinOp::Eq, rhs)
    }

    /// Inequality of two compatible subtrees.
    pub fn neq(self, rhs: GenExpr) -> (r: Option<GenExpr>)
        ensures
            bin_ensures(BinOp::Neq, self, rhs, r),
    {
        self.bin(BinOp::Neq, rhs)
    }

    /// Bitwise or.
    pub fn or(self, rhs: GenExpr) -> (r: Option<GenExpr>)
        ensures
            bin_ensures(BinOp::Or, self, rhs, r),
    {
        self.bin(BinOp::Or, rhs)
    }

    /// Bitwise and.
    pub fn and(self, rhs: GenExpr) -> (r: Option<GenExpr>)
        ensures
            bin_ensures(BinOp::And, self, rhs, r),
    {
        self.bin(BinOp::And, rhs)
    }

    /// Bitwise exclusive or.
    pub fn xor(self, rhs: GenExpr) -> (r: Option<GenExpr>)
        ensures
            bin_ensures(BinOp::Xor, self, rhs, r),
    {
        self.bin(BinOp::Xor, rhs)
    }

    /// Logical or of two boolean subtrees.
    pub fn lor(self, rhs: GenExpr) -> (r: Option<GenExpr>)
        ensures
            bin_ensures(BinOp::LOr, self, rhs, r),
    {
        self.bin(BinOp::LOr, rhs)
    }

    /// Logical and of two boolean subtrees.
    pub fn land(self, rhs: GenExpr) -> (r: Option<GenExpr>)
        ensures
            bin_ensures(BinOp::LAnd, self, rhs, r),
    {
        self.bin(BinOp::LAnd, rhs)
    }

    /// Wrapping sum of two numeric subtrees.
    pub fn add(self, rhs: GenExpr) -> (r: Option<GenExpr>)
        ensures
            bin_ensures(BinOp::Add, self, rhs, r),
    {
        self.bin(BinOp::Add, rhs)
    }

    /// Wrapping difference of two numeric subtrees.
    pub fn sub(self, rhs: GenExpr) -> (r: Option<GenExpr>)
        ensures
            bin_ensures(BinOp::Sub, self, rhs, r),
    {
        self.bin(BinOp::Sub, rhs)
    }

    /// Wrapping product of two numeric subtrees.
    pub fn mul(self, rhs: GenExpr) -> (r: Option<GenExpr>)
        ensures
            bin_ensures(BinOp::Mul, self, rhs, r),
    {
        self.bin(BinOp::Mul, rhs)
    }

    /// Quotient of two numeric subtrees.
    pub fn div(self, rhs: GenExpr) -> (r: Option<GenExpr>)
        ensures
            bin_ensures(BinOp::Div, self, rhs, r),
    {
        self.bin(BinOp::Div, rhs)
    }

    /// Remainder of two numeric subtrees.
    pub fn rem(self, rhs: GenExpr) -> (r: Option<GenExpr>)
        ensures
            bin_ensures(BinOp::Rem, self, rhs, r),
    {
        self.bin(BinOp::Rem, rhs)
    }

    /// Left shift of two numeric subtrees.
    pub fn shl(self, rhs: GenExpr) -> (r: Option<GenExpr>)
        ensures
            bin_ensures(BinOp::Shl, self, rhs, r),
    {
        self.bin(BinOp::Shl, rhs)
    }

    /// Right shift of two numeric subtrees.
    pub fn shr(self, rhs: GenExpr) -> (r: Option<GenExpr>)
        ensures
            bin_ensures(BinOp::Shr, self, rhs, r),
    {
        self.bin(BinOp::Shr, rhs)
    }

    /// Evaluate this tree against one row of the database: leaves re-fetch
    /// the row's field by id, inner nodes apply their operator to both
    /// children.
    pub fn exec<E: ResolveAttrExpr>(&self, db: &Database, row_id: E::Id) -> (r: Option<Value>)
        ensures
            match r {
                Some(v) => eval::<E>(*self, db@, row_id) == Some(v.deep_view()),
                None => eval::<E>(*self, db@, row_id) is None,
            },
        decreases *self,
    {
        match self {
            GenExpr::Lit(v) => Some(v.clone_value()),
            GenExpr::Attr(a) => E::resolve(a.field_name.as_str(), row_id, db),
            GenExpr::Bin(b) => {
                let x = match b.lhs.exec::<E>(db, row_id) {
                    Some(x) => x,
                    None => {
                        return None;
                    },
                };
                let y = match b.rhs.exec::<E>(db, row_id) {
                    Some(y) => y,
                    None => {
                        return None;
                    },
                };
                apply_op_exec(b.op, x, y)
            },
        }
    }
}

/// What every binary builder promises: a node of the given operator over
/// compatible subtrees, nothing otherwise.
pub open spec fn bin_ensures(op: BinOp, lhs: GenExpr, rhs: GenExpr, r: Option<GenExpr>) -> bool {
    match r {
        Some(e) => (kind_of(lhs) matches Some(a) && kind_of(rhs) matches Some(b) && op_kind(
            op,
            a,
            b,
        ) is Some) && bin_parts(e) == Some((op, lhs, rhs)),
        None => !(kind_of(lhs) matches Some(a) && kind_of(rhs) matches Some(b) && op_kind(op, a, b)
            is Some),
    }
}

/// The kind an operator produces from operand kinds.
fn op_kind_exec(op: BinOp, a: ValueKind, b: ValueKind) -> (r: Option<ValueKind>)
    ensures
        r == op_kind(op, a, b),
{
    match op {
        BinOp::Eq | BinOp::Neq => if a == b {
            Some(ValueKind::Bool)
        } else {
            None
        },
        BinOp::LOr | BinOp::LAnd => if a == ValueKind::Bool && b == ValueKind::Bool {
            Some(ValueKind::Bool)
        } else {
            None
        },
        BinOp::Or | BinOp::And | BinOp::Xor => if a == b && (a == ValueKind::U32 || a
            == ValueKind::Bool) {
            Some(a)
        } else {
            None
        },
        BinOp::Lt | BinOp::Gt | BinOp::Lte | BinOp::Gte => if a == ValueKind::U32 && b
            == ValueKind::U32 {
            Some(ValueKind::Bool)
        } else {
            None
        },
        BinOp::Add | BinOp::Sub | BinOp::Mul | BinOp::Div | BinOp::Rem | BinOp::Shl
        | BinOp::Shr => if a == ValueKind::U32 && b == ValueKind::U32 {
            Some(ValueKind::U32)
        } else {
            None
        },
    }
}

impl Value {
    /// A copy of this value, equal in model.
    pub fn clone_value(&self) -> (r: Value)
        ensures
            r.deep_view() == self.deep_view(),
    {
        match self {
            Value::U32(x) => Value::U32(*x),
            Value::Str(s) => Value::Str(s.clone()),
            Value::Bool(b) => Value::Bool(*b),
        }
    }
}

/// One operator applied to two values.
fn apply_op_exec(op: BinOp, x: Value, y: Value) -> (r: Option<Value>)
    ensures
        match r {
            Some(v) => apply_op(op, x.deep_view(), y.deep_view()) == Some(v.deep_view()),
            None => apply_op(op, x.deep_view(), y.deep_view()) is None,
        },
{
    match op {
        BinOp::Eq => match (x, y) {
            (Value::U32(a), Value::U32(b)) => Some(Value::Bool(a == b)),
            (Value::Str(a), Value::Str(b)) => Some(Value::Bool(a == b)),
            (Value::Bool(a), Value::Bool(b)) => Some(Value::Bool(a == b)),
            _ => None,
        },
        BinOp::Neq => match (x, y) {
            (Value::U32(a), Value::U32(b)) => Some(Value::Bool(a != b)),
            (Value::Str(a), Value::Str(b)) => Some(Value::Bool(a != b)),
            (Value::Bool(a), Value::Bool(b)) => Some(Value::Bool(a != b)),
            _ => None,
        },
        BinOp::LOr => match (x, y) {
            (Value::Bool(a), Value::Bool(b)) => Some(Value::Bool(a || b)),
            _ => None,
        },
        BinOp::LAnd => match (x, y) {
            (Value::Bool(a), Value::Bool(b)) => Some(Value::Bool(a && b)),
            _ => None,
        },
        BinOp::Or => match (x, y) {
            (Value::U32(a), Value::U32(b)) => Some(Value::U32(a | b)),
            (Value::Bool(a), Value::Bool(b)) => Some(Value::Bool(a || b)),
            _ => None,
        },
        BinOp::And => match (x, y) {
            (Value::U32(a), Value::U32(b)) => Some(Value::U32(a & b)),
            (Value::Bool(a), Value::Bool(b)) => Some(Value::Bool(a && b)),
            _ => None,
        },
        BinOp::Xor => match (x, y) {
            (Value::U32(a), Value::U32(b)) => Some(Value::U32(a ^ b)),
            (Value::Bool(a), Value::Bool(b)) => Some(Value::Bool(a != b)),
            _ => None,
        },
        BinOp::Lt => match (x, y) {
            (Value::U32(a), Value::U32(b)) => Some(Value::Bool(a < b)),
            _ => None,
        },
        BinOp::Gt => match (x, y) {
            (Value::U32(a), Value::U32(b)) => Some(Value::Bool(a > b)),
            _ => None,
        },
        BinOp::Lte => match (x, y) {
            (Value::U32(a), Value::U32(b)) => Some(Value::Bool(a <= b)),
            _ => None,
        },
        BinOp::Gte => match (x, y) {
            (Value::U32(a), Value::U32(b)) => Some(Value::Bool(a >= b)),
            _ => None,
        },
        BinOp::Add => match (x, y) {
            (Value::U32(a), Value::U32(b)) => Some(Value::U32(a.wrapping_add(b))),
            _ => None,
        },
        BinOp::Sub => match (x, y) {
            (Value::U32(a), Value::U32(b)) => Some(Value::U32(a.wrapping_sub(b))),
            _ => None,
        },
        BinOp::Mul => match (x, y) {
            (Value::U32(a), Value::U32(b)) => Some(Value::U32(a.wrapping_mul(b))),
            _ => None,
        },
        BinOp::Div => match (x, y) {
            (Value::U32(a), Value::U32(b)) => if b == 0 {
                None
            } else {
                Some(Value::U32(a / b))
            },
            _ => None,
        },
        BinOp::Rem => match (x, y) {
            (Value::U32(a), Value::U32(b)) => if b == 0 {
                None
            } else {
                Some(Value::U32(a % b))
            },
            _ => None,
        },
        BinOp::Shl => match (x, y) {
            (Value::U32(a), Value::U32(b)) => if b < 32 {
                Some(Value::U32(a << b))
            } else {
                None
            },
            _ => None,
        },
        BinOp::Shr => match (x, y) {
            (Value::U32(a), Value::U32(b)) => if b < 32 {
                Some(Value::U32(a >> b))
            } else {
                None
            },
            _ => None,
        },
    }
}

} // verus!
