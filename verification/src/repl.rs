//! The evaluator: a syntax tree to its value.
//!
//! `eval` says what the value of a tree is, and `bind` what evaluating it
//! adds to the table of definitions; `Repl::interpret` computes both.
//!
//! A number is held as a `Quantity`: the exact arithmetic that yields it.
//! Nothing is rounded here.
use crate::literal::Literal;
use crate::parser::{Expr, ExprView, Op, Type};
use vstd::prelude::*;
use vstd::std_specs::cmp::PartialEqSpecImpl;

verus! {

/// A name together with the type it was declared with: the key under which
/// the evaluator keeps a definition. One name declared with two types makes
/// two keys.
#[derive(Debug, Hash)]
pub struct Declaration {
    pub name: String,
    pub ty: Type,
}

/// What a declaration is: the characters of its name, and its type.
pub struct DeclarationView {
    pub name: Seq<char>,
    pub ty: Type,
}

impl View for Declaration {
    type V = DeclarationView;

    open spec fn view(&self) -> DeclarationView {
        DeclarationView { name: self.name@, ty: self.ty }
    }
}

impl Declaration {
    /// Whether the two declarations give the same name the same type.
    pub fn same(&self, other: &Declaration) -> (r: bool)
        ensures
            r == (self@ == other@),
    {
        self.name == other.name && self.ty.same(&other.ty)
    }
}

impl Clone for Declaration {
    fn clone(&self) -> (r: Declaration)
        ensures
            r@ == self@,
    {
        Declaration { name: self.name.clone(), ty: self.ty.clone() }
    }
}

impl PartialEq for Declaration {
    fn eq(&self, other: &Declaration) -> (r: bool) {
        self.same(other)
    }
}

impl Eq for Declaration {

}

impl PartialEqSpecImpl for Declaration {
    open spec fn obeys_eq_spec() -> bool {
        true
    }

    open spec fn eq_spec(&self, other: &Declaration) -> bool {
        self@ == other@
    }
}

/// A number that evaluation has arrived at, as the arithmetic that yields
/// it: a literal, or one of the four operations on two quantities.
#[derive(Debug)]
pub enum Quantity {
    Literal(Literal),
    Sum(Box<Quantity>, Box<Quantity>),
    Difference(Box<Quantity>, Box<Quantity>),
    Product(Box<Quantity>, Box<Quantity>),
    Quotient(Box<Quantity>, Box<Quantity>),
}

/// What a quantity is: its arithmetic, with each literal as its number.
pub enum QuantityView {
    Literal(nat),
    Sum(Box<QuantityView>, Box<QuantityView>),
    Difference(Box<QuantityView>, Box<QuantityView>),
    Product(Box<QuantityView>, Box<QuantityView>),
    Quotient(Box<QuantityView>, Box<QuantityView>),
}

impl View for Quantity {
    type V = QuantityView;

    open spec fn view(&self) -> QuantityView
        decreases self,
    {
        match self {
            Quantity::Literal(n) => QuantityView::Literal(n@),
            Quantity::Sum(a, b) => QuantityView::Sum(
                Box::new((**a).view()),
                Box::new((**b).view()),
            ),
            Quantity::Difference(a, b) => QuantityView::Difference(
                Box::new((**a).view()),
                Box::new((**b).view()),
            ),
            Quantity::Product(a, b) => QuantityView::Product(
                Box::new((**a).view()),
                Box::new((**b).view()),
            ),
            Quantity::Quotient(a, b) => QuantityView::Quotient(
                Box::new((**a).view()),
                Box::new((**b).view()),
            ),
        }
    }
}

impl Quantity {
    /// Whether the two quantities are the same arithmetic on the same numbers.
    pub fn same(&self, other: &Quantity) -> (r: bool)
        ensures
            r == (self@ == other@),
        decreases self,
    {
        match self {
            Quantity::Literal(a) => match other {
                Quantity::Literal(b) => a.same(b),
                _ => false,
            },
            Quantity::Sum(a, b) => match other {
                Quantity::Sum(c, d) => a.same(c) && b.same(d),
                _ => false,
            },
            Quantity::Difference(a, b) => match other {
                Quantity::Difference(c, d) => a.same(c) && b.same(d),
                _ => false,
            },
            Quantity::Product(a, b) => match other {
                Quantity::Product(c, d) => a.same(c) && b.same(d),
                _ => false,
            },
            Quantity::Quotient(a, b) => match other {
                Quantity::Quotient(c, d) => a.same(c) && b.same(d),
                _ => false,
            },
        }
    }
}

impl Clone for Quantity {
    fn clone(&self) -> (r: Quantity)
        ensures
            r@ == self@,
        decreases self,
    {
        match self {
            Quantity::Literal(n) => Quantity::Literal(n.clone()),
            Quantity::Sum(a, b) => Quantity::Sum(
                Box::new((&**a).clone()),
                Box::new((&**b).clone()),
            ),
            Quantity::Difference(a, b) => Quantity::Difference(
                Box::new((&**a).clone()),
                Box::new((&**b).clone()),
            ),
            Quantity::Product(a, b) => Quantity::Product(
                Box::new((&**a).clone()),
                Box::new((&**b).clone()),
            ),
            Quantity::Quotient(a, b) => Quantity::Quotient(
                Box::new((&**a).clone()),
                Box::new((&**b).clone()),
            ),
        }
    }
}

impl PartialEq for Quantity {
    fn eq(&self, other: &Quantity) -> (r: bool) {
        self.same(other)
    }
}

impl PartialEqSpecImpl for Quantity {
    open spec fn obeys_eq_spec() -> bool {
        true
    }

    open spec fn eq_spec(&self, other: &Quantity) -> bool {
        self@ == other@
    }
}

/// What evaluation yields. `Void` is the value of a definition, and of
/// every tree that evaluation can make nothing of.
#[derive(Debug)]
pub enum Value {
    Number(Quantity),
    Vector(Vec<Box<Value>>),
    Matrix(Vec<Box<Value>>),
    Void,
}

/// What a value is.
pub enum ValueView {
    Number(QuantityView),
    Vector(Seq<ValueView>),
    Matrix(Seq<ValueView>),
    Void,
}

impl View for Value {
    type V = ValueView;

    open spec fn view(&self) -> ValueView {
        value_view(*self)
    }
}

/// What the value `value` is.
pub open spec fn value_view(value: Value) -> ValueView
    decreases value,
{
    match value {
        Value::Number(q) => ValueView::Number(q@),
        Value::Vector(items) => ValueView::Vector(value_views(items@)),
        Value::Matrix(items) => ValueView::Matrix(value_views(items@)),
        Value::Void => ValueView::Void,
    }
}

/// The views of the values `items`, in order.
pub open spec fn value_views(items: Seq<Box<Value>>) -> Seq<ValueView>
    decreases items,
{
    Seq::new(
        items.len(),
        |i: int|
            if 0 <= i < items.len() {
                value_view(*items[i])
            } else {
                ValueView::Void
            },
    )
}

/// Whether the two sequences hold the same values in the same order.
fn same_values(a: &Vec<Box<Value>>, b: &Vec<Box<Value>>) -> (r: bool)
    ensures
        r == (value_views(a@) == value_views(b@)),
    decreases a,
{
    if a.len() != b.len() {
        proof {
            assert(value_views(a@).len() != value_views(b@).len());
        }
        return false;
    }
    let mut i: usize = 0;
    while i < a.len()
        invariant
            a.len() == b.len(),
            i <= a.len(),
            forall|k: int| 0 <= k < i ==> value_views(a@)[k] == value_views(b@)[k],
        decreases a.len() - i,
    {
        if !a[i].same(&b[i]) {
            proof {
                assert(value_views(a@)[i as int] != value_views(b@)[i as int]);
            }
            return false;
        }
        i += 1;
    }
    proof {
        assert(value_views(a@) =~= value_views(b@));
    }
    true
}

/// A copy of the values `items`.
fn cloned_values(items: &Vec<Box<Value>>) -> (r: Vec<Box<Value>>)
    ensures
        value_views(r@) == value_views(items@),
    decreases items,
{
    let mut r: Vec<Box<Value>> = Vec::new();
    let mut i: usize = 0;
    while i < items.len()
        invariant
            i <= items.len(),
            r.len() == i,
            forall|k: int| 0 <= k < i ==> value_views(r@)[k] == value_views(items@)[k],
        decreases items.len() - i,
    {
        let item = (&*items[i]).clone();
        r.push(Box::new(item));
        i += 1;
    }
    proof {
        assert(value_views(r@) =~= value_views(items@));
    }
    r
}

impl Value {
    /// Whether the two values are the same.
    pub fn same(&self, other: &Value) -> (r: bool)
        ensures
            r == (self@ == other@),
        decreases self,
    {
        match self {
            Value::Number(a) => match other {
                Value::Number(b) => a.same(b),
                _ => false,
            },
            Value::Vector(a) => match other {
                Value::Vector(b) => same_values(a, b),
                _ => false,
            },
            Value::Matrix(a) => match other {
                Value::Matrix(b) => same_values(a, b),
                _ => false,
            },
            Value::Void => matches!(other, Value::Void),
        }
    }
}

impl Clone for Value {
    fn clone(&self) -> (r: Value)
        ensures
            r@ == self@,
        decreases self,
    {
        match self {
            Value::Number(q) => Value::Number(q.clone()),
            Value::Vector(items) => Value::Vector(cloned_values(items)),
            Value::Matrix(items) => Value::Matrix(cloned_values(items)),
            Value::Void => Value::Void,
        }
    }
}

impl PartialEq for Value {
    fn eq(&self, other: &Value) -> (r: bool) {
        self.same(other)
    }
}

impl PartialEqSpecImpl for Value {
    open spec fn obeys_eq_spec() -> bool {
        true
    }

    open spec fn eq_spec(&self, other: &Value) -> bool {
        self@ == other@
    }
}

/// Whether the tree is a definition that evaluation records: `:=` with a
/// declaration on its left.
pub open spec fn is_definition(e: ExprView) -> bool {
    e matches ExprView::BinaryExpr { lhs, op, .. } && op == Op::Define && *lhs is Declaration
}

/// The value of `lhs op rhs`, the two sides having the values `lhs` and
/// `rhs`: the sum, difference, product or quotient of two numbers, and
/// `Void` for any other operator or where a side is no number.
pub open spec fn apply(op: Op, lhs: ValueView, rhs: ValueView) -> ValueView {
    match (lhs, rhs) {
        (ValueView::Number(a), ValueView::Number(b)) => match op {
            Op::Plus => ValueView::Number(QuantityView::Sum(Box::new(a), Box::new(b))),
            Op::Minus => ValueView::Number(QuantityView::Difference(Box::new(a), Box::new(b))),
            Op::Star => ValueView::Number(QuantityView::Product(Box::new(a), Box::new(b))),
            Op::Slash => ValueView::Number(QuantityView::Quotient(Box::new(a), Box::new(b))),
            _ => ValueView::Void,
        },
        _ => ValueView::Void,
    }
}

/// The value of the tree `e`. A literal is its number. A definition is
/// `Void`, and its right side is not evaluated. Any other tree of two sides
/// is what `apply` makes of their values. Every other tree is `Void`.
pub open spec fn eval(e: ExprView) -> ValueView
    decreases e,
{
    match e {
        ExprView::Number(n) => ValueView::Number(QuantityView::Literal(n)),
        ExprView::BinaryExpr { lhs, op, rhs } => if is_definition(e) {
            ValueView::Void
        } else {
            apply(op, eval(*lhs), eval(*rhs))
        },
        _ => ValueView::Void,
    }
}

/// The table `table` after the tree `e` has been evaluated. A definition
/// binds its declaration to its right side, as it stands. Any other tree of
/// two sides adds what its left side adds and then what its right side adds.
/// Every other tree adds nothing.
pub open spec fn bind(e: ExprView, table: Map<DeclarationView, ExprView>) -> Map<
    DeclarationView,
    ExprView,
>
    decreases e,
{
    match e {
        ExprView::BinaryExpr { lhs, op, rhs } => match *lhs {
            ExprView::Declaration { name, ty } if op == Op::Define => table.insert(
                DeclarationView { name, ty },
                *rhs,
            ),
            _ => bind(*rhs, bind(*lhs, table)),
        },
        _ => table,
    }
}

/// Whether `op` is one of the four operators of arithmetic.
pub open spec fn is_arithmetic_op(op: Op) -> bool {
    op == Op::Plus || op == Op::Minus || op == Op::Star || op == Op::Slash
}

/// Whether the tree is built from literals and the four operators of
/// arithmetic alone.
pub open spec fn is_arithmetic(e: ExprView) -> bool
    decreases e,
{
    match e {
        ExprView::Number(_) => true,
        ExprView::BinaryExpr { lhs, op, rhs } => is_arithmetic_op(op) && is_arithmetic(*lhs)
            && is_arithmetic(*rhs),
        _ => false,
    }
}

/// Whether the tree is built from literals, the four operators of arithmetic
/// and signs alone.
pub open spec fn is_signed_arithmetic(e: ExprView) -> bool
    decreases e,
{
    match e {
        ExprView::Number(_) => true,
        ExprView::BinaryExpr { lhs, op, rhs } => is_arithmetic_op(op) && is_signed_arithmetic(*lhs)
            && is_signed_arithmetic(*rhs),
        ExprView::UnaryExpr { rhs, .. } => is_signed_arithmetic(*rhs),
        _ => false,
    }
}

/// The value of a tree is a number or `Void`: evaluation yields no vector
/// and no matrix.
pub proof fn lemma_value_kinds(e: ExprView)
    ensures
        eval(e) is Number || eval(e) is Void,
{
}

/// Arithmetic on literals has a number as its value, and records nothing.
pub proof fn lemma_arithmetic_is_number(e: ExprView, table: Map<DeclarationView, ExprView>)
    requires
        is_arithmetic(e),
    ensures
        eval(e) is Number,
        bind(e, table) == table,
    decreases e,
{
    match e {
        ExprView::BinaryExpr { lhs, op, rhs } => {
            lemma_arithmetic_is_number(*lhs, table);
            lemma_arithmetic_is_number(*rhs, table);
        },
        _ => {},
    }
}

/// A tree with a sign before it has no value, whatever the sign and whatever
/// stands behind it, and records nothing.
pub proof fn lemma_sign_is_void(op: Op, rhs: ExprView, table: Map<DeclarationView, ExprView>)
    ensures
        eval(ExprView::UnaryExpr { op, rhs: Box::new(rhs) }) == ValueView::Void,
        bind(ExprView::UnaryExpr { op, rhs: Box::new(rhs) }, table) == table,
{
}

/// Where a side of a tree has no number as its value, the tree has none.
pub proof fn lemma_void_spreads(lhs: ExprView, op: Op, rhs: ExprView)
    requires
        eval(lhs) is Void || eval(rhs) is Void,
    ensures
        eval(ExprView::BinaryExpr { lhs: Box::new(lhs), op, rhs: Box::new(rhs) })
            == ValueView::Void,
{
}

/// Arithmetic on literals with signs has a number as its value where it
/// holds no sign, and `Void` where it holds one.
pub proof fn lemma_signed_arithmetic(e: ExprView)
    requires
        is_signed_arithmetic(e),
    ensures
        eval(e) is Number <==> is_arithmetic(e),
        eval(e) is Void <==> !is_arithmetic(e),
    decreases e,
{
    match e {
        ExprView::BinaryExpr { lhs, op, rhs } => {
            lemma_signed_arithmetic(*lhs);
            lemma_signed_arithmetic(*rhs);
        },
        _ => {},
    }
}

/// Evaluation forgets no definition: a declaration that is in the table
/// before a tree is evaluated is in it afterwards.
pub proof fn lemma_bind_keeps(
    e: ExprView,
    table: Map<DeclarationView, ExprView>,
    key: DeclarationView,
)
    requires
        table.contains_key(key),
    ensures
        bind(e, table).contains_key(key),
    decreases e,
{
    match e {
        ExprView::BinaryExpr { lhs, op, rhs } => {
            if !is_definition(e) {
                lemma_bind_keeps(*lhs, table, key);
                lemma_bind_keeps(*rhs, bind(*lhs, table), key);
            }
        },
        _ => {},
    }
}

/// A definition is `Void`, and binds its declaration to its right side as
/// it stands.
pub proof fn lemma_definition_binds(
    name: Seq<char>,
    ty: Type,
    rhs: ExprView,
    table: Map<DeclarationView, ExprView>,
)
    ensures
        ({
            let e = ExprView::BinaryExpr {
                lhs: Box::new(ExprView::Declaration { name, ty }),
                op: Op::Define,
                rhs: Box::new(rhs),
            };
            &&& eval(e) == ValueView::Void
            &&& bind(e, table) == table.insert(DeclarationView { name, ty }, rhs)
        }),
{
}

/// The table that a sequence of entries stands for: each declaration with
/// the tree of the last entry that holds it.
pub open spec fn entries_map(entries: Seq<(Declaration, Expr)>) -> Map<DeclarationView, ExprView>
    decreases entries.len(),
{
    if entries.len() == 0 {
        Map::empty()
    } else {
        entries_map(entries.drop_last()).insert(entries.last().0@, entries.last().1@)
    }
}

/// A declaration that no entry holds is not in the table.
proof fn lemma_absent(entries: Seq<(Declaration, Expr)>, key: DeclarationView)
    requires
        forall|j: int| 0 <= j < entries.len() ==> entries[j].0@ != key,
    ensures
        !entries_map(entries).contains_key(key),
    decreases entries.len(),
{
    if entries.len() > 0 {
        lemma_absent(entries.drop_last(), key);
    }
}

/// A declaration stands in the table with the tree of the last entry that
/// holds it.
proof fn lemma_present(entries: Seq<(Declaration, Expr)>, key: DeclarationView, i: int)
    requires
        0 <= i < entries.len(),
        entries[i].0@ == key,
        forall|j: int| i < j < entries.len() ==> entries[j].0@ != key,
    ensures
        entries_map(entries).contains_key(key),
        entries_map(entries)[key] == entries[i].1@,
    decreases entries.len(),
{
    if i < entries.len() - 1 {
        lemma_present(entries.drop_last(), key, i);
    }
}

/// To replace the last entry that holds a declaration is to bind the
/// declaration anew.
proof fn lemma_replace(entries: Seq<(Declaration, Expr)>, i: int, entry: (Declaration, Expr))
    requires
        0 <= i < entries.len(),
        entries[i].0@ == entry.0@,
        forall|j: int| i < j < entries.len() ==> entries[j].0@ != entry.0@,
    ensures
        entries_map(entries.update(i, entry)) == entries_map(entries).insert(entry.0@, entry.1@),
    decreases entries.len(),
{
    let updated = entries.update(i, entry);
    if i == entries.len() - 1 {
        assert(updated.drop_last() =~= entries.drop_last());
        assert(entries_map(updated) =~= entries_map(entries).insert(entry.0@, entry.1@));
    } else {
        lemma_replace(entries.drop_last(), i, entry);
        assert(updated.drop_last() =~= entries.drop_last().update(i, entry));
        assert(updated.last() == entries.last());
        assert(entries_map(updated) =~= entries_map(entries).insert(entry.0@, entry.1@));
    }
}

/// The evaluator, with the definitions that it has recorded.
pub struct Repl {
    definitions: Vec<(Declaration, Expr)>,
}

impl Repl {
    /// The definitions recorded so far: each declaration with the tree it
    /// was bound to last.
    pub closed spec fn definitions(&self) -> Map<DeclarationView, ExprView> {
        entries_map(self.definitions@)
    }

    /// An evaluator that has recorded nothing.
    pub fn new() -> (r: Repl)
        ensures
            r.definitions() == Map::<DeclarationView, ExprView>::empty(),
    {
        Repl { definitions: Vec::new() }
    }

    /// The index of the last entry that holds `declaration`.
    fn find(&self, declaration: &Declaration) -> (r: Option<usize>)
        ensures
            match r {
                Some(i) => i < self.definitions.len() && self.definitions[i as int].0@
                    == declaration@ && forall|j: int|
                    i < j < self.definitions.len() ==> self.definitions[j].0@ != declaration@,
                None => forall|j: int|
                    0 <= j < self.definitions.len() ==> self.definitions[j].0@ != declaration@,
            },
    {
        let mut i: usize = self.definitions.len();
        while i > 0
            invariant
                i <= self.definitions.len(),
                forall|j: int|
                    i <= j < self.definitions.len() ==> self.definitions[j].0@ != declaration@,
            decreases i,
        {
            i -= 1;
            if self.definitions[i].0.same(declaration) {
                return Some(i);
            }
        }
        None
    }

    /// The tree that `declaration` was bound to last, if it was bound.
    pub fn lookup(&self, declaration: &Declaration) -> (r: Option<Expr>)
        ensures
            match r {
                Some(e) => self.definitions().contains_key(declaration@) && e@
                    == self.definitions()[declaration@],
                None => !self.definitions().contains_key(declaration@),
            },
    {
        match self.find(declaration) {
            Some(i) => {
                proof {
                    lemma_present(self.definitions@, declaration@, i as int);
                }
                Some(self.definitions[i].1.clone())
            },
            None => {
                proof {
                    lemma_absent(self.definitions@, declaration@);
                }
                None
            },
        }
    }

    /// Binds `declaration` to `value`, in place of what it was bound to.
    fn define(&mut self, declaration: Declaration, value: Expr)
        ensures
            final(self).definitions() == old(self).definitions().insert(declaration@, value@),
    {
        match self.find(&declaration) {
            Some(i) => {
                proof {
                    lemma_replace(self.definitions@, i as int, (declaration, value));
                }
                self.definitions.set(i, (declaration, value));
            },
            None => {
                let ghost before = self.definitions@;
                self.definitions.push((declaration, value));
                proof {
                    assert(self.definitions@.drop_last() =~= before);
                }
            },
        }
    }

    /// Evaluates the tree `expr`, and records the definitions it holds.
    /// Nothing that was recorded is lost.
    pub fn interpret(&mut self, expr: Expr) -> (r: Value)
        ensures
            r@ == eval(expr@),
            final(self).definitions() == bind(expr@, old(self).definitions()),
            old(self).definitions().dom().subset_of(final(self).definitions().dom()),
        decreases expr, 1int,
    {
        proof {
            let before = old(self).definitions();
            assert forall|key: DeclarationView| before.contains_key(key) implies bind(
                expr@,
                before,
            ).contains_key(key) by {
                lemma_bind_keeps(expr@, before, key);
            }
        }
        match expr {
            Expr::Number(n) => Value::Number(Quantity::Literal(n)),
            Expr::BinaryExpr { .. } => self.binary_expr(expr),
            _ => Value::Void,
        }
    }

    /// Evaluates `expr` where it is a tree of two sides, and records the
    /// definitions it holds; any other tree is `Void`.
    pub fn binary_expr(&mut self, expr: Expr) -> (r: Value)
        ensures
            r@ == (if expr@ is BinaryExpr {
                eval(expr@)
            } else {
                ValueView::Void
            }),
            final(self).definitions() == bind(expr@, old(self).definitions()),
        decreases expr, 0int,
    {
        match expr {
            Expr::BinaryExpr { lhs, op, rhs } => {
                let lhs = *lhs;
                let rhs = *rhs;
                let lhs = match lhs {
                    Expr::Declaration { name, ty } => {
                        if matches!(op, Op::Define) {
                            self.define(Declaration { name, ty }, rhs);
                            return Value::Void;
                        }
                        Expr::Declaration { name, ty }
                    },
                    other => other,
                };
                let left = self.interpret(lhs);
                let right = self.interpret(rhs);
                match (left, right) {
                    (Value::Number(a), Value::Number(b)) => match op {
                        Op::Plus => Value::Number(Quantity::Sum(Box::new(a), Box::new(b))),
                        Op::Minus => Value::Number(Quantity::Difference(Box::new(a), Box::new(b))),
                        Op::Star => Value::Number(Quantity::Product(Box::new(a), Box::new(b))),
                        Op::Slash => Value::Number(Quantity::Quotient(Box::new(a), Box::new(b))),
                        _ => Value::Void,
                    },
                    _ => Value::Void,
                }
            },
            _ => Value::Void,
        }
    }
}

} // verus!
