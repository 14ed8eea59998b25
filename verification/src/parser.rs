//! The syntax tree and the parser that builds it from tokens.
//!
//! The grammar itself is stated in `crate::grammar`; each production of
//! `Parser` is proved to compute what the grammar says.
use crate::grammar;
use crate::grammar::Outcome;
use crate::lexer::{token_views, Token, TokenView};
use crate::literal::Literal;
use vstd::hash_map::StringHashMap;
use vstd::prelude::*;
use vstd::std_specs::cmp::PartialEqSpecImpl;

verus! {

/// An operator of the language.
#[derive(Debug, Clone, Copy, PartialEq, Eq, Structural)]
pub enum Op {
    Plus,
    Minus,
    Star,
    Slash,
    Power,
    EqualEqual,
    Define,
}

impl Op {
    /// The operator that a token spells, if it spells one.
    pub open spec fn of(token: TokenView) -> Option<Op> {
        match token {
            TokenView::Plus => Some(Op::Plus),
            TokenView::Minus => Some(Op::Minus),
            TokenView::Star => Some(Op::Star),
            TokenView::Slash => Some(Op::Slash),
            TokenView::Power => Some(Op::Power),
            TokenView::EqualEqual => Some(Op::EqualEqual),
            TokenView::Define => Some(Op::Define),
            _ => None,
        }
    }

    /// The operator that `tok` spells, if it spells one.
    pub fn from_token(tok: Token) -> (r: Option<Op>)
        ensures
            r == Op::of(tok@),
    {
        match tok {
            Token::Plus => Some(Op::Plus),
            Token::Minus => Some(Op::Minus),
            Token::Star => Some(Op::Star),
            Token::Slash => Some(Op::Slash),
            Token::Power => Some(Op::Power),
            Token::EqualEqual => Some(Op::EqualEqual),
            Token::Define => Some(Op::Define),
            _ => None,
        }
    }
}

/// Why a line has no syntax tree.
#[derive(Debug, Clone, Copy, PartialEq, Eq, Structural)]
pub enum Error {
    /// The token at the cursor fits no production.
    UnexpectedToken,
    /// The tokens ran out within a production.
    EOF,
}

/// The type that a declaration gives a name.
#[derive(Debug, Hash)]
pub enum Type {
    Number,
    Void,
    Lambda { variable: Box<Type>, body: Box<Type> },
    Vector(usize),
    Matrix(usize, usize),
}

impl Type {
    /// The type that the name `name` stands for. The only name that stands for
    /// a type is `number`.
    pub open spec fn named(name: Seq<char>) -> Result<Type, Error> {
        if name == "number"@ {
            Ok(Type::Number)
        } else {
            Err(Error::UnexpectedToken)
        }
    }

    /// The type that the name `s` stands for.
    pub fn from_string(s: String) -> (r: Result<Type, Error>)
        ensures
            r == Type::named(s@),
    {
        if s == "number".to_owned() {
            Ok(Type::Number)
        } else {
            Err(Error::UnexpectedToken)
        }
    }

    /// Whether the two types are the same.
    pub fn same(&self, other: &Type) -> (r: bool)
        ensures
            r == (*self == *other),
        decreases self,
    {
        match self {
            Type::Number => matches!(other, Type::Number),
            Type::Void => matches!(other, Type::Void),
            Type::Lambda { variable, body } => match other {
                Type::Lambda { variable: v, body: b } => variable.same(v) && body.same(b),
                _ => false,
            },
            Type::Vector(width) => match other {
                Type::Vector(w) => *width == *w,
                _ => false,
            },
            Type::Matrix(width, height) => match other {
                Type::Matrix(w, h) => *width == *w && *height == *h,
                _ => false,
            },
        }
    }
}

impl Clone for Type {
    fn clone(&self) -> (r: Type)
        ensures
            r == *self,
        decreases self,
    {
        match self {
            Type::Number => Type::Number,
            Type::Void => Type::Void,
            Type::Lambda { variable, body } => Type::Lambda {
                variable: Box::new((&**variable).clone()),
                body: Box::new((&**body).clone()),
            },
            Type::Vector(width) => Type::Vector(*width),
            Type::Matrix(width, height) => Type::Matrix(*width, *height),
        }
    }
}

impl PartialEq for Type {
    fn eq(&self, other: &Type) -> (r: bool) {
        self.same(other)
    }
}

impl Eq for Type {

}

impl PartialEqSpecImpl for Type {
    open spec fn obeys_eq_spec() -> bool {
        true
    }

    open spec fn eq_spec(&self, other: &Type) -> bool {
        *self == *other
    }
}

/// A node of the syntax tree.
#[derive(Debug)]
#[allow(inconsistent_fields)]
pub enum Expr {
    Number(Literal),
    Identifier(String),
    Declaration { name: String, ty: Type },
    Lambda { variable: Option<String>, body: Box<Expr> },
    Call { name: String, variable: Box<Expr> },
    BinaryExpr { lhs: Box<Expr>, op: Op, rhs: Box<Expr> },
    UnaryExpr { op: Op, rhs: Box<Expr> },
}

/// What a syntax tree is: its shape, with each name as its characters and each
/// literal as its number.
#[allow(inconsistent_fields)]
pub enum ExprView {
    Number(nat),
    Identifier(Seq<char>),
    Declaration { name: Seq<char>, ty: Type },
    Lambda { variable: Option<Seq<char>>, body: Box<ExprView> },
    Call { name: Seq<char>, variable: Box<ExprView> },
    BinaryExpr { lhs: Box<ExprView>, op: Op, rhs: Box<ExprView> },
    UnaryExpr { op: Op, rhs: Box<ExprView> },
}

impl View for Expr {
    type V = ExprView;

    open spec fn view(&self) -> ExprView
        decreases self,
    {
        match self {
            Expr::Number(n) => ExprView::Number(n@),
            Expr::Identifier(name) => ExprView::Identifier(name@),
            Expr::Declaration { name, ty } => ExprView::Declaration { name: name@, ty: *ty },
            Expr::Lambda { variable, body } => ExprView::Lambda {
                variable: match variable {
                    Some(v) => Some(v@),
                    None => None,
                },
                body: Box::new((**body).view()),
            },
            Expr::Call { name, variable } => ExprView::Call {
                name: name@,
                variable: Box::new((**variable).view()),
            },
            Expr::BinaryExpr { lhs, op, rhs } => ExprView::BinaryExpr {
                lhs: Box::new((**lhs).view()),
                op: *op,
                rhs: Box::new((**rhs).view()),
            },
            Expr::UnaryExpr { op, rhs } => ExprView::UnaryExpr {
                op: *op,
                rhs: Box::new((**rhs).view()),
            },
        }
    }
}

impl Expr {
    /// Whether the two trees have the same shape, names and numbers.
    pub fn same(&self, other: &Expr) -> (r: bool)
        ensures
            r == (self@ == other@),
        decreases self,
    {
        match self {
            Expr::Number(a) => match other {
                Expr::Number(b) => a.same(b),
                _ => false,
            },
            Expr::Identifier(a) => match other {
                Expr::Identifier(b) => *a == *b,
                _ => false,
            },
            Expr::Declaration { name, ty } => match other {
                Expr::Declaration { name: n, ty: t } => *name == *n && ty.same(t),
                _ => false,
            },
            Expr::Lambda { variable, body } => match other {
                Expr::Lambda { variable: v, body: b } => {
                    let same_variable = match variable {
                        Some(x) => match v {
                            Some(y) => *x == *y,
                            None => false,
                        },
                        None => v.is_none(),
                    };
                    same_variable && body.same(b)
                },
                _ => false,
            },
            Expr::Call { name, variable } => match other {
                Expr::Call { name: n, variable: v } => *name == *n && variable.same(v),
                _ => false,
            },
            Expr::BinaryExpr { lhs, op, rhs } => match other {
                Expr::BinaryExpr { lhs: l, op: o, rhs: r } => *op == *o && lhs.same(l) && rhs.same(
                    r,
                ),
                _ => false,
            },
            Expr::UnaryExpr { op, rhs } => match other {
                Expr::UnaryExpr { op: o, rhs: r } => *op == *o && rhs.same(r),
                _ => false,
            },
        }
    }
}

impl Clone for Expr {
    fn clone(&self) -> (r: Expr)
        ensures
            r@ == self@,
        decreases self,
    {
        match self {
            Expr::Number(n) => Expr::Number(n.clone()),
            Expr::Identifier(name) => Expr::Identifier(name.clone()),
            Expr::Declaration { name, ty } => Expr::Declaration {
                name: name.clone(),
                ty: ty.clone(),
            },
            Expr::Lambda { variable, body } => Expr::Lambda {
                variable: match variable {
                    Some(v) => Some(v.clone()),
                    None => None,
                },
                body: Box::new((&**body).clone()),
            },
            Expr::Call { name, variable } => Expr::Call {
                name: name.clone(),
                variable: Box::new((&**variable).clone()),
            },
            Expr::BinaryExpr { lhs, op, rhs } => Expr::BinaryExpr {
                lhs: Box::new((&**lhs).clone()),
                op: *op,
                rhs: Box::new((&**rhs).clone()),
            },
            Expr::UnaryExpr { op, rhs } => Expr::UnaryExpr {
                op: *op,
                rhs: Box::new((&**rhs).clone()),
            },
        }
    }
}

impl PartialEq for Expr {
    fn eq(&self, other: &Expr) -> (r: bool) {
        self.same(other)
    }
}

impl PartialEqSpecImpl for Expr {
    open spec fn obeys_eq_spec() -> bool {
        true
    }

    open spec fn eq_spec(&self, other: &Expr) -> bool {
        self@ == other@
    }
}

/// What a production that returned `r` and left the cursor at `cursor` has
/// made of the tokens.
pub open spec fn outcome(r: Result<Expr, Error>, cursor: int) -> Outcome<ExprView> {
    Outcome {
        result: match r {
            Ok(e) => Ok(e@),
            Err(e) => Err(e),
        },
        cursor,
    }
}

/// What a production of the type grammar that returned `r` and left the
/// cursor at `cursor` has made of the tokens.
pub open spec fn type_outcome(r: Result<Type, Error>, cursor: int) -> Outcome<Type> {
    Outcome { result: r, cursor }
}

/// `token_views` of two tokens holds their two views and nothing else.
proof fn lemma_two_choices(a: Token, b: Token, t: TokenView)
    ensures
        token_views(seq![a, b]).contains(t) <==> (t == a@ || t == b@),
{
    let choices = token_views(seq![a, b]);
    assert(choices[0] == a@);
    assert(choices[1] == b@);
}

/// The parser: the tokens of the line in hand, a cursor into them, and the
/// names that the lines parsed so far have defined, each with the value it
/// was bound to.
pub struct Parser {
    line: Line,
    definitions: StringHashMap<Expr>,
}

/// The tokens of a line and a cursor into them, which never stands beyond
/// the index behind the last token.
struct Line {
    tokens: Vec<Token>,
    current: usize,
}

impl Line {
    #[verifier::type_invariant]
    spec fn well_formed(&self) -> bool {
        self.current <= self.tokens.len()
    }
}

impl Parser {
    /// The tokens of the line in hand.
    pub closed spec fn tokens(&self) -> Seq<TokenView> {
        token_views(self.line.tokens@)
    }

    /// The index of the token that is read next.
    pub closed spec fn cursor(&self) -> int {
        self.line.current as int
    }

    /// The names defined so far, each with the value it was bound to last.
    pub closed spec fn definitions(&self) -> Map<Seq<char>, ExprView> {
        self.definitions@.map_values(|e: Expr| e@)
    }

    /// The names defined so far.
    pub open spec fn names(&self) -> Set<Seq<char>> {
        self.definitions().dom()
    }

    /// Whether `self` has the tokens and the definitions of `before`, so that
    /// the two differ in the cursor at most.
    pub open spec fn moved_from(&self, before: &Parser) -> bool {
        &&& self.tokens() == before.tokens()
        &&& self.definitions() == before.definitions()
        &&& 0 <= self.cursor() <= self.tokens().len()
    }

    /// A parser with no tokens and no definitions.
    pub fn new() -> (r: Parser)
        ensures
            r.tokens() == Seq::<TokenView>::empty(),
            r.cursor() == 0,
            r.definitions() == Map::<Seq<char>, ExprView>::empty(),
    {
        let r = Parser {
            line: Line { tokens: Vec::new(), current: 0 },
            definitions: StringHashMap::new(),
        };
        proof {
            assert(r.tokens() =~= Seq::<TokenView>::empty());
            assert(r.definitions() =~= Map::<Seq<char>, ExprView>::empty());
        }
        r
    }

    /// Whether `name` has been defined.
    pub fn is_defined(&self, name: &str) -> (r: bool)
        ensures
            r == self.names().contains(name@),
    {
        self.definitions.contains_key(name)
    }

    /// The value that `name` was bound to last, if it has been defined.
    pub fn lookup(&self, name: &str) -> (r: Option<Expr>)
        ensures
            match r {
                Some(e) => self.names().contains(name@) && e@ == self.definitions()[name@],
                None => !self.names().contains(name@),
            },
    {
        match self.definitions.get(name) {
            Some(e) => Some(e.clone()),
            None => None,
        }
    }

    /// The index of the token that is read next.
    pub fn position(&self) -> (r: usize)
        ensures
            r == self.cursor(),
            r <= self.tokens().len(),
    {
        proof {
            use_type_invariant(&self.line);
        }
        self.line.current
    }

    /// The token at the cursor; `EOF` where the cursor is behind the last token.
    pub fn current(&self) -> (r: Result<Token, Error>)
        ensures
            match r {
                Ok(t) => {
                    &&& self.cursor() < self.tokens().len()
                    &&& t@ == self.tokens()[self.cursor()]
                },
                Err(e) => {
                    &&& e == Error::EOF
                    &&& self.cursor() >= self.tokens().len()
                },
            },
    {
        if self.line.current < self.line.tokens.len() {
            Ok(self.line.tokens[self.line.current].clone())
        } else {
            Err(Error::EOF)
        }
    }

    /// The token at the cursor, which moves on by one; `EOF` where the cursor
    /// is behind the last token, and it then stays.
    pub fn next(&mut self) -> (r: Result<Token, Error>)
        ensures
            final(self).moved_from(old(self)),
            match r {
                Ok(t) => {
                    &&& old(self).cursor() < old(self).tokens().len()
                    &&& t@ == old(self).tokens()[old(self).cursor()]
                    &&& final(self).cursor() == old(self).cursor() + 1
                },
                Err(e) => {
                    &&& e == Error::EOF
                    &&& old(self).cursor() >= old(self).tokens().len()
                    &&& final(self).cursor() == old(self).cursor()
                },
            },
    {
        proof {
            use_type_invariant(&self.line);
        }
        if self.line.current < self.line.tokens.len() {
            let token = self.line.tokens[self.line.current].clone();
            self.line.current += 1;
            Ok(token)
        } else {
            Err(Error::EOF)
        }
    }

    /// Whether `token` stands at the cursor: `EOF` where nothing stands there,
    /// `UnexpectedToken` where another token does.
    pub fn check(&self, token: Token) -> (r: Result<(), Error>)
        ensures
            r == (if self.cursor() >= self.tokens().len() {
                Err::<(), Error>(Error::EOF)
            } else if self.tokens()[self.cursor()] == token@ {
                Ok::<(), Error>(())
            } else {
                Err::<(), Error>(Error::UnexpectedToken)
            }),
    {
        match self.current() {
            Ok(t) => if t.same(&token) {
                Ok(())
            } else {
                Err(Error::UnexpectedToken)
            },
            Err(e) => Err(e),
        }
    }

    /// Moves over `token` where it stands at the cursor; where it does not,
    /// the cursor stays and the error is `UnexpectedToken`.
    pub fn consume(&mut self, token: Token) -> (r: Result<(), Error>)
        ensures
            final(self).moved_from(old(self)),
            r == (if grammar::at(old(self).tokens(), old(self).cursor(), token@) {
                Ok::<(), Error>(())
            } else {
                Err::<(), Error>(Error::UnexpectedToken)
            }),
            final(self).cursor() == old(self).cursor() + (if r is Ok {
                1int
            } else {
                0int
            }),
    {
        proof {
            use_type_invariant(&self.line);
        }
        match self.check(token) {
            Ok(_) => {
                self.line.current += 1;
                Ok(())
            },
            Err(_) => Err(Error::UnexpectedToken),
        }
    }

    /// Moves over the token at the cursor where it is one of `tokens`; where
    /// it is none of them, the cursor stays and the error is `UnexpectedToken`.
    pub fn expect(&mut self, tokens: Vec<Token>) -> (r: Result<(), Error>)
        ensures
            final(self).moved_from(old(self)),
            r == (if grammar::at_any(
                old(self).tokens(),
                old(self).cursor(),
                token_views(tokens@),
            ) {
                Ok::<(), Error>(())
            } else {
                Err::<(), Error>(Error::UnexpectedToken)
            }),
            final(self).cursor() == old(self).cursor() + (if r is Ok {
                1int
            } else {
                0int
            }),
    {
        proof {
            use_type_invariant(&self.line);
        }
        let mut i: usize = 0;
        while i < tokens.len()
            invariant
                i <= tokens.len(),
                *self == *old(self),
                self.line.current <= self.line.tokens.len(),
                forall|k: int|
                    0 <= k < i ==> !grammar::at(
                        self.tokens(),
                        self.cursor(),
                        #[trigger] token_views(tokens@)[k],
                    ),
            decreases tokens.len() - i,
        {
            match self.check(tokens[i].clone()) {
                Ok(_) => {
                    proof {
                        assert(token_views(tokens@)[i as int] == self.tokens()[self.cursor()]);
                    }
                    self.line.current += 1;
                    return Ok(());
                },
                Err(_) => {},
            }
            i += 1;
        }
        Err(Error::UnexpectedToken)
    }

    /// The token before the cursor; `UnexpectedToken` where the cursor stands
    /// at the first token.
    pub fn previous(&self) -> (r: Result<Token, Error>)
        ensures
            match r {
                Ok(t) => {
                    &&& 0 < self.cursor() <= self.tokens().len()
                    &&& t@ == self.tokens()[self.cursor() - 1]
                },
                Err(e) => {
                    &&& e == Error::UnexpectedToken
                    &&& self.cursor() == 0
                },
            },
    {
        proof {
            use_type_invariant(&self.line);
        }
        if self.line.current > 0 {
            Ok(self.line.tokens[self.line.current - 1].clone())
        } else {
            Err(Error::UnexpectedToken)
        }
    }

    /// Parses the line `tokens` from its first token on. A definition's name
    /// is recorded with its value.
    pub fn parse(&mut self, tokens: Vec<Token>) -> (r: Result<Expr, Error>)
        ensures
            final(self).tokens() == token_views(tokens@),
            outcome(r, final(self).cursor()) == grammar::definition(
                token_views(tokens@),
                old(self).names(),
                0,
            ),
            final(self).definitions() == grammar::recorded_in(
                old(self).definitions(),
                grammar::recorded(token_views(tokens@), old(self).names(), 0),
            ),
            old(self).names().subset_of(final(self).names()),
    {
        self.line = Line { tokens, current: 0 };
        self.definition()
    }

    /// Parses a line from the cursor on: a declaration, and where `:=` follows
    /// one, the value behind it. The name is then recorded with that value.
    pub fn definition(&mut self) -> (r: Result<Expr, Error>)
        ensures
            final(self).tokens() == old(self).tokens(),
            0 <= final(self).cursor() <= final(self).tokens().len(),
            outcome(r, final(self).cursor()) == grammar::definition(
                old(self).tokens(),
                old(self).names(),
                old(self).cursor(),
            ),
            final(self).definitions() == grammar::recorded_in(
                old(self).definitions(),
                grammar::recorded(old(self).tokens(), old(self).names(), old(self).cursor()),
            ),
            old(self).names().subset_of(final(self).names()),
    {
        let res = self.declaration()?;
        let declared = match &res {
            Expr::Declaration { name, .. } => Some(name.clone()),
            _ => None,
        };
        match declared {
            Some(name) => match self.consume(Token::Define) {
                Ok(_) => {
                    let expr = self.lambda()?;
                    let ghost before = self.definitions@;
                    self.definitions.insert(name, expr.clone());
                    proof {
                        assert(self.definitions@.map_values(|e: Expr| e@) =~= before.map_values(
                            |e: Expr| e@,
                        ).insert(name@, expr@));
                    }
                    Ok(Expr::BinaryExpr { lhs: Box::new(res), op: Op::Define, rhs: Box::new(expr) })
                },
                Err(_) => Ok(res),
            },
            None => Ok(res),
        }
    }

    /// Parses a declaration from the cursor on: a term, and where the term is
    /// a name and `::` follows it, the type behind it.
    pub fn declaration(&mut self) -> (r: Result<Expr, Error>)
        ensures
            final(self).moved_from(old(self)),
            outcome(r, final(self).cursor()) == grammar::declaration(
                old(self).tokens(),
                old(self).names(),
                old(self).cursor(),
            ),
    {
        let res = self.term()?;
        match self.consume(Token::DefineType) {
            Ok(_) => match res {
                Expr::Identifier(name) => {
                    let ty = self.ty()?;
                    Ok(Expr::Declaration { name, ty })
                },
                other => Ok(other),
            },
            Err(_) => Ok(res),
        }
    }

    /// What stands between square brackets behind the width.
    fn shape(&mut self, width: usize) -> (r: Result<Type, Error>)
        ensures
            final(self).moved_from(old(self)),
            type_outcome(r, final(self).cursor()) == grammar::shape(
                old(self).tokens(),
                old(self).cursor(),
                width,
            ),
    {
        proof {
            use_type_invariant(&self.line);
        }
        match self.consume(Token::Comma) {
            Ok(_) => match self.next()? {
                Token::Number(height) => {
                    self.consume(Token::RightSquared)?;
                    Ok(Type::Matrix(width, height.to_usize()))
                },
                _ => Ok(Type::Void),
            },
            Err(_) => match self.consume(Token::RightSquared) {
                Ok(_) => Ok(Type::Vector(width)),
                Err(_) => Ok(Type::Void),
            },
        }
    }

    /// A type that is no function.
    fn simple_type(&mut self) -> (r: Result<Type, Error>)
        ensures
            final(self).moved_from(old(self)),
            type_outcome(r, final(self).cursor()) == grammar::simple_type(
                old(self).tokens(),
                old(self).cursor(),
            ),
    {
        proof {
            use_type_invariant(&self.line);
        }
        match self.current()? {
            Token::Identifier(name) => {
                self.line.current += 1;
                Type::from_string(name)
            },
            Token::LeftSquared => {
                self.line.current += 1;
                match self.next()? {
                    Token::Number(width) => self.shape(width.to_usize()),
                    _ => Err(Error::UnexpectedToken),
                }
            },
            _ => Err(Error::UnexpectedToken),
        }
    }

    /// Parses a type annotation from the cursor on.
    pub fn ty(&mut self) -> (r: Result<Type, Error>)
        ensures
            final(self).moved_from(old(self)),
            type_outcome(r, final(self).cursor()) == grammar::ty(
                old(self).tokens(),
                old(self).cursor(),
            ),
        decreases old(self).tokens().len() - old(self).cursor(),
    {
        let head = self.simple_type()?;
        match self.consume(Token::Arrow) {
            Ok(_) => {
                let body = self.ty()?;
                Ok(Type::Lambda { variable: Box::new(head), body: Box::new(body) })
            },
            Err(_) => Ok(head),
        }
    }

    /// Parses the right side of a definition from the cursor on: a lambda
    /// behind the lambda glyph, a term without it.
    pub fn lambda(&mut self) -> (r: Result<Expr, Error>)
        ensures
            final(self).moved_from(old(self)),
            outcome(r, final(self).cursor()) == grammar::lambda(
                old(self).tokens(),
                old(self).names(),
                old(self).cursor(),
            ),
    {
        match self.consume(Token::Lambda) {
            Ok(_) => {},
            Err(_) => {
                return self.term();
            },
        }
        match self.consume(Token::Dot) {
            Ok(_) => {
                let body = self.term()?;
                return Ok(Expr::Lambda { variable: None, body: Box::new(body) });
            },
            Err(_) => {},
        }
        let parameter = self.primary()?;
        match self.consume(Token::Dot) {
            Ok(_) => {
                let body = self.term()?;
                let variable = match parameter {
                    Expr::Identifier(name) => Some(name),
                    _ => None,
                };
                Ok(Expr::Lambda { variable, body: Box::new(body) })
            },
            Err(_) => self.term(),
        }
    }

    /// Parses a term from the cursor on: factors joined by `+` and `-`.
    pub fn term(&mut self) -> (r: Result<Expr, Error>)
        ensures
            final(self).moved_from(old(self)),
            outcome(r, final(self).cursor()) == grammar::term(
                old(self).tokens(),
                old(self).names(),
                old(self).cursor(),
            ),
    {
        let ghost tokens = self.tokens();
        let ghost names = self.names();
        let ghost start = self.cursor();
        let mut res = self.factor()?;
        loop
            invariant
                self.moved_from(old(self)),
                tokens == old(self).tokens(),
                names == old(self).names(),
                start == old(self).cursor(),
                grammar::term(tokens, names, start) == grammar::term_rest(
                    tokens,
                    names,
                    self.cursor(),
                    res@,
                ),
            decreases self.tokens().len() - self.cursor(),
        {
            proof {
                if self.cursor() < tokens.len() {
                    lemma_two_choices(Token::Plus, Token::Minus, tokens[self.cursor()]);
                    grammar::lemma_factor_cursor(tokens, names, self.cursor() + 1);
                }
            }
            match self.expect(vec![Token::Plus, Token::Minus]) {
                Ok(_) => {},
                Err(_) => {
                    return Ok(res);
                },
            }
            let op = Op::from_token(self.previous()?).unwrap();
            let rhs = self.factor()?;
            res = Expr::BinaryExpr { lhs: Box::new(res), op, rhs: Box::new(rhs) };
        }
    }

    /// Parses a factor from the cursor on: unaries joined by `*` and `/`.
    pub fn factor(&mut self) -> (r: Result<Expr, Error>)
        ensures
            final(self).moved_from(old(self)),
            outcome(r, final(self).cursor()) == grammar::factor(
                old(self).tokens(),
                old(self).names(),
                old(self).cursor(),
            ),
    {
        let ghost tokens = self.tokens();
        let ghost names = self.names();
        let ghost start = self.cursor();
        let mut res = self.unary()?;
        loop
            invariant
                self.moved_from(old(self)),
                tokens == old(self).tokens(),
                names == old(self).names(),
                start == old(self).cursor(),
                grammar::factor(tokens, names, start) == grammar::factor_rest(
                    tokens,
                    names,
                    self.cursor(),
                    res@,
                ),
            decreases self.tokens().len() - self.cursor(),
        {
            proof {
                if self.cursor() < tokens.len() {
                    lemma_two_choices(Token::Star, Token::Slash, tokens[self.cursor()]);
                    grammar::lemma_unary_cursor(tokens, names, self.cursor() + 1);
                }
            }
            match self.expect(vec![Token::Star, Token::Slash]) {
                Ok(_) => {},
                Err(_) => {
                    return Ok(res);
                },
            }
            let op = Op::from_token(self.previous()?).unwrap();
            let rhs = self.unary()?;
            res = Expr::BinaryExpr { lhs: Box::new(res), op, rhs: Box::new(rhs) };
        }
    }

    /// Parses a unary from the cursor on: a primary, or a `+` or `-` and the
    /// primary behind it.
    pub fn unary(&mut self) -> (r: Result<Expr, Error>)
        ensures
            final(self).moved_from(old(self)),
            outcome(r, final(self).cursor()) == grammar::unary(
                old(self).tokens(),
                old(self).names(),
                old(self).cursor(),
            ),
    {
        proof {
            if self.cursor() < self.tokens().len() {
                lemma_two_choices(Token::Plus, Token::Minus, self.tokens()[self.cursor()]);
            }
        }
        match self.expect(vec![Token::Plus, Token::Minus]) {
            Ok(_) => {
                let op = Op::from_token(self.previous()?).unwrap();
                let rhs = self.primary()?;
                Ok(Expr::UnaryExpr { op, rhs: Box::new(rhs) })
            },
            Err(_) => self.primary(),
        }
    }

    /// Parses a primary from the cursor on: a number, a name, or a defined
    /// name with the primary behind it as its argument. Where it fails, the
    /// cursor stays.
    pub fn primary(&mut self) -> (r: Result<Expr, Error>)
        ensures
            final(self).moved_from(old(self)),
            outcome(r, final(self).cursor()) == grammar::primary(
                old(self).tokens(),
                old(self).names(),
                old(self).cursor(),
            ),
        decreases old(self).tokens().len() - old(self).cursor(),
    {
        proof {
            use_type_invariant(&self.line);
        }
        match self.current()? {
            Token::Number(n) => {
                self.line.current += 1;
                Ok(Expr::Number(n))
            },
            Token::Identifier(name) => {
                self.line.current += 1;
                if self.definitions.contains_key(name.as_str()) {
                    match self.primary() {
                        Ok(argument) => {
                            return Ok(Expr::Call { name, variable: Box::new(argument) });
                        },
                        Err(_) => {},
                    }
                }
                proof {
                    grammar::lemma_primary_cursor(
                        old(self).tokens(),
                        old(self).names(),
                        old(self).cursor() + 1,
                    );
                }
                Ok(Expr::Identifier(name))
            },
            _ => Err(Error::UnexpectedToken),
        }
    }
}

} // verus!
