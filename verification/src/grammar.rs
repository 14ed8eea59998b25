//! The grammar of the language, as functions from tokens to syntax trees.
//!
//! Each production takes the tokens of a line, the names that have been
//! defined so far and a cursor, and yields an `Outcome`: the tree or the
//! error, and the cursor behind what was read. From the loosest binding to
//! the tightest: `definition`, `declaration`, `lambda`, `term`, `factor`,
//! `unary`, `primary`. `ty` is the grammar of type annotations.
use crate::lexer::TokenView;
use crate::literal::saturated;
use crate::parser::{Error, ExprView, Op, Type};
use vstd::prelude::*;

verus! {

/// What a production makes of the tokens from a cursor on.
pub struct Outcome<T> {
    /// The tree that was read, or why none was.
    pub result: Result<T, Error>,
    /// Where the cursor stands afterwards.
    pub cursor: int,
}

/// Whether `token` stands at `cursor`.
pub open spec fn at(tokens: Seq<TokenView>, cursor: int, token: TokenView) -> bool {
    0 <= cursor < tokens.len() && tokens[cursor] == token
}

/// Whether one of `choices` stands at `cursor`.
pub open spec fn at_any(tokens: Seq<TokenView>, cursor: int, choices: Seq<TokenView>) -> bool {
    0 <= cursor < tokens.len() && choices.contains(tokens[cursor])
}

/// Whether a `+` or a `-` stands at `cursor`.
pub open spec fn at_additive(tokens: Seq<TokenView>, cursor: int) -> bool {
    at(tokens, cursor, TokenView::Plus) || at(tokens, cursor, TokenView::Minus)
}

/// Whether a `*` or a `/` stands at `cursor`.
pub open spec fn at_multiplicative(tokens: Seq<TokenView>, cursor: int) -> bool {
    at(tokens, cursor, TokenView::Star) || at(tokens, cursor, TokenView::Slash)
}

/// The tree `lhs op rhs`.
pub open spec fn binary(lhs: ExprView, op: Op, rhs: ExprView) -> ExprView {
    ExprView::BinaryExpr { lhs: Box::new(lhs), op, rhs: Box::new(rhs) }
}

/// A number, or a name. A name that has been defined takes the primary
/// behind it, if there is one, as its argument, and is then a call.
///
/// Where no primary begins at `cursor`, the cursor stays.
pub open spec fn primary(tokens: Seq<TokenView>, names: Set<Seq<char>>, cursor: int) -> Outcome<
    ExprView,
>
    decreases tokens.len() - cursor,
{
    if cursor < 0 || cursor >= tokens.len() {
        Outcome { result: Err(Error::EOF), cursor }
    } else {
        match tokens[cursor] {
            TokenView::Number(n) => Outcome { result: Ok(ExprView::Number(n)), cursor: cursor + 1 },
            TokenView::Identifier(name) => {
                let argument = primary(tokens, names, cursor + 1);
                if names.contains(name) && argument.result is Ok {
                    Outcome {
                        result: Ok(
                            ExprView::Call {
                                name,
                                variable: Box::new(argument.result->Ok_0),
                            },
                        ),
                        cursor: argument.cursor,
                    }
                } else {
                    Outcome { result: Ok(ExprView::Identifier(name)), cursor: cursor + 1 }
                }
            },
            _ => Outcome { result: Err(Error::UnexpectedToken), cursor },
        }
    }
}

/// A primary, or a `+` or `-` and the one primary behind it.
pub open spec fn unary(tokens: Seq<TokenView>, names: Set<Seq<char>>, cursor: int) -> Outcome<
    ExprView,
> {
    if at_additive(tokens, cursor) {
        let operand = primary(tokens, names, cursor + 1);
        match operand.result {
            Ok(rhs) => Outcome {
                result: Ok(
                    ExprView::UnaryExpr { op: Op::of(tokens[cursor]).unwrap(), rhs: Box::new(rhs) },
                ),
                cursor: operand.cursor,
            },
            Err(e) => Outcome { result: Err(e), cursor: operand.cursor },
        }
    } else {
        primary(tokens, names, cursor)
    }
}

/// What follows a factor whose left side `lhs` has been read: as many times
/// `*` or `/` and a unary as there are, each taking all before it as its left side.
pub open spec fn factor_rest(
    tokens: Seq<TokenView>,
    names: Set<Seq<char>>,
    cursor: int,
    lhs: ExprView,
) -> Outcome<ExprView>
    decreases tokens.len() - cursor,
    via factor_rest_decreases
{
    if at_multiplicative(tokens, cursor) {
        let operand = unary(tokens, names, cursor + 1);
        match operand.result {
            Ok(rhs) => factor_rest(
                tokens,
                names,
                operand.cursor,
                binary(lhs, Op::of(tokens[cursor]).unwrap(), rhs),
            ),
            Err(e) => Outcome { result: Err(e), cursor: operand.cursor },
        }
    } else {
        Outcome { result: Ok(lhs), cursor }
    }
}

#[via_fn]
proof fn factor_rest_decreases(
    tokens: Seq<TokenView>,
    names: Set<Seq<char>>,
    cursor: int,
    lhs: ExprView,
) {
    if at_multiplicative(tokens, cursor) {
        lemma_unary_cursor(tokens, names, cursor + 1);
    }
}

/// Unaries joined by `*` and `/`, grouped from the left.
pub open spec fn factor(tokens: Seq<TokenView>, names: Set<Seq<char>>, cursor: int) -> Outcome<
    ExprView,
> {
    let first = unary(tokens, names, cursor);
    match first.result {
        Ok(lhs) => factor_rest(tokens, names, first.cursor, lhs),
        Err(_) => first,
    }
}

/// What follows a term whose left side `lhs` has been read: as many times
/// `+` or `-` and a factor as there are, each taking all before it as its left side.
pub open spec fn term_rest(
    tokens: Seq<TokenView>,
    names: Set<Seq<char>>,
    cursor: int,
    lhs: ExprView,
) -> Outcome<ExprView>
    decreases tokens.len() - cursor,
    via term_rest_decreases
{
    if at_additive(tokens, cursor) {
        let operand = factor(tokens, names, cursor + 1);
        match operand.result {
            Ok(rhs) => term_rest(
                tokens,
                names,
                operand.cursor,
                binary(lhs, Op::of(tokens[cursor]).unwrap(), rhs),
            ),
            Err(e) => Outcome { result: Err(e), cursor: operand.cursor },
        }
    } else {
        Outcome { result: Ok(lhs), cursor }
    }
}

#[via_fn]
proof fn term_rest_decreases(
    tokens: Seq<TokenView>,
    names: Set<Seq<char>>,
    cursor: int,
    lhs: ExprView,
) {
    if at_additive(tokens, cursor) {
        lemma_factor_cursor(tokens, names, cursor + 1);
    }
}

/// Factors joined by `+` and `-`, grouped from the left.
pub open spec fn term(tokens: Seq<TokenView>, names: Set<Seq<char>>, cursor: int) -> Outcome<
    ExprView,
> {
    let first = factor(tokens, names, cursor);
    match first.result {
        Ok(lhs) => term_rest(tokens, names, first.cursor, lhs),
        Err(_) => first,
    }
}

/// What stands between square brackets behind the width `width`: `]` closes a
/// vector; `,`, a number and `]` make a matrix. Anything else leaves the type void.
pub open spec fn shape(tokens: Seq<TokenView>, cursor: int, width: usize) -> Outcome<Type> {
    if at(tokens, cursor, TokenView::Comma) {
        if cursor + 1 >= tokens.len() {
            Outcome { result: Err(Error::EOF), cursor: cursor + 1 }
        } else {
            match tokens[cursor + 1] {
                TokenView::Number(height) => if at(tokens, cursor + 2, TokenView::RightSquared) {
                    Outcome {
                        result: Ok(Type::Matrix(width, saturated(height))),
                        cursor: cursor + 3,
                    }
                } else {
                    Outcome { result: Err(Error::UnexpectedToken), cursor: cursor + 2 }
                },
                _ => Outcome { result: Ok(Type::Void), cursor: cursor + 2 },
            }
        }
    } else if at(tokens, cursor, TokenView::RightSquared) {
        Outcome { result: Ok(Type::Vector(width)), cursor: cursor + 1 }
    } else {
        Outcome { result: Ok(Type::Void), cursor }
    }
}

/// A type that is no function: the name of a type, or a vector or a matrix
/// in square brackets.
///
/// Where the token at `cursor` is neither a name nor `[`, the cursor stays.
pub open spec fn simple_type(tokens: Seq<TokenView>, cursor: int) -> Outcome<Type> {
    if cursor < 0 || cursor >= tokens.len() {
        Outcome { result: Err(Error::EOF), cursor }
    } else {
        match tokens[cursor] {
            TokenView::Identifier(name) => Outcome {
                result: Type::named(name),
                cursor: cursor + 1,
            },
            TokenView::LeftSquared => if cursor + 1 >= tokens.len() {
                Outcome { result: Err(Error::EOF), cursor: cursor + 1 }
            } else {
                match tokens[cursor + 1] {
                    TokenView::Number(width) => shape(tokens, cursor + 2, saturated(width)),
                    _ => Outcome { result: Err(Error::UnexpectedToken), cursor: cursor + 2 },
                }
            },
            _ => Outcome { result: Err(Error::UnexpectedToken), cursor },
        }
    }
}

/// A type annotation: a simple type, or a simple type, `->` and a type, which
/// is the type of a function. The arrow groups from the right.
pub open spec fn ty(tokens: Seq<TokenView>, cursor: int) -> Outcome<Type>
    decreases tokens.len() - cursor,
    via ty_decreases
{
    let head = simple_type(tokens, cursor);
    match head.result {
        Ok(parameter) => if at(tokens, head.cursor, TokenView::Arrow) {
            let tail = ty(tokens, head.cursor + 1);
            match tail.result {
                Ok(result) => Outcome {
                    result: Ok(
                        Type::Lambda { variable: Box::new(parameter), body: Box::new(result) },
                    ),
                    cursor: tail.cursor,
                },
                Err(e) => Outcome { result: Err(e), cursor: tail.cursor },
            }
        } else {
            head
        },
        Err(_) => head,
    }
}

#[via_fn]
proof fn ty_decreases(tokens: Seq<TokenView>, cursor: int) {
    let head = simple_type(tokens, cursor);
    if head.result is Ok {
        assert(head.cursor > cursor);
    }
}

/// A term, or a name, `::` and a type. A `::` behind a term that is no name
/// is passed over.
pub open spec fn declaration(tokens: Seq<TokenView>, names: Set<Seq<char>>, cursor: int) -> Outcome<
    ExprView,
> {
    let left = term(tokens, names, cursor);
    match left.result {
        Ok(subject) => if at(tokens, left.cursor, TokenView::DefineType) {
            match subject {
                ExprView::Identifier(name) => {
                    let annotation = ty(tokens, left.cursor + 1);
                    match annotation.result {
                        Ok(ty) => Outcome {
                            result: Ok(ExprView::Declaration { name, ty }),
                            cursor: annotation.cursor,
                        },
                        Err(e) => Outcome { result: Err(e), cursor: annotation.cursor },
                    }
                },
                _ => Outcome { result: Ok(subject), cursor: left.cursor + 1 },
            }
        } else {
            left
        },
        Err(_) => left,
    }
}

/// The lambda `variable . body`, the body being the term at `cursor`.
pub open spec fn lambda_body(
    tokens: Seq<TokenView>,
    names: Set<Seq<char>>,
    cursor: int,
    variable: Option<Seq<char>>,
) -> Outcome<ExprView> {
    let body = term(tokens, names, cursor);
    match body.result {
        Ok(b) => Outcome {
            result: Ok(ExprView::Lambda { variable, body: Box::new(b) }),
            cursor: body.cursor,
        },
        Err(_) => body,
    }
}

/// The right side of a definition. Behind the lambda glyph: `.` and a term, a
/// lambda without a parameter; or a name, `.` and a term, a lambda with that
/// name as its parameter. Without the glyph: a term.
///
/// Behind the glyph a primary that is no name is read and dropped; a `.`
/// behind it begins the body of a lambda without a parameter. Where no `.`
/// follows the primary, what follows is read as a term.
pub open spec fn lambda(tokens: Seq<TokenView>, names: Set<Seq<char>>, cursor: int) -> Outcome<
    ExprView,
> {
    if at(tokens, cursor, TokenView::Lambda) {
        if at(tokens, cursor + 1, TokenView::Dot) {
            lambda_body(tokens, names, cursor + 2, None)
        } else {
            let parameter = primary(tokens, names, cursor + 1);
            match parameter.result {
                Ok(p) => if at(tokens, parameter.cursor, TokenView::Dot) {
                    lambda_body(
                        tokens,
                        names,
                        parameter.cursor + 1,
                        match p {
                            ExprView::Identifier(name) => Some(name),
                            _ => None,
                        },
                    )
                } else {
                    term(tokens, names, parameter.cursor)
                },
                Err(_) => parameter,
            }
        }
    } else {
        term(tokens, names, cursor)
    }
}

/// Whether a definition stands at `cursor`: a declaration with `:=` behind it.
pub open spec fn defines(tokens: Seq<TokenView>, names: Set<Seq<char>>, cursor: int) -> bool {
    let left = declaration(tokens, names, cursor);
    left.result is Ok && left.result->Ok_0 is Declaration && at(
        tokens,
        left.cursor,
        TokenView::Define,
    )
}

/// A line: a declaration, or a declaration, `:=` and the value it is bound
/// to. A `:=` behind anything but a declaration is left unread.
pub open spec fn definition(tokens: Seq<TokenView>, names: Set<Seq<char>>, cursor: int) -> Outcome<
    ExprView,
> {
    let left = declaration(tokens, names, cursor);
    if defines(tokens, names, cursor) {
        let value = lambda(tokens, names, left.cursor + 1);
        match value.result {
            Ok(rhs) => Outcome {
                result: Ok(binary(left.result->Ok_0, Op::Define, rhs)),
                cursor: value.cursor,
            },
            Err(_) => value,
        }
    } else {
        left
    }
}

/// The name that the line at `cursor` defines and the value it binds it to,
/// where the line is a definition and its value has been read.
pub open spec fn recorded(tokens: Seq<TokenView>, names: Set<Seq<char>>, cursor: int) -> Option<
    (Seq<char>, ExprView),
> {
    let left = declaration(tokens, names, cursor);
    if defines(tokens, names, cursor) {
        match (left.result, lambda(tokens, names, left.cursor + 1).result) {
            (Ok(ExprView::Declaration { name, .. }), Ok(rhs)) => Some((name, rhs)),
            _ => None,
        }
    } else {
        None
    }
}

/// The definitions `before` with what a line recorded, if it recorded anything.
pub open spec fn recorded_in(
    before: Map<Seq<char>, ExprView>,
    recorded: Option<(Seq<char>, ExprView)>,
) -> Map<Seq<char>, ExprView> {
    match recorded {
        Some((name, value)) => before.insert(name, value),
        None => before,
    }
}

/// A line forgets no definition: what was defined before it is defined
/// after it.
pub proof fn lemma_recorded_keeps(
    before: Map<Seq<char>, ExprView>,
    recorded: Option<(Seq<char>, ExprView)>,
    name: Seq<char>,
)
    requires
        before.contains_key(name),
    ensures
        recorded_in(before, recorded).contains_key(name),
{
}

/// No production reads a parenthesis: where one stands at the cursor, the
/// line has no tree, and the cursor stays.
pub proof fn lemma_parenthesis_fits_nowhere(
    tokens: Seq<TokenView>,
    names: Set<Seq<char>>,
    cursor: int,
)
    requires
        at(tokens, cursor, TokenView::LeftParen) || at(tokens, cursor, TokenView::RightParen),
    ensures
        definition(tokens, names, cursor) == (Outcome {
            result: Err::<ExprView, Error>(Error::UnexpectedToken),
            cursor,
        }),
{
}

/// A product under a sum: `a + b * c` is the sum of `a` and the product of
/// `b` and `c`, whatever the three numbers are.
pub proof fn lemma_product_under_sum(a: nat, b: nat, c: nat, names: Set<Seq<char>>)
    ensures
        term(
            seq![
                TokenView::Number(a),
                TokenView::Plus,
                TokenView::Number(b),
                TokenView::Star,
                TokenView::Number(c),
            ],
            names,
            0,
        ) == (Outcome {
            result: Ok(
                binary(
                    ExprView::Number(a),
                    Op::Plus,
                    binary(ExprView::Number(b), Op::Star, ExprView::Number(c)),
                ),
            ),
            cursor: 5,
        }),
{
    let tokens = seq![
        TokenView::Number(a),
        TokenView::Plus,
        TokenView::Number(b),
        TokenView::Star,
        TokenView::Number(c),
    ];
    reveal_with_fuel(factor_rest, 3);
    reveal_with_fuel(term_rest, 3);
    assert(primary(tokens, names, 0).cursor == 1);
    assert(primary(tokens, names, 2).cursor == 3);
    assert(primary(tokens, names, 4).cursor == 5);
    assert(factor(tokens, names, 0).cursor == 1);
    assert(factor(tokens, names, 2).cursor == 5);
}

/// Subtraction groups from the left: `a - b - c` takes `c` from the
/// difference of `a` and `b`, whatever the three numbers are.
pub proof fn lemma_difference_groups_left(a: nat, b: nat, c: nat, names: Set<Seq<char>>)
    ensures
        term(
            seq![
                TokenView::Number(a),
                TokenView::Minus,
                TokenView::Number(b),
                TokenView::Minus,
                TokenView::Number(c),
            ],
            names,
            0,
        ) == (Outcome {
            result: Ok(
                binary(
                    binary(ExprView::Number(a), Op::Minus, ExprView::Number(b)),
                    Op::Minus,
                    ExprView::Number(c),
                ),
            ),
            cursor: 5,
        }),
{
    let tokens = seq![
        TokenView::Number(a),
        TokenView::Minus,
        TokenView::Number(b),
        TokenView::Minus,
        TokenView::Number(c),
    ];
    reveal_with_fuel(factor_rest, 3);
    reveal_with_fuel(term_rest, 4);
    assert(primary(tokens, names, 0).cursor == 1);
    assert(primary(tokens, names, 2).cursor == 3);
    assert(primary(tokens, names, 4).cursor == 5);
    assert(factor(tokens, names, 0).cursor == 1);
    assert(factor(tokens, names, 2).cursor == 3);
    assert(factor(tokens, names, 4).cursor == 5);
}

/// A primary that was read moved the cursor on, within the line; one that
/// failed left it where it was.
pub proof fn lemma_primary_cursor(tokens: Seq<TokenView>, names: Set<Seq<char>>, cursor: int)
    requires
        0 <= cursor <= tokens.len(),
    ensures
        primary(tokens, names, cursor).result is Ok ==> cursor < primary(
            tokens,
            names,
            cursor,
        ).cursor <= tokens.len(),
        primary(tokens, names, cursor).result is Err ==> primary(tokens, names, cursor).cursor
            == cursor,
    decreases tokens.len() - cursor,
{
    if cursor < tokens.len() {
        lemma_primary_cursor(tokens, names, cursor + 1);
    }
}

/// A unary never moves the cursor back nor beyond the line, and one that was
/// read moved it on.
pub proof fn lemma_unary_cursor(tokens: Seq<TokenView>, names: Set<Seq<char>>, cursor: int)
    requires
        0 <= cursor <= tokens.len(),
    ensures
        cursor <= unary(tokens, names, cursor).cursor <= tokens.len(),
        unary(tokens, names, cursor).result is Ok ==> cursor < unary(tokens, names, cursor).cursor,
{
    lemma_primary_cursor(tokens, names, cursor);
    if cursor < tokens.len() {
        lemma_primary_cursor(tokens, names, cursor + 1);
    }
}

/// What follows a factor never moves the cursor back nor beyond the line.
pub proof fn lemma_factor_rest_cursor(
    tokens: Seq<TokenView>,
    names: Set<Seq<char>>,
    cursor: int,
    lhs: ExprView,
)
    requires
        0 <= cursor <= tokens.len(),
    ensures
        cursor <= factor_rest(tokens, names, cursor, lhs).cursor <= tokens.len(),
    decreases tokens.len() - cursor,
{
    if at_multiplicative(tokens, cursor) {
        let operand = unary(tokens, names, cursor + 1);
        lemma_unary_cursor(tokens, names, cursor + 1);
        match operand.result {
            Ok(rhs) => {
                lemma_factor_rest_cursor(
                    tokens,
                    names,
                    operand.cursor,
                    binary(lhs, Op::of(tokens[cursor]).unwrap(), rhs),
                );
            },
            Err(_) => {},
        }
    }
}

/// A factor never moves the cursor back nor beyond the line, and one that was
/// read moved it on.
pub proof fn lemma_factor_cursor(tokens: Seq<TokenView>, names: Set<Seq<char>>, cursor: int)
    requires
        0 <= cursor <= tokens.len(),
    ensures
        cursor <= factor(tokens, names, cursor).cursor <= tokens.len(),
        factor(tokens, names, cursor).result is Ok ==> cursor < factor(
            tokens,
            names,
            cursor,
        ).cursor,
{
    lemma_unary_cursor(tokens, names, cursor);
    let first = unary(tokens, names, cursor);
    match first.result {
        Ok(lhs) => {
            lemma_factor_rest_cursor(tokens, names, first.cursor, lhs);
        },
        Err(_) => {},
    }
}

/// What follows a term never moves the cursor back nor beyond the line.
pub proof fn lemma_term_rest_cursor(
    tokens: Seq<TokenView>,
    names: Set<Seq<char>>,
    cursor: int,
    lhs: ExprView,
)
    requires
        0 <= cursor <= tokens.len(),
    ensures
        cursor <= term_rest(tokens, names, cursor, lhs).cursor <= tokens.len(),
    decreases tokens.len() - cursor,
{
    if at_additive(tokens, cursor) {
        let operand = factor(tokens, names, cursor + 1);
        lemma_factor_cursor(tokens, names, cursor + 1);
        match operand.result {
            Ok(rhs) => {
                lemma_term_rest_cursor(
                    tokens,
                    names,
                    operand.cursor,
                    binary(lhs, Op::of(tokens[cursor]).unwrap(), rhs),
                );
            },
            Err(_) => {},
        }
    }
}

/// A term never moves the cursor back nor beyond the line, and one that was
/// read moved it on.
pub proof fn lemma_term_cursor(tokens: Seq<TokenView>, names: Set<Seq<char>>, cursor: int)
    requires
        0 <= cursor <= tokens.len(),
    ensures
        cursor <= term(tokens, names, cursor).cursor <= tokens.len(),
        term(tokens, names, cursor).result is Ok ==> cursor < term(tokens, names, cursor).cursor,
{
    lemma_factor_cursor(tokens, names, cursor);
    let first = factor(tokens, names, cursor);
    match first.result {
        Ok(lhs) => {
            lemma_term_rest_cursor(tokens, names, first.cursor, lhs);
        },
        Err(_) => {},
    }
}

/// A type annotation never moves the cursor back nor beyond the line, and one
/// that was read moved it on.
pub proof fn lemma_ty_cursor(tokens: Seq<TokenView>, cursor: int)
    requires
        0 <= cursor <= tokens.len(),
    ensures
        cursor <= ty(tokens, cursor).cursor <= tokens.len(),
        ty(tokens, cursor).result is Ok ==> cursor < ty(tokens, cursor).cursor,
    decreases tokens.len() - cursor,
{
    let head = simple_type(tokens, cursor);
    if head.result is Ok && at(tokens, head.cursor, TokenView::Arrow) {
        lemma_ty_cursor(tokens, head.cursor + 1);
    }
}

/// A line never moves the cursor back nor beyond the line's end, and one that
/// was read moved it on.
pub proof fn lemma_definition_cursor(tokens: Seq<TokenView>, names: Set<Seq<char>>, cursor: int)
    requires
        0 <= cursor <= tokens.len(),
    ensures
        cursor <= definition(tokens, names, cursor).cursor <= tokens.len(),
        definition(tokens, names, cursor).result is Ok ==> cursor < definition(
            tokens,
            names,
            cursor,
        ).cursor,
{
    lemma_declaration_cursor(tokens, names, cursor);
    let left = declaration(tokens, names, cursor);
    if defines(tokens, names, cursor) {
        lemma_lambda_cursor(tokens, names, left.cursor + 1);
    }
}

/// A declaration never moves the cursor back nor beyond the line, and one
/// that was read moved it on.
pub proof fn lemma_declaration_cursor(tokens: Seq<TokenView>, names: Set<Seq<char>>, cursor: int)
    requires
        0 <= cursor <= tokens.len(),
    ensures
        cursor <= declaration(tokens, names, cursor).cursor <= tokens.len(),
        declaration(tokens, names, cursor).result is Ok ==> cursor < declaration(
            tokens,
            names,
            cursor,
        ).cursor,
{
    lemma_term_cursor(tokens, names, cursor);
    let left = term(tokens, names, cursor);
    if left.result is Ok && at(tokens, left.cursor, TokenView::DefineType) {
        lemma_ty_cursor(tokens, left.cursor + 1);
    }
}

/// The right side of a definition never moves the cursor back nor beyond the
/// line, and one that was read moved it on.
pub proof fn lemma_lambda_cursor(tokens: Seq<TokenView>, names: Set<Seq<char>>, cursor: int)
    requires
        0 <= cursor <= tokens.len(),
    ensures
        cursor <= lambda(tokens, names, cursor).cursor <= tokens.len(),
        lambda(tokens, names, cursor).result is Ok ==> cursor < lambda(
            tokens,
            names,
            cursor,
        ).cursor,
{
    lemma_term_cursor(tokens, names, cursor);
    if at(tokens, cursor, TokenView::Lambda) {
        if at(tokens, cursor + 1, TokenView::Dot) {
            lemma_term_cursor(tokens, names, cursor + 2);
        } else {
            lemma_primary_cursor(tokens, names, cursor + 1);
            let parameter = primary(tokens, names, cursor + 1);
            if parameter.result is Ok {
                if at(tokens, parameter.cursor, TokenView::Dot) {
                    lemma_term_cursor(tokens, names, parameter.cursor + 1);
                } else {
                    lemma_term_cursor(tokens, names, parameter.cursor);
                }
            }
        }
    }
}

} // verus!
