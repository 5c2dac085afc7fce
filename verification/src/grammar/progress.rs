//! Every reading of the grammar stays inside the input, and every
//! construct that was read took at least one token.

use crate::ast::ExprTree;
use crate::grammar::level_has;
use crate::grammar::Input;
use crate::grammar::Parsed;
use crate::grammar::LEVELS;
use crate::tokens::TokenKind;
use vstd::prelude::*;

verus! {

/// The reading `p` from `pos` ends inside the input, at or after `pos`,
/// and after `pos` if it failed before the end of the input.
pub open spec fn inside<T>(input: Input, pos: int, p: Parsed<T>) -> bool {
    match p {
        Parsed::Good { pos: after, .. } => pos <= after <= input.tokens.len(),
        Parsed::Bad { pos: end, .. } => pos <= end <= input.tokens.len() && (pos
            < input.tokens.len() ==> pos < end),
    }
}

/// The reading `p` from `pos` ends inside the input, and after `pos` if it
/// found what it read for, or failed before the end of the input.
pub open spec fn advances<T>(input: Input, pos: int, p: Parsed<T>) -> bool {
    match p {
        Parsed::Good { pos: after, .. } => pos < after <= input.tokens.len(),
        Parsed::Bad { pos: end, .. } => pos <= end <= input.tokens.len() && (pos
            < input.tokens.len() ==> pos < end),
    }
}

/// Taking a token takes one token.
pub proof fn lemma_consume(input: Input, pos: int, kind: TokenKind)
    requires
        0 <= pos <= input.tokens.len(),
    ensures
        advances(input, pos, input.consume(pos, kind)),
{
}

/// Taking a name takes one token.
pub proof fn lemma_consume_name(input: Input, pos: int, what: Seq<char>)
    requires
        0 <= pos <= input.tokens.len(),
    ensures
        advances(input, pos, input.consume_name(pos, what)),
{
}

/// A primary expression takes at least one token.
pub proof fn lemma_primary(input: Input, pos: int)
    requires
        0 <= pos <= input.tokens.len(),
    ensures
        advances(input, pos, input.primary(pos)),
    decreases input.tokens.len() - pos, 0int,
{
    if pos < input.tokens.len() && input.tokens[pos].kind == TokenKind::LeftParen {
        lemma_expression(input, pos + 1);
        match input.expression(pos + 1) {
            Parsed::Good { pos: after, .. } => {
                lemma_consume(input, after, TokenKind::RightParen);
            },
            _ => {},
        }
    }
}

/// A list of expressions takes at least one token.
pub proof fn lemma_expression_list(input: Input, pos: int)
    requires
        0 <= pos <= input.tokens.len(),
    ensures
        advances(input, pos, input.expression_list(pos)),
    decreases input.tokens.len() - pos, 14int,
{
    lemma_expression(input, pos);
    match input.expression(pos) {
        Parsed::Good { pos: after, .. } => {
            if input.at(after, TokenKind::Comma) {
                lemma_expression_list(input, after + 1);
            }
        },
        _ => {},
    }
}

/// The arguments of a call end inside the input.
pub proof fn lemma_arguments(input: Input, pos: int)
    requires
        0 <= pos <= input.tokens.len(),
    ensures
        inside(input, pos, input.arguments(pos)),
    decreases input.tokens.len() - pos, 15int,
{
    if !(input.at(pos, TokenKind::RightParen) || input.peek(pos) is None) {
        lemma_expression_list(input, pos);
    }
}

/// The calls after a callee end inside the input.
pub proof fn lemma_call_tail(input: Input, callee: ExprTree, pos: int)
    requires
        0 <= pos <= input.tokens.len(),
    ensures
        inside(input, pos, input.call_tail(callee, pos)),
    decreases input.tokens.len() - pos, 16int,
{
    if input.at(pos, TokenKind::LeftParen) {
        lemma_arguments(input, pos + 1);
        match input.arguments(pos + 1) {
            Parsed::Good { value: args, pos: after } => {
                lemma_consume(input, after, TokenKind::RightParen);
                match input.consume(after, TokenKind::RightParen) {
                    Parsed::Good { value: r_paren, pos: end } => {
                        lemma_call_tail(
                            input,
                            ExprTree::Call(Box::new(callee), r_paren, args),
                            end,
                        );
                    },
                    _ => {},
                }
            },
            _ => {},
        }
    }
}

/// A call expression takes at least one token.
pub proof fn lemma_call(input: Input, pos: int)
    requires
        0 <= pos <= input.tokens.len(),
    ensures
        advances(input, pos, input.call(pos)),
    decreases input.tokens.len() - pos, 1int,
{
    lemma_primary(input, pos);
    match input.primary(pos) {
        Parsed::Good { value, pos: after } => {
            lemma_call_tail(input, value, after);
        },
        _ => {},
    }
}

/// A unary expression takes at least one token.
pub proof fn lemma_unary(input: Input, pos: int)
    requires
        0 <= pos <= input.tokens.len(),
    ensures
        advances(input, pos, input.unary(pos)),
    decreases input.tokens.len() - pos, 2int,
{
    if input.at(pos, TokenKind::Bang) || input.at(pos, TokenKind::Minus) {
        lemma_unary(input, pos + 1);
    } else {
        lemma_call(input, pos);
    }
}

/// The operators after a left operand end inside the input.
pub proof fn lemma_binary_tail(input: Input, level: int, left: ExprTree, pos: int)
    requires
        0 <= pos <= input.tokens.len(),
    ensures
        inside(input, pos, input.binary_tail(level, left, pos)),
    decreases input.tokens.len() - pos, 16int,
{
    if 0 <= level < LEVELS as int && pos < input.tokens.len() && level_has(
        level,
        input.tokens[pos].kind,
    ) {
        let op = input.tokens[pos];
        lemma_binary(input, level + 1, pos + 1);
        match input.binary(level + 1, pos + 1) {
            Parsed::Good { value: right, pos: end } => {
                let joined = if level < 2 {
                    ExprTree::Logical(op, Box::new(left), Box::new(right))
                } else {
                    ExprTree::Binary(op, Box::new(left), Box::new(right))
                };
                lemma_binary_tail(input, level, joined, end);
            },
            _ => {},
        }
    }
}

/// A binary expression of any level takes at least one token.
pub proof fn lemma_binary(input: Input, level: int, pos: int)
    requires
        0 <= pos <= input.tokens.len(),
    ensures
        advances(input, pos, input.binary(level, pos)),
    decreases
        input.tokens.len() - pos,
        (if 0 <= level < LEVELS as int {
            9 - level
        } else {
            3
        }),
{
    if 0 <= level < LEVELS as int {
        lemma_binary(input, level + 1, pos);
        match input.binary(level + 1, pos) {
            Parsed::Good { value, pos: after } => {
                lemma_binary_tail(input, level, value, after);
            },
            _ => {},
        }
    } else {
        lemma_unary(input, pos);
    }
}

/// An assignment takes at least one token.
pub proof fn lemma_assignment(input: Input, pos: int)
    requires
        0 <= pos <= input.tokens.len(),
    ensures
        advances(input, pos, input.assignment(pos)),
    decreases input.tokens.len() - pos, 12int,
{
    lemma_binary(input, 0, pos);
    match input.binary(0, pos) {
        Parsed::Good { pos: after, .. } => {
            if input.at(after, TokenKind::Equal) {
                lemma_assignment(input, after + 1);
            }
        },
        _ => {},
    }
}

/// An expression that was read took at least one token, and the reading
/// ended inside the input.
pub proof fn lemma_expression(input: Input, pos: int)
    requires
        0 <= pos <= input.tokens.len(),
    ensures
        advances(input, pos, input.expression(pos)),
    decreases input.tokens.len() - pos, 13int,
{
    lemma_assignment(input, pos);
}

/// An expression statement takes at least one token.
pub proof fn lemma_expression_stmt(input: Input, pos: int)
    requires
        0 <= pos <= input.tokens.len(),
    ensures
        advances(input, pos, input.expression_stmt(pos)),
{
    lemma_expression(input, pos);
    match input.expression(pos) {
        Parsed::Good { pos: after, .. } => {
            lemma_consume(input, after, TokenKind::Semicolon);
        },
        _ => {},
    }
}

/// A print statement takes at least one token.
pub proof fn lemma_print_stmt(input: Input, pos: int)
    requires
        0 <= pos <= input.tokens.len(),
    ensures
        advances(input, pos, input.print_stmt(pos)),
{
    match input.consume(pos, TokenKind::Print) {
        Parsed::Good { pos: p1, .. } => {
            lemma_expression(input, p1);
            match input.expression(p1) {
                Parsed::Good { pos: after, .. } => {
                    lemma_consume(input, after, TokenKind::Semicolon);
                },
                _ => {},
            }
        },
        _ => {},
    }
}

/// A return statement takes at least one token.
pub proof fn lemma_return_stmt(input: Input, pos: int)
    requires
        0 <= pos <= input.tokens.len(),
    ensures
        advances(input, pos, input.return_stmt(pos)),
{
    match input.consume(pos, TokenKind::Return) {
        Parsed::Good { pos: p1, .. } => {
            if !input.at(p1, TokenKind::Semicolon) {
                lemma_expression(input, p1);
                match input.expression(p1) {
                    Parsed::Good { pos: after, .. } => {
                        lemma_consume(input, after, TokenKind::Semicolon);
                    },
                    _ => {},
                }
            }
        },
        _ => {},
    }
}

/// A variable declaration takes at least one token.
pub proof fn lemma_var_decl(input: Input, pos: int)
    requires
        0 <= pos <= input.tokens.len(),
    ensures
        advances(input, pos, input.var_decl(pos)),
{
    match input.consume(pos, TokenKind::Var) {
        Parsed::Good { pos: p1, .. } => {
            match input.consume_name(p1, "identifier"@) {
                Parsed::Good { pos: p2, .. } => {
                    if input.at(p2, TokenKind::Equal) {
                        lemma_expression(input, p2 + 1);
                        match input.expression(p2 + 1) {
                            Parsed::Good { pos: after, .. } => {
                                lemma_consume(input, after, TokenKind::Semicolon);
                            },
                            _ => {},
                        }
                    }
                },
                _ => {},
            }
        },
        _ => {},
    }
}

/// A condition between parentheses takes at least one token.
pub proof fn lemma_condition(input: Input, pos: int, keyword: TokenKind)
    requires
        0 <= pos <= input.tokens.len(),
    ensures
        advances(input, pos, input.condition(pos, keyword)),
{
    match input.consume(pos, keyword) {
        Parsed::Good { pos: p1, .. } => {
            match input.consume(p1, TokenKind::LeftParen) {
                Parsed::Good { pos: p2, .. } => {
                    lemma_expression(input, p2);
                    match input.expression(p2) {
                        Parsed::Good { pos: p3, .. } => {
                            lemma_consume(input, p3, TokenKind::RightParen);
                        },
                        _ => {},
                    }
                },
                _ => {},
            }
        },
        _ => {},
    }
}

/// The first clause of a `for` takes at least one token.
pub proof fn lemma_for_initializer(input: Input, pos: int)
    requires
        0 <= pos <= input.tokens.len(),
    ensures
        advances(input, pos, input.for_initializer(pos)),
{
    if input.at(pos, TokenKind::Semicolon) {
    } else if input.at(pos, TokenKind::Var) {
        lemma_var_decl(input, pos);
    } else {
        lemma_expression_stmt(input, pos);
    }
}

/// An expression that may be left out ends inside the input.
pub proof fn lemma_optional_expression(input: Input, pos: int, stop: TokenKind)
    requires
        0 <= pos <= input.tokens.len(),
    ensures
        inside(input, pos, input.optional_expression(pos, stop)),
{
    if !input.at(pos, stop) {
        lemma_expression(input, pos);
    }
}

/// The second and third clause of a `for` take at least one token.
pub proof fn lemma_for_rest(input: Input, initializer: Option<crate::ast::StmtTree>, pos: int)
    requires
        0 <= pos <= input.tokens.len(),
    ensures
        advances(input, pos, input.for_rest(initializer, pos)),
{
    lemma_optional_expression(input, pos, TokenKind::Semicolon);
    match input.optional_expression(pos, TokenKind::Semicolon) {
        Parsed::Good { pos: p1, .. } => {
            match input.consume(p1, TokenKind::Semicolon) {
                Parsed::Good { pos: p2, .. } => {
                    lemma_optional_expression(input, p2, TokenKind::RightParen);
                    match input.optional_expression(p2, TokenKind::RightParen) {
                        Parsed::Good { pos: p3, .. } => {
                            lemma_consume(input, p3, TokenKind::RightParen);
                        },
                        _ => {},
                    }
                },
                _ => {},
            }
        },
        _ => {},
    }
}

/// The clauses of a `for` take at least one token.
pub proof fn lemma_for_clauses(input: Input, pos: int)
    requires
        0 <= pos <= input.tokens.len(),
    ensures
        advances(input, pos, input.for_clauses(pos)),
{
    match input.consume(pos, TokenKind::For) {
        Parsed::Good { pos: p1, .. } => {
            match input.consume(p1, TokenKind::LeftParen) {
                Parsed::Good { pos: p2, .. } => {
                    lemma_for_initializer(input, p2);
                    match input.for_initializer(p2) {
                        Parsed::Good { value, pos: p3 } => {
                            lemma_for_rest(input, value, p3);
                        },
                        _ => {},
                    }
                },
                _ => {},
            }
        },
        _ => {},
    }
}

/// A list of names takes at least one token.
pub proof fn lemma_name_list(input: Input, pos: int)
    requires
        0 <= pos <= input.tokens.len(),
    ensures
        advances(input, pos, input.name_list(pos)),
    decreases input.tokens.len() - pos,
{
    match input.consume_name(pos, "parameter name"@) {
        Parsed::Good { pos: after, .. } => {
            if input.at(after, TokenKind::Comma) {
                lemma_name_list(input, after + 1);
            }
        },
        _ => {},
    }
}

/// The parameters of a function end inside the input.
pub proof fn lemma_parameters(input: Input, pos: int)
    requires
        0 <= pos <= input.tokens.len(),
    ensures
        inside(input, pos, input.parameters(pos)),
{
    if !(input.at(pos, TokenKind::RightParen) || input.peek(pos) is None) {
        lemma_name_list(input, pos);
    }
}

/// The declarations of a block end inside the input.
pub proof fn lemma_block_items(input: Input, pos: int)
    requires
        0 <= pos <= input.tokens.len(),
    ensures
        inside(input, pos, input.block_items(pos)),
    decreases input.tokens.len() - pos, 40int,
{
    if pos < input.tokens.len() && input.tokens[pos].kind != TokenKind::RightBrace {
        lemma_declaration(input, pos);
        match input.declaration(pos) {
            Parsed::Good { pos: after, .. } => {
                lemma_block_items(input, after);
            },
            _ => {},
        }
    }
}

/// A block takes at least one token.
pub proof fn lemma_block(input: Input, pos: int)
    requires
        0 <= pos <= input.tokens.len(),
    ensures
        advances(input, pos, input.block(pos)),
    decreases input.tokens.len() - pos, 32int,
{
    match input.consume(pos, TokenKind::LeftBrace) {
        Parsed::Good { pos: p1, .. } => {
            lemma_block_items(input, p1);
            match input.block_items(p1) {
                Parsed::Good { pos: after, .. } => {
                    lemma_consume(input, after, TokenKind::RightBrace);
                },
                _ => {},
            }
        },
        _ => {},
    }
}

/// An `else` branch ends inside the input.
pub proof fn lemma_else_branch(input: Input, pos: int)
    requires
        0 <= pos <= input.tokens.len(),
    ensures
        inside(input, pos, input.else_branch(pos)),
    decreases input.tokens.len() - pos, 36int,
{
    if input.at(pos, TokenKind::Else) {
        lemma_statement(input, pos + 1);
    }
}

/// An `if` statement takes at least one token.
pub proof fn lemma_if_stmt(input: Input, pos: int)
    requires
        0 <= pos <= input.tokens.len(),
    ensures
        advances(input, pos, input.if_stmt(pos)),
    decreases input.tokens.len() - pos, 33int,
{
    lemma_condition(input, pos, TokenKind::If);
    match input.condition(pos, TokenKind::If) {
        Parsed::Good { pos: p1, .. } => {
            lemma_statement(input, p1);
            match input.statement(p1) {
                Parsed::Good { pos: p2, .. } => {
                    lemma_else_branch(input, p2);
                },
                _ => {},
            }
        },
        _ => {},
    }
}

/// A `while` statement takes at least one token.
pub proof fn lemma_while_stmt(input: Input, pos: int)
    requires
        0 <= pos <= input.tokens.len(),
    ensures
        advances(input, pos, input.while_stmt(pos)),
    decreases input.tokens.len() - pos, 33int,
{
    lemma_condition(input, pos, TokenKind::While);
    match input.condition(pos, TokenKind::While) {
        Parsed::Good { pos: p1, .. } => {
            lemma_statement(input, p1);
        },
        _ => {},
    }
}

/// A `for` statement takes at least one token.
pub proof fn lemma_for_stmt(input: Input, pos: int)
    requires
        0 <= pos <= input.tokens.len(),
    ensures
        advances(input, pos, input.for_stmt(pos)),
    decreases input.tokens.len() - pos, 33int,
{
    lemma_for_clauses(input, pos);
    match input.for_clauses(pos) {
        Parsed::Good { pos: p1, .. } => {
            lemma_statement(input, p1);
        },
        _ => {},
    }
}

/// A function declaration takes at least one token.
pub proof fn lemma_function(input: Input, pos: int)
    requires
        0 <= pos <= input.tokens.len(),
    ensures
        advances(input, pos, input.function(pos)),
    decreases input.tokens.len() - pos, 33int,
{
    match input.consume(pos, TokenKind::Fun) {
        Parsed::Good { pos: p1, .. } => {
            match input.consume_name(p1, "function name"@) {
                Parsed::Good { pos: p2, .. } => {
                    match input.consume(p2, TokenKind::LeftParen) {
                        Parsed::Good { pos: p3, .. } => {
                            lemma_parameters(input, p3);
                            match input.parameters(p3) {
                                Parsed::Good { pos: p4, .. } => {
                                    match input.consume(p4, TokenKind::RightParen) {
                                        Parsed::Good { pos: p5, .. } => {
                                            lemma_block(input, p5);
                                        },
                                        _ => {},
                                    }
                                },
                                _ => {},
                            }
                        },
                        _ => {},
                    }
                },
                _ => {},
            }
        },
        _ => {},
    }
}

/// A statement that was read took at least one token, and the reading
/// ended inside the input.
pub proof fn lemma_statement(input: Input, pos: int)
    requires
        0 <= pos <= input.tokens.len(),
    ensures
        advances(input, pos, input.statement(pos)),
    decreases input.tokens.len() - pos, 34int,
{
    if input.at(pos, TokenKind::If) {
        lemma_if_stmt(input, pos);
    } else if input.at(pos, TokenKind::Print) {
        lemma_print_stmt(input, pos);
    } else if input.at(pos, TokenKind::Return) {
        lemma_return_stmt(input, pos);
    } else if input.at(pos, TokenKind::While) {
        lemma_while_stmt(input, pos);
    } else if input.at(pos, TokenKind::For) {
        lemma_for_stmt(input, pos);
    } else if input.at(pos, TokenKind::LeftBrace) {
        lemma_block(input, pos);
    } else {
        lemma_expression_stmt(input, pos);
    }
}

/// A declaration that was read took at least one token, and the reading
/// ended inside the input.
pub proof fn lemma_declaration(input: Input, pos: int)
    requires
        0 <= pos <= input.tokens.len(),
    ensures
        advances(input, pos, input.declaration(pos)),
    decreases input.tokens.len() - pos, 35int,
{
    if input.at(pos, TokenKind::Fun) {
        lemma_function(input, pos);
    } else if input.at(pos, TokenKind::Var) {
        lemma_var_decl(input, pos);
    } else {
        lemma_statement(input, pos);
    }
}

/// Error recovery ends inside the input, and after where it began unless
/// it began at the end.
pub proof fn lemma_synchronize(input: Input, pos: int)
    requires
        0 <= pos <= input.tokens.len(),
    ensures
        pos <= input.synchronize(pos) <= input.tokens.len(),
        pos < input.tokens.len() ==> pos < input.synchronize(pos),
    decreases input.tokens.len() - pos,
{
    if pos < input.tokens.len() {
        lemma_synchronize(input, pos + 1);
    }
}

/// Whatever stands at a position before the end of the input, the parser
/// goes on from a later position: it reads every program to its end.
pub proof fn lemma_recovered(input: Input, pos: int)
    requires
        0 <= pos < input.tokens.len(),
    ensures
        match input.recovered(pos) {
            Parsed::Good { pos: next, .. } => input.within(pos, next),
            Parsed::Bad { pos: next, .. } => input.within(pos, next),
        },
{
    reveal(Input::item);
    lemma_declaration(input, pos);
    match input.declaration(pos) {
        Parsed::Bad { pos: after, .. } => {
            lemma_synchronize(input, after);
        },
        _ => {},
    }
}

} // verus!
