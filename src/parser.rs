//! The recursive-descent parser: tokens to a syntax tree.
use vstd::prelude::*;
use crate::ast::{
    Assign, Binary, BinaryOperator, Expr, ExprModel, Grouping, LitModel, Literal, Logical,
    LogicalOperator, Program, Stmt, StmtModel, Unary, UnaryOperator, Variable, expr_model,
    stmt_model, stmts_model,
};
use crate::tokenizer::{Token, TokenModel, TokenType, strings_closed, tokens_view};

verus! {

/// A parse error as a value: the offending token's line, whether it is the
/// end of input, its text, and what was expected.
pub struct ParseErrorModel {
    pub line: nat,
    pub at_end: bool,
    pub lexeme: Seq<char>,
    pub message: Seq<char>,
}

/// The outcome of parsing one construct from a position: the value and the
/// position just past it, or the first error.
pub type Parsed<T> = Result<(T, int), ParseErrorModel>;

/// The error `message` reported at token `pos`.
pub open spec fn error_at(toks: Seq<TokenModel>, pos: int, message: Seq<char>) -> ParseErrorModel {
    ParseErrorModel {
        line: toks[pos].line,
        at_end: toks[pos].kind == TokenType::Eof,
        lexeme: toks[pos].lexeme,
        message,
    }
}

/// Whether token `pos` is of kind `k`.
pub open spec fn at_kind(toks: Seq<TokenModel>, pos: int, k: TokenType) -> bool {
    0 <= pos < toks.len() && toks[pos].kind == k
}

/// Consumes a token of kind `k` (never the end of input) at `pos`, or reports `message` there.
pub open spec fn expect(toks: Seq<TokenModel>, pos: int, k: TokenType, message: Seq<char>) -> Result<
    int,
    ParseErrorModel,
> {
    if at_kind(toks, pos, k) && k != TokenType::Eof {
        Ok(pos + 1)
    } else {
        Err(error_at(toks, pos, message))
    }
}

/// An operator of one of the binary precedence levels.
pub enum LevelOp {
    Logic(LogicalOperator),
    Arith(BinaryOperator),
}

/// The operator that token kind `k` stands for at precedence level `level`:
/// 0 `or`, 1 `and`, 2 equality, 3 comparison, 4 terms, 5 factors.
pub open spec fn level_op(level: int, k: TokenType) -> Option<LevelOp> {
    if level == 0 && k == TokenType::Or {
        Some(LevelOp::Logic(LogicalOperator::Or))
    } else if level == 1 && k == TokenType::And {
        Some(LevelOp::Logic(LogicalOperator::And))
    } else if level == 2 && k == TokenType::BangEqual {
        Some(LevelOp::Arith(BinaryOperator::NotEqual))
    } else if level == 2 && k == TokenType::EqualEqual {
        Some(LevelOp::Arith(BinaryOperator::Equal))
    } else if level == 3 && k == TokenType::Greater {
        Some(LevelOp::Arith(BinaryOperator::Greater))
    } else if level == 3 && k == TokenType::GreaterEqual {
        Some(LevelOp::Arith(BinaryOperator::GreaterEqual))
    } else if level == 3 && k == TokenType::Less {
        Some(LevelOp::Arith(BinaryOperator::Less))
    } else if level == 3 && k == TokenType::LessEqual {
        Some(LevelOp::Arith(BinaryOperator::LessEqual))
    } else if level == 4 && k == TokenType::Minus {
        Some(LevelOp::Arith(BinaryOperator::Sub))
    } else if level == 4 && k == TokenType::Plus {
        Some(LevelOp::Arith(BinaryOperator::Add))
    } else if level == 5 && k == TokenType::Slash {
        Some(LevelOp::Arith(BinaryOperator::Div))
    } else if level == 5 && k == TokenType::Star {
        Some(LevelOp::Arith(BinaryOperator::Mul))
    } else {
        None
    }
}

/// The node for `left op right`, with the operator's line.
pub open spec fn level_node(line: nat, left: ExprModel, op: LevelOp, right: ExprModel) -> ExprModel {
    match op {
        LevelOp::Logic(o) => ExprModel::Logical(line, Box::new(left), o, Box::new(right)),
        LevelOp::Arith(o) => ExprModel::Binary(line, Box::new(left), o, Box::new(right)),
    }
}

/// Whether a sub-parse that started at `pos` ended in range and moved on.
pub open spec fn moved(toks: Seq<TokenModel>, pos: int, p: int) -> bool {
    pos < p < toks.len()
}

/// `expression := assignment`
pub open spec fn parse_expression(toks: Seq<TokenModel>, pos: int) -> Parsed<ExprModel>
    decreases toks.len() - pos, 30int,
{
    parse_assignment(toks, pos)
}

/// `assignment := logic_or ( "=" assignment )?`, where the left side must be
/// a variable; the node has the line of `=`.
pub open spec fn parse_assignment(toks: Seq<TokenModel>, pos: int) -> Parsed<ExprModel>
    decreases toks.len() - pos, 29int,
{
    match parse_level(toks, pos, 0) {
        Err(e) => Err(e),
        Ok((left, p)) => {
            if at_kind(toks, p, TokenType::Equal) && pos <= p {
                match parse_assignment(toks, p + 1) {
                    Err(e) => Err(e),
                    Ok((rhs, q)) => match left {
                        ExprModel::Variable(_, name) => Ok(
                            (ExprModel::Assign(toks[p].line, name, Box::new(rhs)), q),
                        ),
                        _ => Err(error_at(toks, p, "Invalid assignment target"@)),
                    },
                }
            } else {
                Ok((left, p))
            }
        },
    }
}

/// One binary precedence level: the next level, then any number of
/// `op next-level` pairs, grouped to the left.
pub open spec fn parse_level(toks: Seq<TokenModel>, pos: int, level: int) -> Parsed<ExprModel>
    decreases toks.len() - pos, 20 - 2 * level,
{
    if level < 0 || level > 5 {
        Err(error_at(toks, pos, "Unexpected token"@))
    } else {
        match parse_operand(toks, pos, level) {
            Err(e) => Err(e),
            Ok((left, p)) => if pos <= p < toks.len() {
                parse_level_rest(toks, p, level, left)
            } else {
                Ok((left, p))
            },
        }
    }
}

/// The operand of level `level`: the next level up, or a unary expression.
pub open spec fn parse_operand(toks: Seq<TokenModel>, pos: int, level: int) -> Parsed<ExprModel>
    decreases toks.len() - pos, 19 - 2 * level,
{
    if 0 <= level < 5 {
        parse_level(toks, pos, level + 1)
    } else if level == 5 {
        parse_unary(toks, pos)
    } else {
        Err(error_at(toks, pos, "Unexpected token"@))
    }
}

/// The `op next-level` pairs of level `level` that follow `left` at `pos`.
pub open spec fn parse_level_rest(toks: Seq<TokenModel>, pos: int, level: int, left: ExprModel) -> Parsed<
    ExprModel,
>
    decreases toks.len() - pos, 19 - 2 * level,
{
    if 0 <= pos < toks.len() && 0 <= level <= 5 && level_op(level, toks[pos].kind) is Some {
        let op = level_op(level, toks[pos].kind)->0;
        match parse_operand(toks, pos + 1, level) {
            Err(e) => Err(e),
            Ok((right, p)) => if moved(toks, pos, p) {
                parse_level_rest(toks, p, level, level_node(toks[pos].line, left, op, right))
            } else {
                Ok((left, p))
            },
        }
    } else {
        Ok((left, pos))
    }
}

/// `unary := ("!" | "-") unary | primary`; the node has the operator's line.
pub open spec fn parse_unary(toks: Seq<TokenModel>, pos: int) -> Parsed<ExprModel>
    decreases toks.len() - pos, 8int,
{
    let op = if at_kind(toks, pos, TokenType::Bang) {
        Some(UnaryOperator::Not)
    } else if at_kind(toks, pos, TokenType::Minus) {
        Some(UnaryOperator::Negative)
    } else {
        None
    };
    match op {
        Some(o) => match parse_unary(toks, pos + 1) {
            Err(e) => Err(e),
            Ok((inner, p)) => Ok((ExprModel::Unary(toks[pos].line, o, Box::new(inner)), p)),
        },
        None => parse_primary(toks, pos),
    }
}

/// `primary := NUMBER | STRING | "true" | "false" | "nil" | IDENTIFIER | "(" expression ")"`
pub open spec fn parse_primary(toks: Seq<TokenModel>, pos: int) -> Parsed<ExprModel>
    decreases toks.len() - pos, 7int,
{
    if !(0 <= pos < toks.len()) {
        Err(error_at(toks, pos, "Not expecting end of file"@))
    } else {
        let t = toks[pos];
        if t.kind == TokenType::Eof {
            Err(error_at(toks, pos, "Not expecting end of file"@))
        } else if t.kind == TokenType::Identifier {
            Ok((ExprModel::Variable(t.line, t.lexeme), pos + 1))
        } else if t.kind == TokenType::Number {
            Ok((ExprModel::Literal(t.line, LitModel::Number(t.lexeme)), pos + 1))
        } else if t.kind == TokenType::StringLiteral {
            Ok(
                (
                    ExprModel::Literal(
                        t.line,
                        LitModel::Str(t.lexeme.subrange(1, t.lexeme.len() - 1)),
                    ),
                    pos + 1,
                ),
            )
        } else if t.kind == TokenType::True {
            Ok((ExprModel::Literal(t.line, LitModel::True), pos + 1))
        } else if t.kind == TokenType::False {
            Ok((ExprModel::Literal(t.line, LitModel::False), pos + 1))
        } else if t.kind == TokenType::Nil {
            Ok((ExprModel::Literal(t.line, LitModel::Nil), pos + 1))
        } else if t.kind == TokenType::LeftParen {
            match parse_expression(toks, pos + 1) {
                Err(e) => Err(e),
                Ok((inner, p)) => match expect(toks, p, TokenType::RightParen, "Expecting `)`"@) {
                    Err(e) => Err(e),
                    Ok(q) => Ok((ExprModel::Grouping(t.line, Box::new(inner)), q)),
                },
            }
        } else {
            Err(error_at(toks, pos, "Unexpected token"@))
        }
    }
}


/// `declaration := "var" IDENTIFIER ("=" expression)? ";" | statement`
pub open spec fn parse_declaration(toks: Seq<TokenModel>, pos: int) -> Parsed<StmtModel>
    decreases toks.len() - pos, 41int,
{
    if at_kind(toks, pos, TokenType::Var) {
        match expect(toks, pos + 1, TokenType::Identifier, "Expecting var name"@) {
            Err(e) => Err(e),
            Ok(p) => {
                let name = toks[pos + 1].lexeme;
                if at_kind(toks, p, TokenType::Equal) {
                    match parse_expression(toks, p + 1) {
                        Err(e) => Err(e),
                        Ok((init, q)) => match expect(toks, q, TokenType::Semicolon, "Expecting `;`"@) {
                            Err(e) => Err(e),
                            Ok(r) => Ok((StmtModel::Var(name, Some(init)), r)),
                        },
                    }
                } else {
                    match expect(toks, p, TokenType::Semicolon, "Expecting `;`"@) {
                        Err(e) => Err(e),
                        Ok(r) => Ok((StmtModel::Var(name, None), r)),
                    }
                }
            },
        }
    } else {
        parse_statement(toks, pos)
    }
}

/// `statement := "print" expression ";" | "{" declaration* "}"
///             | "if" "(" expression ")" statement ("else" statement)? | expression ";"`
pub open spec fn parse_statement(toks: Seq<TokenModel>, pos: int) -> Parsed<StmtModel>
    decreases toks.len() - pos, 40int,
{
    if at_kind(toks, pos, TokenType::Print) {
        match parse_expression(toks, pos + 1) {
            Err(e) => Err(e),
            Ok((e, p)) => match expect(toks, p, TokenType::Semicolon, "Expecting `;`"@) {
                Err(err) => Err(err),
                Ok(q) => Ok((StmtModel::Print(e), q)),
            },
        }
    } else if at_kind(toks, pos, TokenType::LeftBrace) {
        match parse_block(toks, pos + 1) {
            Err(e) => Err(e),
            Ok((body, p)) => Ok((StmtModel::Block(body), p)),
        }
    } else if at_kind(toks, pos, TokenType::If) {
        match expect(toks, pos + 1, TokenType::LeftParen, "Expecting '('"@) {
            Err(e) => Err(e),
            Ok(p) => match parse_expression(toks, p) {
                Err(e) => Err(e),
                Ok((cond, q)) => match expect(toks, q, TokenType::RightParen, "Expecting ')'"@) {
                    Err(e) => Err(e),
                    Ok(r) => if pos < r {
                        match parse_statement(toks, r) {
                            Err(e) => Err(e),
                            Ok((then_branch, t)) => if at_kind(toks, t, TokenType::Else) && pos
                                < t {
                                match parse_statement(toks, t + 1) {
                                    Err(e) => Err(e),
                                    Ok((else_branch, u)) => Ok(
                                        (
                                            StmtModel::If(
                                                cond,
                                                Box::new(then_branch),
                                                Some(Box::new(else_branch)),
                                            ),
                                            u,
                                        ),
                                    ),
                                }
                            } else {
                                Ok((StmtModel::If(cond, Box::new(then_branch), None), t))
                            },
                        }
                    } else {
                        Err(error_at(toks, pos, "Unexpected token"@))
                    },
                },
            },
        }
    } else {
        match parse_expression(toks, pos) {
            Err(e) => Err(e),
            Ok((e, p)) => match expect(toks, p, TokenType::Semicolon, "Expecting `;`"@) {
                Err(err) => Err(err),
                Ok(q) => Ok((StmtModel::Expr(e), q)),
            },
        }
    }
}

/// The declarations of a block up to and including its `}`.
pub open spec fn parse_block(toks: Seq<TokenModel>, pos: int) -> Parsed<Seq<StmtModel>>
    decreases toks.len() - pos, 42int,
{
    if at_kind(toks, pos, TokenType::RightBrace) {
        Ok((Seq::empty(), pos + 1))
    } else {
        match parse_declaration(toks, pos) {
            Err(e) => Err(e),
            Ok((first, p)) => if moved(toks, pos, p) {
                match parse_block(toks, p) {
                    Err(e) => Err(e),
                    Ok((rest, q)) => Ok((seq![first] + rest, q)),
                }
            } else {
                Err(error_at(toks, pos, "Unexpected token"@))
            },
        }
    }
}

/// `program := declaration* EOF`, from `pos` on.
pub open spec fn parse_declarations(toks: Seq<TokenModel>, pos: int) -> Result<
    Seq<StmtModel>,
    ParseErrorModel,
>
    decreases toks.len() - pos,
{
    if !(0 <= pos < toks.len()) || toks[pos].kind == TokenType::Eof {
        Ok(Seq::empty())
    } else {
        match parse_declaration(toks, pos) {
            Err(e) => Err(e),
            Ok((first, p)) => if moved(toks, pos, p) {
                match parse_declarations(toks, p) {
                    Err(e) => Err(e),
                    Ok(rest) => Ok(seq![first] + rest),
                }
            } else {
                Err(error_at(toks, pos, "Unexpected token"@))
            },
        }
    }
}

/// Whether `toks` is a token sequence that the parser accepts as input: it
/// is not empty, and its last token is the end of input.
pub open spec fn ends_with_eof(toks: Seq<TokenModel>) -> bool {
    &&& toks.len() > 0
    &&& toks.last().kind == TokenType::Eof
}


/// A parse error: the offending token's line, whether it is the end of
/// input, its text, and what was expected.
#[derive(Clone, Debug)]
pub struct ParseError {
    pub line: usize,
    pub at_end: bool,
    pub lexeme: String,
    pub message: String,
}

impl View for ParseError {
    type V = ParseErrorModel;

    open spec fn view(&self) -> ParseErrorModel {
        ParseErrorModel {
            line: self.line as nat,
            at_end: self.at_end,
            lexeme: self.lexeme@,
            message: self.message@,
        }
    }
}

/// Whether the outcome `r` of parsing an expression is `m`.
pub open spec fn expr_outcome(r: Result<(Expr, usize), ParseError>, m: Parsed<ExprModel>) -> bool {
    match r {
        Ok((e, p)) => m == Ok::<(ExprModel, int), ParseErrorModel>((expr_model(&e), p as int)),
        Err(err) => m == Err::<(ExprModel, int), ParseErrorModel>(err@),
    }
}

/// Whether the outcome `r` of parsing a statement is `m`.
pub open spec fn stmt_outcome(r: Result<(Stmt, usize), ParseError>, m: Parsed<StmtModel>) -> bool {
    match r {
        Ok((st, p)) => m == Ok::<(StmtModel, int), ParseErrorModel>((stmt_model(&st), p as int)),
        Err(err) => m == Err::<(StmtModel, int), ParseErrorModel>(err@),
    }
}

/// Whether a successful outcome ended past `pos` and before the end of input.
pub open spec fn advanced<T>(r: Result<(T, usize), ParseError>, pos: int, len: int) -> bool {
    match r {
        Ok((_, p)) => pos < p < len,
        Err(_) => true,
    }
}

fn copy_token(t: &Token) -> (r: Token)
    ensures
        r@ == t@,
{
    Token { token_type: t.token_type, lexeme: t.lexeme.clone(), line: t.line }
}

fn level_op_of(level: usize, k: TokenType) -> (r: Option<LevelOp>)
    ensures
        r == level_op(level as int, k),
{
    if level == 0 && k == TokenType::Or {
        Some(LevelOp::Logic(LogicalOperator::Or))
    } else if level == 1 && k == TokenType::And {
        Some(LevelOp::Logic(LogicalOperator::And))
    } else if level == 2 && k == TokenType::BangEqual {
        Some(LevelOp::Arith(BinaryOperator::NotEqual))
    } else if level == 2 && k == TokenType::EqualEqual {
        Some(LevelOp::Arith(BinaryOperator::Equal))
    } else if level == 3 && k == TokenType::Greater {
        Some(LevelOp::Arith(BinaryOperator::Greater))
    } else if level == 3 && k == TokenType::GreaterEqual {
        Some(LevelOp::Arith(BinaryOperator::GreaterEqual))
    } else if level == 3 && k == TokenType::Less {
        Some(LevelOp::Arith(BinaryOperator::Less))
    } else if level == 3 && k == TokenType::LessEqual {
        Some(LevelOp::Arith(BinaryOperator::LessEqual))
    } else if level == 4 && k == TokenType::Minus {
        Some(LevelOp::Arith(BinaryOperator::Sub))
    } else if level == 4 && k == TokenType::Plus {
        Some(LevelOp::Arith(BinaryOperator::Add))
    } else if level == 5 && k == TokenType::Slash {
        Some(LevelOp::Arith(BinaryOperator::Div))
    } else if level == 5 && k == TokenType::Star {
        Some(LevelOp::Arith(BinaryOperator::Mul))
    } else {
        None
    }
}

struct Parser {
    tokens: Vec<Token>,
}

impl Parser {
    spec fn toks(&self) -> Seq<TokenModel> {
        tokens_view(self.tokens@)
    }

    spec fn wf(&self) -> bool {
        &&& ends_with_eof(self.toks())
        &&& strings_closed(self.toks())
        &&& self.tokens@.len() < usize::MAX
    }

    fn new(tokens: &Vec<Token>) -> (r: Parser)
        requires
            tokens@.len() < usize::MAX,
        ensures
            r.toks() == tokens_view(tokens@),
    {
        let mut v: Vec<Token> = Vec::new();
        let mut i: usize = 0;
        while i < tokens.len()
            invariant
                i <= tokens@.len(),
                v@.len() == i,
                forall|j: int| 0 <= j < i ==> (#[trigger] v@[j])@ == tokens@[j]@,
            decreases tokens@.len() - i,
        {
            v.push(copy_token(&tokens[i]));
            i += 1;
        }
        proof {
            assert(tokens_view(v@) =~= tokens_view(tokens@));
        }
        Parser { tokens: v }
    }

    /// Whether token `pos` is of kind `k`.
    fn check(&self, pos: usize, k: TokenType) -> (r: bool)
        ensures
            r == at_kind(self.toks(), pos as int, k),
    {
        pos < self.tokens.len() && self.tokens[pos].token_type == k
    }

    fn line(&self, pos: usize) -> (r: usize)
        requires
            pos < self.tokens@.len(),
        ensures
            r == self.toks()[pos as int].line,
    {
        self.tokens[pos].line
    }

    /// The error `message` at token `pos`.
    fn error(&self, pos: usize, message: &str) -> (r: ParseError)
        requires
            pos < self.tokens@.len(),
        ensures
            r@ == error_at(self.toks(), pos as int, message@),
    {
        let t = &self.tokens[pos];
        ParseError {
            line: t.line,
            at_end: t.token_type == TokenType::Eof,
            lexeme: t.lexeme.clone(),
            message: String::from_str(message),
        }
    }

    /// Consumes a token of kind `k` at `pos`, or reports `message` there.
    fn consume(&self, pos: usize, k: TokenType, message: &str) -> (r: Result<usize, ParseError>)
        requires
            self.wf(),
            pos < self.tokens@.len(),
            k != TokenType::Eof,
        ensures
            match r {
                Ok(p) => expect(self.toks(), pos as int, k, message@) == Ok::<
                    int,
                    ParseErrorModel,
                >(p as int) && p < self.tokens@.len(),
                Err(e) => expect(self.toks(), pos as int, k, message@) == Err::<
                    int,
                    ParseErrorModel,
                >(e@),
            },
    {
        if self.check(pos, k) {
            Ok(pos + 1)
        } else {
            Err(self.error(pos, message))
        }
    }
}


impl Parser {
    fn expression(&self, pos: usize) -> (r: Result<(Expr, usize), ParseError>)
        requires
            self.wf(),
            pos < self.tokens@.len(),
        ensures
            expr_outcome(r, parse_expression(self.toks(), pos as int)),
            advanced(r, pos as int, self.tokens@.len() as int),
        decreases self.tokens@.len() - pos, 30int,
    {
        self.assignment(pos)
    }

    fn assignment(&self, pos: usize) -> (r: Result<(Expr, usize), ParseError>)
        requires
            self.wf(),
            pos < self.tokens@.len(),
        ensures
            expr_outcome(r, parse_assignment(self.toks(), pos as int)),
            advanced(r, pos as int, self.tokens@.len() as int),
        decreases self.tokens@.len() - pos, 29int,
    {
        let (left, p) = match self.level(pos, 0) {
            Ok(x) => x,
            Err(e) => return Err(e),
        };
        if self.check(p, TokenType::Equal) {
            let (rhs, q) = match self.assignment(p + 1) {
                Ok(x) => x,
                Err(e) => return Err(e),
            };
            match left {
                Expr::Variable(_, Variable(name)) => Ok(
                    (Expr::Assign(self.line(p), Assign { name, rhs: Box::new(rhs) }), q),
                ),
                _ => Err(self.error(p, "Invalid assignment target")),
            }
        } else {
            Ok((left, p))
        }
    }

    fn level(&self, pos: usize, level: usize) -> (r: Result<(Expr, usize), ParseError>)
        requires
            self.wf(),
            pos < self.tokens@.len(),
            level <= 5,
        ensures
            expr_outcome(r, parse_level(self.toks(), pos as int, level as int)),
            advanced(r, pos as int, self.tokens@.len() as int),
        decreases self.tokens@.len() - pos, 20 - 2 * level,
    {
        let ghost toks = self.toks();
        let (mut left, mut p) = match self.operand(pos, level) {
            Ok(x) => x,
            Err(e) => return Err(e),
        };
        loop
            invariant
                self.wf(),
                toks == self.toks(),
                level <= 5,
                pos < p < self.tokens@.len(),
                parse_level_rest(toks, p as int, level as int, expr_model(&left)) == parse_level(
                    toks,
                    pos as int,
                    level as int,
                ),
            decreases self.tokens@.len() - p,
        {
            let op = match level_op_of(level, self.tokens[p].token_type) {
                Some(op) => op,
                None => return Ok((left, p)),
            };
            let line = self.line(p);
            let (right, q) = match self.operand(p + 1, level) {
                Ok(x) => x,
                Err(e) => return Err(e),
            };
            left = match op {
                LevelOp::Logic(o) => Expr::Logical(
                    line,
                    Logical { left: Box::new(left), op: o, right: Box::new(right) },
                ),
                LevelOp::Arith(o) => Expr::Binary(
                    line,
                    Binary { left: Box::new(left), op: o, right: Box::new(right) },
                ),
            };
            p = q;
        }
    }

    fn operand(&self, pos: usize, level: usize) -> (r: Result<(Expr, usize), ParseError>)
        requires
            self.wf(),
            pos < self.tokens@.len(),
            level <= 5,
        ensures
            expr_outcome(r, parse_operand(self.toks(), pos as int, level as int)),
            advanced(r, pos as int, self.tokens@.len() as int),
        decreases self.tokens@.len() - pos, 19 - 2 * level,
    {
        if level < 5 {
            self.level(pos, level + 1)
        } else {
            self.unary(pos)
        }
    }

    fn unary(&self, pos: usize) -> (r: Result<(Expr, usize), ParseError>)
        requires
            self.wf(),
            pos < self.tokens@.len(),
        ensures
            expr_outcome(r, parse_unary(self.toks(), pos as int)),
            advanced(r, pos as int, self.tokens@.len() as int),
        decreases self.tokens@.len() - pos, 8int,
    {
        let op = if self.check(pos, TokenType::Bang) {
            Some(UnaryOperator::Not)
        } else if self.check(pos, TokenType::Minus) {
            Some(UnaryOperator::Negative)
        } else {
            None
        };
        match op {
            Some(op) => {
                let line = self.line(pos);
                let (inner, p) = match self.unary(pos + 1) {
                    Ok(x) => x,
                    Err(e) => return Err(e),
                };
                Ok((Expr::Unary(line, Unary { op, expr: Box::new(inner) }), p))
            },
            None => self.primary(pos),
        }
    }

    fn primary(&self, pos: usize) -> (r: Result<(Expr, usize), ParseError>)
        requires
            self.wf(),
            pos < self.tokens@.len(),
        ensures
            expr_outcome(r, parse_primary(self.toks(), pos as int)),
            advanced(r, pos as int, self.tokens@.len() as int),
        decreases self.tokens@.len() - pos, 7int,
    {
        let t = &self.tokens[pos];
        let line = t.line;
        match t.token_type {
            TokenType::Eof => Err(self.error(pos, "Not expecting end of file")),
            TokenType::Identifier => Ok(
                (Expr::Variable(line, Variable(t.lexeme.clone())), pos + 1),
            ),
            TokenType::Number => Ok(
                (Expr::Literal(line, Literal::Number(t.lexeme.clone())), pos + 1),
            ),
            TokenType::StringLiteral => {
                let chars = crate::text::chars_of(t.lexeme.as_str());
                let inner = crate::text::string_of_range(&chars, 1, chars.len() - 1);
                Ok((Expr::Literal(line, Literal::String(inner)), pos + 1))
            },
            TokenType::True => Ok((Expr::Literal(line, Literal::True), pos + 1)),
            TokenType::False => Ok((Expr::Literal(line, Literal::False), pos + 1)),
            TokenType::Nil => Ok((Expr::Literal(line, Literal::Nil), pos + 1)),
            TokenType::LeftParen => {
                let (inner, p) = match self.expression(pos + 1) {
                    Ok(x) => x,
                    Err(e) => return Err(e),
                };
                match self.consume(p, TokenType::RightParen, "Expecting `)`") {
                    Ok(q) => Ok((Expr::Grouping(line, Grouping(Box::new(inner))), q)),
                    Err(e) => Err(e),
                }
            },
            _ => Err(self.error(pos, "Unexpected token")),
        }
    }
}


proof fn lemma_stmts_model_prefix(v1: &Vec<Stmt>, v2: &Vec<Stmt>, n: int)
    requires
        0 <= n <= v1@.len(),
        n <= v2@.len(),
        forall|j: int| 0 <= j < n ==> v1@[j] == v2@[j],
    ensures
        stmts_model(v1, n) == stmts_model(v2, n),
    decreases n,
{
    if n > 0 {
        lemma_stmts_model_prefix(v1, v2, n - 1);
    }
}

/// Appends `st` to `v`; the model grows by the model of `st`.
fn push_stmt(v: &mut Vec<Stmt>, st: Stmt)
    ensures
        final(v)@.len() == old(v)@.len() + 1,
        stmts_model(final(v), final(v)@.len() as int) == stmts_model(old(v), old(v)@.len() as int).push(
            stmt_model(&st),
        ),
{
    let ghost before = *v;
    v.push(st);
    proof {
        lemma_stmts_model_prefix(&before, v, before@.len() as int);
    }
}

/// Whether the outcome `r` of parsing a sequence of statements is `m`.
pub open spec fn stmts_outcome(
    r: Result<(Vec<Stmt>, usize), ParseError>,
    m: Parsed<Seq<StmtModel>>,
) -> bool {
    match r {
        Ok((v, p)) => m == Ok::<(Seq<StmtModel>, int), ParseErrorModel>(
            (stmts_model(&v, v@.len() as int), p as int),
        ),
        Err(err) => m == Err::<(Seq<StmtModel>, int), ParseErrorModel>(err@),
    }
}

impl Parser {
    fn declaration(&self, pos: usize) -> (r: Result<(Stmt, usize), ParseError>)
        requires
            self.wf(),
            pos < self.tokens@.len(),
        ensures
            stmt_outcome(r, parse_declaration(self.toks(), pos as int)),
            advanced(r, pos as int, self.tokens@.len() as int),
        decreases self.tokens@.len() - pos, 41int,
    {
        if self.check(pos, TokenType::Var) {
            let p = match self.consume(pos + 1, TokenType::Identifier, "Expecting var name") {
                Ok(p) => p,
                Err(e) => return Err(e),
            };
            let name = self.tokens[pos + 1].lexeme.clone();
            if self.check(p, TokenType::Equal) {
                let (init, q) = match self.expression(p + 1) {
                    Ok(x) => x,
                    Err(e) => return Err(e),
                };
                match self.consume(q, TokenType::Semicolon, "Expecting `;`") {
                    Ok(r) => Ok((Stmt::Var { name, initializer: Some(init) }, r)),
                    Err(e) => Err(e),
                }
            } else {
                match self.consume(p, TokenType::Semicolon, "Expecting `;`") {
                    Ok(r) => Ok((Stmt::Var { name, initializer: None }, r)),
                    Err(e) => Err(e),
                }
            }
        } else {
            self.stmt(pos)
        }
    }

    fn stmt(&self, pos: usize) -> (r: Result<(Stmt, usize), ParseError>)
        requires
            self.wf(),
            pos < self.tokens@.len(),
        ensures
            stmt_outcome(r, parse_statement(self.toks(), pos as int)),
            advanced(r, pos as int, self.tokens@.len() as int),
        decreases self.tokens@.len() - pos, 40int,
    {
        if self.check(pos, TokenType::Print) {
            let (e, p) = match self.expression(pos + 1) {
                Ok(x) => x,
                Err(e) => return Err(e),
            };
            match self.consume(p, TokenType::Semicolon, "Expecting `;`") {
                Ok(q) => Ok((Stmt::Print(e), q)),
                Err(err) => Err(err),
            }
        } else if self.check(pos, TokenType::LeftBrace) {
            match self.block(pos + 1) {
                Ok((body, p)) => Ok((Stmt::Block(body), p)),
                Err(e) => Err(e),
            }
        } else if self.check(pos, TokenType::If) {
            let p = match self.consume(pos + 1, TokenType::LeftParen, "Expecting '('") {
                Ok(p) => p,
                Err(e) => return Err(e),
            };
            let (condition, q) = match self.expression(p) {
                Ok(x) => x,
                Err(e) => return Err(e),
            };
            let r = match self.consume(q, TokenType::RightParen, "Expecting ')'") {
                Ok(r) => r,
                Err(e) => return Err(e),
            };
            let (then_branch, t) = match self.stmt(r) {
                Ok(x) => x,
                Err(e) => return Err(e),
            };
            if self.check(t, TokenType::Else) {
                let (else_branch, u) = match self.stmt(t + 1) {
                    Ok(x) => x,
                    Err(e) => return Err(e),
                };
                Ok(
                    (
                        Stmt::IfStmt {
                            condition,
                            then_branch: Box::new(then_branch),
                            else_branch: Some(Box::new(else_branch)),
                        },
                        u,
                    ),
                )
            } else {
                Ok(
                    (
                        Stmt::IfStmt {
                            condition,
                            then_branch: Box::new(then_branch),
                            else_branch: None,
                        },
                        t,
                    ),
                )
            }
        } else {
            let (e, p) = match self.expression(pos) {
                Ok(x) => x,
                Err(e) => return Err(e),
            };
            match self.consume(p, TokenType::Semicolon, "Expecting `;`") {
                Ok(q) => Ok((Stmt::Expr(e), q)),
                Err(err) => Err(err),
            }
        }
    }

    /// The declarations of a block, up to and including its `}`.
    fn block(&self, pos: usize) -> (r: Result<(Vec<Stmt>, usize), ParseError>)
        requires
            self.wf(),
            pos < self.tokens@.len(),
        ensures
            stmts_outcome(r, parse_block(self.toks(), pos as int)),
            advanced(r, pos as int - 1, self.tokens@.len() as int),
        decreases self.tokens@.len() - pos, 42int,
    {
        let ghost toks = self.toks();
        let mut stmts: Vec<Stmt> = Vec::new();
        let mut p = pos;
        while !self.check(p, TokenType::RightBrace)
            invariant
                self.wf(),
                toks == self.toks(),
                pos <= p < self.tokens@.len(),
                parse_block(toks, pos as int) == match parse_block(toks, p as int) {
                    Ok((rest, q)) => Ok((stmts_model(&stmts, stmts@.len() as int) + rest, q)),
                    Err(e) => Err(e),
                },
            decreases self.tokens@.len() - p,
        {
            let (st, q) = match self.declaration(p) {
                Ok(x) => x,
                Err(e) => return Err(e),
            };
            let ghost before = stmts_model(&stmts, stmts@.len() as int);
            let ghost first = stmt_model(&st);
            push_stmt(&mut stmts, st);
            proof {
                match parse_block(toks, q as int) {
                    Ok((rest, q2)) => {
                        assert(before + (seq![first] + rest) =~= before.push(first) + rest);
                    },
                    Err(_) => {},
                }
            }
            p = q;
        }
        proof {
            assert(stmts_model(&stmts, stmts@.len() as int) + Seq::<StmtModel>::empty() =~= stmts_model(
                &stmts,
                stmts@.len() as int,
            ));
        }
        Ok((stmts, p + 1))
    }

    fn program(&self) -> (r: Result<Program, ParseError>)
        requires
            self.wf(),
        ensures
            match r {
                Ok(prog) => parse_declarations(self.toks(), 0) == Ok::<
                    Seq<StmtModel>,
                    ParseErrorModel,
                >(stmts_model(&prog.stmts, prog.stmts@.len() as int)),
                Err(e) => parse_declarations(self.toks(), 0) == Err::<
                    Seq<StmtModel>,
                    ParseErrorModel,
                >(e@),
            },
    {
        let ghost toks = self.toks();
        let mut stmts: Vec<Stmt> = Vec::new();
        let mut p: usize = 0;
        while !self.check(p, TokenType::Eof)
            invariant
                self.wf(),
                toks == self.toks(),
                p < self.tokens@.len(),
                parse_declarations(toks, 0) == match parse_declarations(toks, p as int) {
                    Ok(rest) => Ok(stmts_model(&stmts, stmts@.len() as int) + rest),
                    Err(e) => Err(e),
                },
            decreases self.tokens@.len() - p,
        {
            let (st, q) = match self.declaration(p) {
                Ok(x) => x,
                Err(e) => return Err(e),
            };
            let ghost before = stmts_model(&stmts, stmts@.len() as int);
            let ghost first = stmt_model(&st);
            push_stmt(&mut stmts, st);
            proof {
                match parse_declarations(toks, q as int) {
                    Ok(rest) => {
                        assert(before + (seq![first] + rest) =~= before.push(first) + rest);
                    },
                    Err(_) => {},
                }
            }
            p = q;
        }
        proof {
            assert(stmts_model(&stmts, stmts@.len() as int) + Seq::<StmtModel>::empty() =~= stmts_model(
                &stmts,
                stmts@.len() as int,
            ));
        }
        Ok(Program { stmts })
    }
}

/// Parses one expression from the start of `tokens`.
pub fn parse_expr(tokens: &Vec<Token>) -> (r: Result<Expr, ParseError>)
    requires
        ends_with_eof(tokens_view(tokens@)),
        strings_closed(tokens_view(tokens@)),
        tokens@.len() < usize::MAX,
    ensures
        match parse_expression(tokens_view(tokens@), 0) {
            Ok((e, _)) => r is Ok && expr_model(&r->Ok_0) == e,
            Err(e) => r is Err && r->Err_0@ == e,
        },
{
    let parser = Parser::new(tokens);
    match parser.expression(0) {
        Ok((e, _)) => Ok(e),
        Err(e) => Err(e),
    }
}

/// Parses a whole program: declarations up to the end of input.
pub fn parse_program(tokens: &Vec<Token>) -> (r: Result<Program, ParseError>)
    requires
        ends_with_eof(tokens_view(tokens@)),
        strings_closed(tokens_view(tokens@)),
        tokens@.len() < usize::MAX,
    ensures
        match parse_declarations(tokens_view(tokens@), 0) {
            Ok(stmts) => r is Ok && stmts_model(&r->Ok_0.stmts, r->Ok_0.stmts@.len() as int)
                == stmts,
            Err(e) => r is Err && r->Err_0@ == e,
        },
{
    let parser = Parser::new(tokens);
    parser.program()
}

} // verus!
