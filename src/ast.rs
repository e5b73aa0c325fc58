//! The syntax tree and its mathematical model.
use vstd::prelude::*;
use crate::text::{chars_of, push_all, string_of};
use crate::tokenizer::{canonical_decimal, canonical_number};

verus! {

/// An expression; the first field of each variant is the line that
/// errors about the node report.
pub enum Expr {
    Literal(usize, Literal),
    Variable(usize, Variable),
    Unary(usize, Unary),
    Binary(usize, Binary),
    Logical(usize, Logical),
    Grouping(usize, Grouping),
    Assign(usize, Assign),
}

/// A literal; a number keeps the text it was written with.
pub enum Literal {
    Number(String),
    String(String),
    True,
    False,
    Nil,
}

/// A reference to a variable by name.
pub struct Variable(pub String);

/// A unary operator applied to an operand.
pub struct Unary {
    pub op: UnaryOperator,
    pub expr: Box<Expr>,
}

/// Negation of a number, or logical not.
#[derive(PartialEq, Eq, Structural, Copy, Clone, Debug)]
pub enum UnaryOperator {
    Negative,
    Not,
}

/// An arithmetic, comparison or equality operator applied to two operands.
pub struct Binary {
    pub left: Box<Expr>,
    pub op: BinaryOperator,
    pub right: Box<Expr>,
}

#[derive(PartialEq, Eq, Structural, Copy, Clone, Debug)]
pub enum BinaryOperator {
    Equal,
    NotEqual,
    Less,
    LessEqual,
    Greater,
    GreaterEqual,
    Add,
    Sub,
    Mul,
    Div,
}

/// `and` or `or`, which evaluate their right operand only when needed.
pub struct Logical {
    pub left: Box<Expr>,
    pub op: LogicalOperator,
    pub right: Box<Expr>,
}

#[derive(PartialEq, Eq, Structural, Copy, Clone, Debug)]
pub enum LogicalOperator {
    And,
    Or,
}

/// A parenthesized expression.
pub struct Grouping(pub Box<Expr>);

/// An assignment to an existing variable.
pub struct Assign {
    pub name: String,
    pub rhs: Box<Expr>,
}

/// A statement.
pub enum Stmt {
    Expr(Expr),
    IfStmt { condition: Expr, then_branch: Box<Stmt>, else_branch: Option<Box<Stmt>> },
    Print(Expr),
    Var { name: String, initializer: Option<Expr> },
    Block(Vec<Stmt>),
}

/// A whole program: its top-level statements in order.
pub struct Program {
    pub stmts: Vec<Stmt>,
}

/// A literal as a value.
pub enum LitModel {
    Number(Seq<char>),
    Str(Seq<char>),
    True,
    False,
    Nil,
}

/// An expression as a value; the first field of each node is its line.
pub enum ExprModel {
    Literal(nat, LitModel),
    Variable(nat, Seq<char>),
    Unary(nat, UnaryOperator, Box<ExprModel>),
    Binary(nat, Box<ExprModel>, BinaryOperator, Box<ExprModel>),
    Logical(nat, Box<ExprModel>, LogicalOperator, Box<ExprModel>),
    Grouping(nat, Box<ExprModel>),
    Assign(nat, Seq<char>, Box<ExprModel>),
}

/// A statement as a value.
pub enum StmtModel {
    Expr(ExprModel),
    If(ExprModel, Box<StmtModel>, Option<Box<StmtModel>>),
    Print(ExprModel),
    Var(Seq<char>, Option<ExprModel>),
    Block(Seq<StmtModel>),
}

pub open spec fn lit_model(l: &Literal) -> LitModel {
    match l {
        Literal::Number(s) => LitModel::Number(s@),
        Literal::String(s) => LitModel::Str(s@),
        Literal::True => LitModel::True,
        Literal::False => LitModel::False,
        Literal::Nil => LitModel::Nil,
    }
}

pub open spec fn expr_model(e: &Expr) -> ExprModel
    decreases e,
{
    match e {
        Expr::Literal(line, l) => ExprModel::Literal(*line as nat, lit_model(l)),
        Expr::Variable(line, v) => ExprModel::Variable(*line as nat, v.0@),
        Expr::Unary(line, u) => ExprModel::Unary(*line as nat, u.op, Box::new(expr_model(&*u.expr))),
        Expr::Binary(line, b) => ExprModel::Binary(
            *line as nat,
            Box::new(expr_model(&*b.left)),
            b.op,
            Box::new(expr_model(&*b.right)),
        ),
        Expr::Logical(line, b) => ExprModel::Logical(
            *line as nat,
            Box::new(expr_model(&*b.left)),
            b.op,
            Box::new(expr_model(&*b.right)),
        ),
        Expr::Grouping(line, g) => ExprModel::Grouping(*line as nat, Box::new(expr_model(&*g.0))),
        Expr::Assign(line, a) => ExprModel::Assign(
            *line as nat,
            a.name@,
            Box::new(expr_model(&*a.rhs)),
        ),
    }
}

pub open spec fn stmt_model(s: &Stmt) -> StmtModel
    decreases s,
{
    match s {
        Stmt::Expr(e) => StmtModel::Expr(expr_model(e)),
        Stmt::IfStmt { condition, then_branch, else_branch } => StmtModel::If(
            expr_model(condition),
            Box::new(stmt_model(&**then_branch)),
            match else_branch {
                Some(b) => Some(Box::new(stmt_model(&**b))),
                None => None,
            },
        ),
        Stmt::Print(e) => StmtModel::Print(expr_model(e)),
        Stmt::Var { name, initializer } => StmtModel::Var(
            name@,
            match initializer {
                Some(e) => Some(expr_model(e)),
                None => None,
            },
        ),
        Stmt::Block(v) => StmtModel::Block(stmts_model(v, v@.len() as int)),
    }
}

/// The models of the first `n` statements of `v`.
pub open spec fn stmts_model(v: &Vec<Stmt>, n: int) -> Seq<StmtModel>
    decreases v, n,
{
    if n <= 0 || n > v@.len() {
        Seq::empty()
    } else {
        stmts_model(v, n - 1).push(stmt_model(&v[n - 1]))
    }
}


pub open spec fn unary_symbol(op: UnaryOperator) -> Seq<char> {
    match op {
        UnaryOperator::Negative => "-"@,
        UnaryOperator::Not => "!"@,
    }
}

pub open spec fn binary_symbol(op: BinaryOperator) -> Seq<char> {
    match op {
        BinaryOperator::Equal => "=="@,
        BinaryOperator::NotEqual => "!="@,
        BinaryOperator::Less => "<"@,
        BinaryOperator::LessEqual => "<="@,
        BinaryOperator::Greater => ">"@,
        BinaryOperator::GreaterEqual => ">="@,
        BinaryOperator::Add => "+"@,
        BinaryOperator::Sub => "-"@,
        BinaryOperator::Mul => "*"@,
        BinaryOperator::Div => "/"@,
    }
}

pub open spec fn logical_symbol(op: LogicalOperator) -> Seq<char> {
    match op {
        LogicalOperator::And => "and"@,
        LogicalOperator::Or => "or"@,
    }
}

/// `(head a b)`
pub open spec fn node2(head: Seq<char>, a: Seq<char>, b: Seq<char>) -> Seq<char> {
    "("@ + head + " "@ + a + " "@ + b + ")"@
}

/// `(head a)`
pub open spec fn node1(head: Seq<char>, a: Seq<char>) -> Seq<char> {
    "("@ + head + " "@ + a + ")"@
}

/// The display form of a literal: numbers in canonical decimal, strings as
/// their raw text.
pub open spec fn lit_text(l: LitModel) -> Seq<char> {
    match l {
        LitModel::Number(t) => canonical_decimal(t),
        LitModel::Str(s) => s,
        LitModel::True => "true"@,
        LitModel::False => "false"@,
        LitModel::Nil => "nil"@,
    }
}

/// The fully parenthesized prefix form of an expression, such as `(- 1.0 2.0)`.
pub open spec fn expr_text(e: ExprModel) -> Seq<char>
    decreases e,
{
    match e {
        ExprModel::Literal(_, l) => lit_text(l),
        ExprModel::Variable(_, name) => node1("variable"@, name),
        ExprModel::Unary(_, op, inner) => node1(unary_symbol(op), expr_text(*inner)),
        ExprModel::Binary(_, l, op, r) => node2(binary_symbol(op), expr_text(*l), expr_text(*r)),
        ExprModel::Logical(_, l, op, r) => node2(logical_symbol(op), expr_text(*l), expr_text(*r)),
        ExprModel::Grouping(_, inner) => node1("group"@, expr_text(*inner)),
        ExprModel::Assign(_, name, rhs) => node2("assign"@, name, expr_text(*rhs)),
    }
}

/// Appends the prefix form of `e` to `out`.
fn write_expr(e: &Expr, out: &mut String)
    ensures
        final(out)@ == old(out)@ + expr_text(expr_model(e)),
    decreases e,
{
    let ghost start = out@;
    match e {
        Expr::Literal(_, l) => match l {
            Literal::Number(t) => {
                let chars = chars_of(t.as_str());
                let c = canonical_number(&chars);
                let text = string_of(&c);
                push_all(out, text.as_str());
            },
            Literal::String(s) => push_all(out, s.as_str()),
            Literal::True => push_all(out, "true"),
            Literal::False => push_all(out, "false"),
            Literal::Nil => push_all(out, "nil"),
        },
        Expr::Variable(_, v) => {
            push_all(out, "(variable ");
            push_all(out, v.0.as_str());
            push_all(out, ")");
        },
        Expr::Unary(_, u) => {
            push_all(out, "(");
            push_all(out, u.op.symbol());
            push_all(out, " ");
            write_expr(&u.expr, out);
            push_all(out, ")");
        },
        Expr::Binary(_, b) => {
            push_all(out, "(");
            push_all(out, b.op.symbol());
            push_all(out, " ");
            write_expr(&b.left, out);
            push_all(out, " ");
            write_expr(&b.right, out);
            push_all(out, ")");
        },
        Expr::Logical(_, b) => {
            push_all(out, "(");
            push_all(out, b.op.symbol());
            push_all(out, " ");
            write_expr(&b.left, out);
            push_all(out, " ");
            write_expr(&b.right, out);
            push_all(out, ")");
        },
        Expr::Grouping(_, g) => {
            push_all(out, "(group ");
            write_expr(&g.0, out);
            push_all(out, ")");
        },
        Expr::Assign(_, a) => {
            push_all(out, "(assign ");
            push_all(out, a.name.as_str());
            push_all(out, " ");
            write_expr(&a.rhs, out);
            push_all(out, ")");
        },
    }
    proof {
        assert(out@ =~= start + expr_text(expr_model(e))) by {
            reveal_strlit("(");
            reveal_strlit(")");
            reveal_strlit(" ");
            reveal_strlit("(variable ");
            reveal_strlit("variable");
            reveal_strlit("(group ");
            reveal_strlit("group");
            reveal_strlit("(assign ");
            reveal_strlit("assign");
        }
    }
}

impl UnaryOperator {
    /// The operator as written: `-` or `!`.
    pub fn symbol(&self) -> (r: &'static str)
        ensures
            r@ == unary_symbol(*self),
    {
        match self {
            UnaryOperator::Negative => "-",
            UnaryOperator::Not => "!",
        }
    }
}

impl BinaryOperator {
    /// The operator as written, such as `<=`.
    pub fn symbol(&self) -> (r: &'static str)
        ensures
            r@ == binary_symbol(*self),
    {
        match self {
            BinaryOperator::Equal => "==",
            BinaryOperator::NotEqual => "!=",
            BinaryOperator::Less => "<",
            BinaryOperator::LessEqual => "<=",
            BinaryOperator::Greater => ">",
            BinaryOperator::GreaterEqual => ">=",
            BinaryOperator::Add => "+",
            BinaryOperator::Sub => "-",
            BinaryOperator::Mul => "*",
            BinaryOperator::Div => "/",
        }
    }
}

impl LogicalOperator {
    /// The operator as written: `and` or `or`.
    pub fn symbol(&self) -> (r: &'static str)
        ensures
            r@ == logical_symbol(*self),
    {
        match self {
            LogicalOperator::And => "and",
            LogicalOperator::Or => "or",
        }
    }
}

impl Expr {
    /// The fully parenthesized prefix form of this expression.
    pub fn to_string(&self) -> (r: String)
        ensures
            r@ == expr_text(expr_model(self)),
    {
        let mut out = String::new();
        write_expr(self, &mut out);
        out
    }
}


/// The display form of a statement.
pub open spec fn stmt_text(s: StmtModel) -> Seq<char>
    decreases s, 1int,
{
    match s {
        StmtModel::Expr(e) => node1("expr"@, expr_text(e)),
        StmtModel::Print(e) => node1("print"@, expr_text(e)),
        StmtModel::Var(name, init) => match init {
            Some(e) => node2("var"@, name, expr_text(e)),
            None => node1("var"@, name),
        },
        StmtModel::Block(body) => "(block\n"@ + stmt_lines(body, body.len() as int) + ")\n"@,
        StmtModel::If(c, t, e) => match e {
            Some(e) => "(if "@ + expr_text(c) + " "@ + stmt_text(*t) + " "@ + stmt_text(*e)
                + ")\n"@,
            None => "(if "@ + expr_text(c) + " "@ + stmt_text(*t) + ")\n"@,
        },
    }
}

/// The first `n` statements of `ss`, each on a line of its own, indented by two spaces.
pub open spec fn stmt_lines(ss: Seq<StmtModel>, n: int) -> Seq<char>
    decreases ss, 0int, n,
{
    if n <= 0 || n > ss.len() {
        Seq::empty()
    } else {
        stmt_lines(ss, n - 1) + "  "@ + stmt_text(ss[n - 1]) + "\n"@
    }
}

/// The display form of a program: its statements, one per line, in parentheses.
pub open spec fn program_text(ss: Seq<StmtModel>) -> Seq<char> {
    "(\n"@ + stmt_lines(ss, ss.len() as int) + ")\n"@
}


pub proof fn lemma_stmts_model_index(v: &Vec<Stmt>, n: int)
    requires
        0 <= n <= v@.len(),
    ensures
        stmts_model(v, n).len() == n,
        forall|j: int| 0 <= j < n ==> #[trigger] stmts_model(v, n)[j] == stmt_model(&v@[j]),
    decreases n,
{
    if n > 0 {
        lemma_stmts_model_index(v, n - 1);
    }
}

/// Appends the statements of `v`, each on a line of its own, indented by two spaces.
fn write_lines(v: &Vec<Stmt>, out: &mut String)
    ensures
        final(out)@ == old(out)@ + stmt_lines(
            stmts_model(v, v@.len() as int),
            v@.len() as int,
        ),
    decreases v, 0int,
{
    let ghost start = out@;
    let ghost ss = stmts_model(v, v@.len() as int);
    proof {
        lemma_stmts_model_index(v, v@.len() as int);
    }
    let mut i: usize = 0;
    while i < v.len()
        invariant
            i <= v@.len(),
            ss == stmts_model(v, v@.len() as int),
            ss.len() == v@.len(),
            forall|j: int| 0 <= j < v@.len() ==> #[trigger] ss[j] == stmt_model(&v@[j]),
            out@ == start + stmt_lines(ss, i as int),
        decreases v@.len() - i,
    {
        push_all(out, "  ");
        write_stmt(&v[i], out);
        push_all(out, "\n");
        proof {
            assert(out@ =~= start + stmt_lines(ss, i + 1));
        }
        i += 1;
    }
}

/// Appends the display form of `st` to `out`.
fn write_stmt(st: &Stmt, out: &mut String)
    ensures
        final(out)@ == old(out)@ + stmt_text(stmt_model(st)),
    decreases st, 1int,
{
    let ghost start = out@;
    match st {
        Stmt::Expr(e) => {
            push_all(out, "(expr ");
            write_expr(e, out);
            push_all(out, ")");
        },
        Stmt::Print(e) => {
            push_all(out, "(print ");
            write_expr(e, out);
            push_all(out, ")");
        },
        Stmt::Var { name, initializer } => {
            push_all(out, "(var ");
            push_all(out, name.as_str());
            match initializer {
                Some(e) => {
                    push_all(out, " ");
                    write_expr(e, out);
                },
                None => {},
            }
            push_all(out, ")");
        },
        Stmt::Block(body) => {
            push_all(out, "(block\n");
            proof {
                lemma_stmts_model_index(body, body@.len() as int);
            }
            write_lines(body, out);
            push_all(out, ")\n");
        },
        Stmt::IfStmt { condition, then_branch, else_branch } => {
            push_all(out, "(if ");
            write_expr(condition, out);
            push_all(out, " ");
            write_stmt(then_branch, out);
            match else_branch {
                Some(e) => {
                    push_all(out, " ");
                    write_stmt(e, out);
                },
                None => {},
            }
            push_all(out, ")\n");
        },
    }
    proof {
        assert(out@ =~= start + stmt_text(stmt_model(st))) by {
            reveal_strlit("(");
            reveal_strlit(")");
            reveal_strlit(" ");
            reveal_strlit("(expr ");
            reveal_strlit("expr");
            reveal_strlit("(print ");
            reveal_strlit("print");
            reveal_strlit("(var ");
            reveal_strlit("var");
        }
    }
}

impl Stmt {
    /// The display form of this statement.
    pub fn to_string(&self) -> (r: String)
        ensures
            r@ == stmt_text(stmt_model(self)),
    {
        let mut out = String::new();
        write_stmt(self, &mut out);
        out
    }
}

impl Program {
    /// The display form of this program: its statements, one per line, in parentheses.
    pub fn to_string(&self) -> (r: String)
        ensures
            r@ == program_text(stmts_model(&self.stmts, self.stmts@.len() as int)),
    {
        let mut out = String::new();
        push_all(&mut out, "(\n");
        proof {
            lemma_stmts_model_index(&self.stmts, self.stmts@.len() as int);
        }
        write_lines(&self.stmts, &mut out);
        push_all(&mut out, ")\n");
        out
    }
}

} // verus!
