use vstd::prelude::*;

verus! {

/// What an expression denotes, as text.
pub enum ExpressionModel {
    Identifier(Seq<char>),
}

/// What a statement denotes, its expressions given by their models.
pub enum StatementModel {
    Let { name: ExpressionModel, value: ExpressionModel },
    Return(ExpressionModel),
    Expression(ExpressionModel),
}

#[derive(Debug)]
pub enum Expression {
    Identifier(String),
}

#[derive(Debug)]
pub enum Statement {
    LET { name: Expression, value: Expression },
    RETURN(Expression),
    EXPRESSION(Expression),
}

/// A parsed program: its statements in source order.
#[derive(Debug)]
pub struct Program {
    pub statements: Vec<Statement>,
}

/// Binding power of operators, from the loosest to the tightest.
#[derive(Debug, Clone, Copy, PartialEq, Eq, Structural, PartialOrd, Ord)]
pub enum Precedence {
    LOWEST,
    EQUALS,
    LESSGREATER,
    SUM,
    PRODUCT,
    PREFIX,
    CALL,
    INDEX,
}

impl View for Expression {
    type V = ExpressionModel;

    open spec fn view(&self) -> ExpressionModel {
        match self {
            Expression::Identifier(name) => ExpressionModel::Identifier(name@),
        }
    }
}

impl View for Statement {
    type V = StatementModel;

    open spec fn view(&self) -> StatementModel {
        match self {
            Statement::LET { name, value } => StatementModel::Let { name: name@, value: value@ },
            Statement::RETURN(x) => StatementModel::Return(x@),
            Statement::EXPRESSION(x) => StatementModel::Expression(x@),
        }
    }
}

impl View for Program {
    type V = Seq<StatementModel>;

    open spec fn view(&self) -> Seq<StatementModel> {
        self.statements@.map_values(|s: Statement| s@)
    }
}

/// The source text of an expression.
pub open spec fn expression_text(e: ExpressionModel) -> Seq<char> {
    match e {
        ExpressionModel::Identifier(name) => name,
    }
}

/// The source text of a statement.
pub open spec fn statement_text(s: StatementModel) -> Seq<char> {
    match s {
        StatementModel::Let { name, value } => "let "@ + expression_text(name) + " = "@
            + expression_text(value) + ";"@,
        StatementModel::Return(x) => "return "@ + expression_text(x),
        StatementModel::Expression(x) => expression_text(x),
    }
}

/// The source text of a program: each statement on a line of its own.
pub open spec fn program_text(p: Seq<StatementModel>) -> Seq<char>
    decreases p.len(),
{
    if p.len() == 0 {
        Seq::empty()
    } else {
        program_text(p.drop_last()) + statement_text(p.last()) + "\n"@
    }
}

impl Expression {
    pub fn to_string(&self) -> (r: String)
        ensures
            r@ == expression_text(self@),
    {
        match self {
            Expression::Identifier(name) => name.clone(),
        }
    }
}

impl Statement {
    pub fn to_string(&self) -> (r: String)
        ensures
            r@ == statement_text(self@),
    {
        match self {
            Statement::LET { name, value } => {
                let mut r = String::new();
                r.append("let ");
                r.append(name.to_string().as_str());
                r.append(" = ");
                r.append(value.to_string().as_str());
                r.append(";");
                assert(r@ =~= statement_text(self@));
                r
            },
            Statement::RETURN(x) => {
                let mut r = String::new();
                r.append("return ");
                r.append(x.to_string().as_str());
                assert(r@ =~= statement_text(self@));
                r
            },
            Statement::EXPRESSION(x) => x.to_string(),
        }
    }
}

impl Program {
    pub fn to_string(&self) -> (r: String)
        ensures
            r@ == program_text(self@),
    {
        let mut r = String::new();
        let mut i: usize = 0;
        while i < self.statements.len()
            invariant
                i <= self.statements.len(),
                r@ == program_text(self@.take(i as int)),
            decreases self.statements.len() - i,
        {
            r.append(self.statements[i].to_string().as_str());
            r.append("\n");
            assert(self@.take(i + 1).drop_last() =~= self@.take(i as int));
            i = i + 1;
        }
        assert(self@.take(i as int) =~= self@);
        r
    }
}

} // verus!
