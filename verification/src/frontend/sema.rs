//! The semantic analyzer: one pass over the tree that infers a type for
//! every expression and stops at the first rule that is violated.

use vstd::prelude::*;
use vstd::hash_map::StringHashMap;
use vstd::string::*;
use crate::frontend::ast::{
    arguments_view, block_view, expression_view, Expression, ExpressionView, Program, Statement, StatementView,
};

verus! {

/// The type of an expression or a symbol.
#[derive(Debug, Clone, Copy, PartialEq, Eq, Structural)]
pub enum Type {
    Int,
    Bool,
    Function,
    /// The type of what has not been resolved: a conditional, a call, a
    /// binding.
    Unknown,
}

impl Type {
    /// The name of the type, as it stands in failure messages.
    pub open spec fn name(self) -> Seq<char> {
        match self {
            Type::Int => "Int"@,
            Type::Bool => "Bool"@,
            Type::Function => "Function"@,
            Type::Unknown => "Unknown"@,
        }
    }

    /// Appends the name of the type to `out`.
    pub fn push_name(&self, out: &mut String)
        ensures
            final(out)@ == old(out)@ + self.name(),
    {
        match self {
            Type::Int => out.append("Int"),
            Type::Bool => out.append("Bool"),
            Type::Function => out.append("Function"),
            Type::Unknown => out.append("Unknown"),
        }
    }
}

/// The failure for a name that is used before any binding of it.
pub open spec fn undeclared_variable_message(name: Seq<char>) -> Seq<char> {
    "Undeclared variable: "@ + name
}

/// The failure for an infix operator with an operand that is not an integer.
pub open spec fn arithmetic_message(left: Type, right: Type) -> Seq<char> {
    "Cannot perform arithmetic on non-integers. Left is "@ + left.name() + ", Right is "@
        + right.name()
}

/// The failure for a condition that is not a boolean.
pub open spec fn condition_message() -> Seq<char> {
    "If condition must be a boolean"@
}

/// The failure for a call of a name that has no binding.
pub open spec fn undeclared_function_message(name: Seq<char>) -> Seq<char> {
    "Undeclared function: "@ + name
}

/// The failure for a call of a name that is bound to something else than a
/// function.
pub open spec fn not_a_function_message(name: Seq<char>) -> Seq<char> {
    "'"@ + name + "' is not a function"@
}

/// The failure for a call whose target is not a bare name.
pub open spec fn unnamed_call_message() -> Seq<char> {
    "Can only call named functions"@
}

/// The failure for an expression form that has no typing rule.
pub open spec fn unsupported_message() -> Seq<char> {
    "Unsupported expression type"@
}

/// The outcome of checking a part of the program: the symbol table as the
/// check left it, and the type found or the first failure.
pub struct Checked {
    pub table: Map<Seq<char>, Type>,
    pub outcome: Result<Type, Seq<char>>,
}

/// The symbol table before any binding: `print` is a function.
pub open spec fn builtin_symbols() -> Map<Seq<char>, Type> {
    Map::empty().insert("print"@, Type::Function)
}

/// The typing rules for expressions, under the symbol table `table`.
pub open spec fn check_expression(e: ExpressionView, table: Map<Seq<char>, Type>) -> Checked
    decreases e, 0nat,
{
    match e {
        ExpressionView::IntegerLiteral(_) => Checked { table, outcome: Ok(Type::Int) },
        ExpressionView::Boolean(_) => Checked { table, outcome: Ok(Type::Bool) },
        ExpressionView::Identifier(name) => if table.contains_key(name) {
            Checked { table, outcome: Ok(table[name]) }
        } else {
            Checked { table, outcome: Err(undeclared_variable_message(name)) }
        },
        ExpressionView::Infix { op, left, right } => {
            let l = check_expression(*left, table);
            match l.outcome {
                Err(_) => l,
                Ok(left_type) => {
                    let r = check_expression(*right, l.table);
                    match r.outcome {
                        Err(_) => r,
                        Ok(right_type) => if left_type != Type::Int || right_type != Type::Int {
                            Checked {
                                table: r.table,
                                outcome: Err(arithmetic_message(left_type, right_type)),
                            }
                        } else {
                            Checked { table: r.table, outcome: Ok(Type::Int) }
                        },
                    }
                },
            }
        },
        ExpressionView::If { condition, consequence, alternative } => {
            let c = check_expression(*condition, table);
            match c.outcome {
                Err(_) => c,
                Ok(condition_type) => if condition_type != Type::Bool {
                    Checked { table: c.table, outcome: Err(condition_message()) }
                } else {
                    check_statements_from(consequence, 0, c.table)
                },
            }
        },
        ExpressionView::Call { function, arguments } => match *function {
            ExpressionView::Identifier(name) => if !table.contains_key(name) {
                Checked { table, outcome: Err(undeclared_function_message(name)) }
            } else if table[name] != Type::Function {
                Checked { table, outcome: Err(not_a_function_message(name)) }
            } else {
                check_arguments_from(arguments, 0, table)
            },
            _ => Checked { table, outcome: Err(unnamed_call_message()) },
        },
        _ => Checked { table, outcome: Err(unsupported_message()) },
    }
}

/// The typing rules for statements. A binding records the type of its value
/// under its name, over any earlier binding of that name.
pub open spec fn check_statement(s: StatementView, table: Map<Seq<char>, Type>) -> Checked
    decreases s, 0nat,
{
    match s {
        StatementView::Let { name, value } => {
            let v = check_expression(value, table);
            match v.outcome {
                Err(_) => v,
                Ok(value_type) => Checked {
                    table: v.table.insert(name, value_type),
                    outcome: Ok(Type::Unknown),
                },
            }
        },
        StatementView::Return(e) => check_expression(e, table),
        StatementView::Expression(e) => check_expression(e, table),
    }
}

/// Checks the statements of `stmts` from index `i` on, in order, up to the
/// first failure. Without a failure the outcome is the unknown type.
pub open spec fn check_statements_from(
    stmts: Seq<StatementView>,
    i: int,
    table: Map<Seq<char>, Type>,
) -> Checked
    decreases stmts, stmts.len() - i,
{
    if i < 0 || i >= stmts.len() {
        Checked { table, outcome: Ok(Type::Unknown) }
    } else {
        let s = check_statement(stmts[i], table);
        match s.outcome {
            Err(_) => s,
            Ok(_) => check_statements_from(stmts, i + 1, s.table),
        }
    }
}

/// Checks the arguments of a call from index `i` on, in order, up to the
/// first failure. Without a failure the outcome is the unknown type.
pub open spec fn check_arguments_from(
    arguments: Seq<ExpressionView>,
    i: int,
    table: Map<Seq<char>, Type>,
) -> Checked
    decreases arguments, arguments.len() - i,
{
    if i < 0 || i >= arguments.len() {
        Checked { table, outcome: Ok(Type::Unknown) }
    } else {
        let a = check_expression(arguments[i], table);
        match a.outcome {
            Err(_) => a,
            Ok(_) => check_arguments_from(arguments, i + 1, a.table),
        }
    }
}

/// The typing rules for a whole program: its statements in order, up to the
/// first failure.
pub open spec fn check_program(stmts: Seq<StatementView>, table: Map<Seq<char>, Type>) -> Checked {
    check_statements_from(stmts, 0, table)
}

/// Whether every name bound in `before` is bound in `after`.
pub open spec fn keeps_names(before: Map<Seq<char>, Type>, after: Map<Seq<char>, Type>) -> bool {
    forall|name: Seq<char>| before.contains_key(name) ==> after.contains_key(name)
}

/// A binding lives for the whole pass: checking an expression removes no
/// name from the symbol table.
pub proof fn lemma_check_expression_keeps_names(e: ExpressionView, table: Map<Seq<char>, Type>)
    ensures
        keeps_names(table, check_expression(e, table).table),
    decreases e, 0nat,
{
    match e {
        ExpressionView::Infix { op, left, right } => {
            lemma_check_expression_keeps_names(*left, table);
            lemma_check_expression_keeps_names(*right, check_expression(*left, table).table);
        },
        ExpressionView::If { condition, consequence, alternative } => {
            lemma_check_expression_keeps_names(*condition, table);
            lemma_check_statements_keep_names(
                consequence,
                0,
                check_expression(*condition, table).table,
            );
        },
        ExpressionView::Call { function, arguments } => {
            lemma_check_arguments_keep_names(arguments, 0, table);
        },
        _ => {},
    }
}

/// Checking a statement removes no name from the symbol table.
pub proof fn lemma_check_statement_keeps_names(s: StatementView, table: Map<Seq<char>, Type>)
    ensures
        keeps_names(table, check_statement(s, table).table),
    decreases s, 0nat,
{
    match s {
        StatementView::Let { name, value } => lemma_check_expression_keeps_names(value, table),
        StatementView::Return(e) => lemma_check_expression_keeps_names(e, table),
        StatementView::Expression(e) => lemma_check_expression_keeps_names(e, table),
    }
}

/// Checking statements removes no name from the symbol table.
pub proof fn lemma_check_statements_keep_names(
    stmts: Seq<StatementView>,
    i: int,
    table: Map<Seq<char>, Type>,
)
    ensures
        keeps_names(table, check_statements_from(stmts, i, table).table),
    decreases stmts, stmts.len() - i,
{
    if 0 <= i < stmts.len() {
        lemma_check_statement_keeps_names(stmts[i], table);
        lemma_check_statements_keep_names(stmts, i + 1, check_statement(stmts[i], table).table);
    }
}

/// Checking the arguments of a call removes no name from the symbol table.
pub proof fn lemma_check_arguments_keep_names(
    arguments: Seq<ExpressionView>,
    i: int,
    table: Map<Seq<char>, Type>,
)
    ensures
        keeps_names(table, check_arguments_from(arguments, i, table).table),
    decreases arguments, arguments.len() - i,
{
    if 0 <= i < arguments.len() {
        lemma_check_expression_keeps_names(arguments[i], table);
        lemma_check_arguments_keep_names(
            arguments,
            i + 1,
            check_expression(arguments[i], table).table,
        );
    }
}

/// The view of a result of checking: the type, or the text of the failure.
pub open spec fn outcome_view(r: Result<Type, String>) -> Result<Type, Seq<char>> {
    match r {
        Ok(t) => Ok(t),
        Err(m) => Err(m@),
    }
}

/// The semantic analyzer, with the symbol table of one compilation unit.
pub struct SemanticAnalyzer {
    symbol_table: StringHashMap<Type>,
}

impl View for SemanticAnalyzer {
    type V = Map<Seq<char>, Type>;

    /// The symbol table: the type that each bound name has at present.
    closed spec fn view(&self) -> Map<Seq<char>, Type> {
        self.symbol_table@
    }
}

impl SemanticAnalyzer {
    /// An analyzer whose symbol table holds the built-in `print` and
    /// nothing else.
    pub fn new() -> (analyzer: Self)
        ensures
            analyzer@ == builtin_symbols(),
    {
        let mut symbols: StringHashMap<Type> = StringHashMap::new();
        symbols.insert("print".to_owned(), Type::Function);
        SemanticAnalyzer { symbol_table: symbols }
    }

    /// Checks the program against the typing rules, statement by statement,
    /// and stops at the first failure. The program is left as it was.
    pub fn analyze(&mut self, program: &mut Program) -> (res: Result<(), String>)
        ensures
            *final(program) == *old(program),
            final(self)@ == check_program(block_view(*old(program)), old(self)@).table,
            match res {
                Ok(_) => check_program(block_view(*old(program)), old(self)@).outcome is Ok,
                Err(m) => check_program(block_view(*old(program)), old(self)@).outcome == Err::<
                    Type,
                    Seq<char>,
                >(m@),
            },
    {
        let mut i: usize = 0;
        while i < program.len()
            invariant
                *program == *old(program),
                i <= program.len(),
                check_statements_from(block_view(*program), i as int, self@) == check_program(
                    block_view(*program),
                    old(self)@,
                ),
            decreases program.len() - i,
        {
            match self.check_statement(&program[i]) {
                Ok(_) => {},
                Err(m) => {
                    return Err(m);
                },
            }
            i = i + 1;
        }
        Ok(())
    }

    /// The type that `name` is bound to, if it is bound.
    fn lookup(&self, name: &String) -> (found: Option<Type>)
        ensures
            found is Some == self@.contains_key(name@),
            found matches Some(t) ==> self@[name@] == t,
    {
        match self.symbol_table.get(name.as_str()) {
            Some(t) => Some(*t),
            None => None,
        }
    }

    /// Binds `name` to `ty`, over any earlier binding of it.
    fn bind(&mut self, name: String, ty: Type)
        ensures
            final(self)@ == old(self)@.insert(name@, ty),
    {
        self.symbol_table.insert(name, ty);
    }

    /// Checks one statement.
    fn check_statement(&mut self, stmt: &Statement) -> (res: Result<Type, String>)
        ensures
            final(self)@ == check_statement(stmt@, old(self)@).table,
            outcome_view(res) == check_statement(stmt@, old(self)@).outcome,
        decreases stmt, 0nat,
    {
        match stmt {
            Statement::Let { name, value } => {
                match self.check_expression(value) {
                    Ok(value_type) => {
                        self.bind(name.clone(), value_type);
                        Ok(Type::Unknown)
                    },
                    Err(m) => Err(m),
                }
            },
            Statement::Return(expr) => self.check_expression(expr),
            Statement::Expression(expr) => self.check_expression(expr),
        }
    }

    /// Checks one expression and gives its type.
    fn check_expression(&mut self, expr: &Expression) -> (res: Result<Type, String>)
        ensures
            final(self)@ == check_expression(expr@, old(self)@).table,
            outcome_view(res) == check_expression(expr@, old(self)@).outcome,
        decreases expr, 0nat,
    {
        match expr {
            Expression::IntegerLiteral(_) => Ok(Type::Int),
            Expression::Boolean(_) => Ok(Type::Bool),
            Expression::Identifier(name) => match self.lookup(name) {
                Some(t) => Ok(t),
                None => {
                    let mut message = String::new();
                    message.append("Undeclared variable: ");
                    message.append(name.as_str());
                    assert(message@ =~= undeclared_variable_message(name@));
                    Err(message)
                },
            },
            Expression::Infix { op: _, left, right } => {
                let left_type = match self.check_expression(left) {
                    Ok(t) => t,
                    Err(m) => {
                        return Err(m);
                    },
                };
                let right_type = match self.check_expression(right) {
                    Ok(t) => t,
                    Err(m) => {
                        return Err(m);
                    },
                };
                if left_type != Type::Int || right_type != Type::Int {
                    let mut message = String::new();
                    message.append("Cannot perform arithmetic on non-integers. Left is ");
                    left_type.push_name(&mut message);
                    message.append(", Right is ");
                    right_type.push_name(&mut message);
                    assert(message@ =~= arithmetic_message(left_type, right_type));
                    return Err(message);
                }
                Ok(Type::Int)
            },
            Expression::If { condition, consequence, alternative: _ } => {
                let condition_type = match self.check_expression(condition) {
                    Ok(t) => t,
                    Err(m) => {
                        return Err(m);
                    },
                };
                if condition_type != Type::Bool {
                    return Err("If condition must be a boolean".to_owned());
                }
                let ghost after_condition = self@;
                let mut i: usize = 0;
                while i < consequence.len()
                    invariant
                        decreases_to!(expr => consequence),
                        check_expression(expr@, old(self)@) == check_statements_from(
                            block_view(*consequence),
                            0,
                            after_condition,
                        ),
                        i <= consequence.len(),
                        check_statements_from(block_view(*consequence), i as int, self@)
                            == check_statements_from(
                            block_view(*consequence),
                            0,
                            after_condition,
                        ),
                    decreases consequence.len() - i,
                {
                    match self.check_statement(&consequence[i]) {
                        Ok(_) => {},
                        Err(m) => {
                            return Err(m);
                        },
                    }
                    i = i + 1;
                }
                Ok(Type::Unknown)
            },
            Expression::Call { function, arguments } => {
                match &**function {
                    Expression::Identifier(name) => {
                        assert(expression_view(**function) == ExpressionView::Identifier(name@));
                        match self.lookup(name) {
                            None => {
                                let mut message = String::new();
                                message.append("Undeclared function: ");
                                message.append(name.as_str());
                                assert(message@ =~= undeclared_function_message(name@));
                                return Err(message);
                            },
                            Some(t) => {
                                if t != Type::Function {
                                    let mut message = String::new();
                                    message.append("'");
                                    message.append(name.as_str());
                                    message.append("' is not a function");
                                    assert(message@ =~= not_a_function_message(name@));
                                    return Err(message);
                                }
                            },
                        }
                        let ghost before = self@;
                        let mut i: usize = 0;
                        while i < arguments.len()
                            invariant
                                decreases_to!(expr => arguments),
                                check_expression(expr@, old(self)@) == check_arguments_from(
                                    arguments_view(*arguments),
                                    0,
                                    before,
                                ),
                                i <= arguments.len(),
                                check_arguments_from(arguments_view(*arguments), i as int, self@)
                                    == check_arguments_from(arguments_view(*arguments), 0, before),
                            decreases arguments.len() - i,
                        {
                            match self.check_expression(&arguments[i]) {
                                Ok(_) => {},
                                Err(m) => {
                                    return Err(m);
                                },
                            }
                            i = i + 1;
                        }
                        Ok(Type::Unknown)
                    },
                    _ => {
                        assert(!(expression_view(**function) is Identifier));
                        Err("Can only call named functions".to_owned())
                    },
                }
            },
            _ => Err("Unsupported expression type".to_owned()),
        }
    }
}

} // verus!
