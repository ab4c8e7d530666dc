//! The syntax tree as indented text, one node a line, every child two
//! columns further in than its parent.
use vstd::prelude::*;
use vstd::string::*;
use crate::parser::{
    block_item_views, BinaryOp, BlockItem, BlockItemView, Declaration, DeclarationView, Exp,
    ExpView, Factor, FactorView, FunctionDeclaration, FunctionDeclarationView, Program,
    ProgramView, Statement, StatementView, UnaryOp,
};
use crate::text::{push_signed_decimal, signed_decimal};

verus! {

/// A line of `n` spaces.
pub open spec fn spaces(n: nat) -> Seq<char> {
    Seq::new(n, |i: int| ' ')
}

/// The name of a prefix operator.
pub open spec fn unary_op_name(op: UnaryOp) -> Seq<char> {
    match op {
        UnaryOp::Negation => "Negation"@,
        UnaryOp::BitwiseComplement => "BitwiseComplement"@,
        UnaryOp::LogicalNot => "LogicalNot"@,
    }
}

/// The name of an infix operator.
pub open spec fn binary_op_name(op: BinaryOp) -> Seq<char> {
    match op {
        BinaryOp::Add => "Add"@,
        BinaryOp::Subtract => "Subtract"@,
        BinaryOp::Multiply => "Multiply"@,
        BinaryOp::Divide => "Divide"@,
        BinaryOp::Modulo => "Modulo"@,
        BinaryOp::LeftShift => "LeftShift"@,
        BinaryOp::RightShift => "RightShift"@,
        BinaryOp::BitwiseAnd => "BitwiseAnd"@,
        BinaryOp::BitwiseOr => "BitwiseOr"@,
        BinaryOp::BitwiseXor => "BitwiseXor"@,
        BinaryOp::LogicalAnd => "LogicalAnd"@,
        BinaryOp::LogicalOr => "LogicalOr"@,
        BinaryOp::Equal => "Equal"@,
        BinaryOp::NotEqual => "NotEqual"@,
        BinaryOp::GreaterThan => "GreaterThan"@,
        BinaryOp::LessThan => "LessThan"@,
        BinaryOp::GreaterThanOrEqual => "GreaterThanOrEqual"@,
        BinaryOp::LessThanOrEqual => "LessThanOrEqual"@,
        BinaryOp::Assignment => "Assignment"@,
    }
}

/// The margin of the children of a node with the margin `margin`.
pub open spec fn deeper(margin: Seq<char>) -> Seq<char> {
    margin + "  "@
}

/// The lines of a factor behind the margin.
pub open spec fn factor_text(f: FactorView, margin: Seq<char>) -> Seq<char>
    decreases f,
{
    match f {
        FactorView::Int(k) => margin + "Int: "@ + signed_decimal(k as int) + "\n"@,
        FactorView::Unary(op, inner) => margin + "Unary Operation: "@ + unary_op_name(op) + "\n"@
            + factor_text(*inner, deeper(margin)),
        FactorView::Var(name) => margin + "Variable: "@ + name + "\n"@,
        FactorView::Parenthesized(inner) => margin + "Parenthesized Expression:\n"@ + exp_text(
            *inner,
            deeper(margin),
        ),
    }
}

/// The lines of an expression behind the margin.
pub open spec fn exp_text(e: ExpView, margin: Seq<char>) -> Seq<char>
    decreases e,
{
    match e {
        ExpView::Factor(f) => factor_text(f, margin),
        ExpView::Binary(left, op, right) => margin + "Binary Operation: "@ + binary_op_name(op)
            + "\n"@ + exp_text(*left, deeper(margin)) + exp_text(*right, deeper(margin)),
        ExpView::Assignment(left, right) => margin + "Assignment:\n"@ + exp_text(
            *left,
            deeper(margin),
        ) + exp_text(*right, deeper(margin)),
    }
}

/// The lines of a statement behind the margin.
pub open spec fn statement_text(s: StatementView, margin: Seq<char>) -> Seq<char> {
    match s {
        StatementView::Return(e) => margin + "Return:\n"@ + exp_text(e, deeper(margin)),
        StatementView::ExpressionStatement(e) => margin + "Expression:\n"@ + exp_text(
            e,
            deeper(margin),
        ),
        StatementView::Null => margin + "Null\n"@,
    }
}

/// The lines of a declaration behind the margin.
pub open spec fn declaration_text(d: DeclarationView, margin: Seq<char>) -> Seq<char> {
    margin + "Declaration: "@ + d.name + "\n"@ + match d.init {
        Some(init) => exp_text(init, deeper(margin)),
        None => Seq::empty(),
    }
}

/// The lines of a block item behind the margin.
pub open spec fn block_item_text(item: BlockItemView, margin: Seq<char>) -> Seq<char> {
    match item {
        BlockItemView::Declaration(d) => declaration_text(d, margin),
        BlockItemView::Statement(s) => statement_text(s, margin),
    }
}

/// The lines of the block items behind the margin, one item behind the other.
pub open spec fn body_text(items: Seq<BlockItemView>, margin: Seq<char>) -> Seq<char>
    decreases items.len(),
{
    if items.len() == 0 {
        Seq::empty()
    } else {
        body_text(items.drop_last(), margin) + block_item_text(items.last(), margin)
    }
}

/// The lines of a function behind the margin.
pub open spec fn function_text(f: FunctionDeclarationView, margin: Seq<char>) -> Seq<char> {
    margin + "Function: "@ + f.name + "\n"@ + body_text(f.body, deeper(margin))
}

/// The lines of a program behind the margin.
pub open spec fn program_text(p: ProgramView, margin: Seq<char>) -> Seq<char> {
    margin + "Program:\n"@ + function_text(p.function, deeper(margin))
}

/// A node of the syntax tree that can be shown as indented text.
pub trait PrettyPrint {
    /// The lines of the node, indented by `indent` columns.
    spec fn pretty(&self, indent: nat) -> Seq<char>;

    /// The lines of the node, indented by `indent` columns.
    fn pretty_print(&self, indent: usize) -> (text: String)
        ensures
            text@ == self.pretty(indent as nat),
    ;
}

/// A margin of `indent` spaces.
fn margin_of(indent: usize) -> (margin: String)
    ensures
        margin@ == spaces(indent as nat),
{
    let mut margin = String::new();
    let mut i: usize = 0;
    assert(margin@ =~= spaces(0));
    while i < indent
        invariant
            0 <= i <= indent,
            margin@ == spaces(i as nat),
        decreases indent - i,
    {
        margin.push(' ');
        i = i + 1;
        assert(margin@ =~= spaces(i as nat));
    }
    margin
}

/// The margin two columns further in.
fn deeper_margin(margin: &str) -> (inner: String)
    ensures
        inner@ == deeper(margin@),
{
    let mut inner = margin.to_owned();
    inner.append("  ");
    inner
}

fn write_unary_op(out: &mut String, op: UnaryOp)
    ensures
        final(out)@ == old(out)@ + unary_op_name(op),
{
    match op {
        UnaryOp::Negation => out.append("Negation"),
        UnaryOp::BitwiseComplement => out.append("BitwiseComplement"),
        UnaryOp::LogicalNot => out.append("LogicalNot"),
    }
}

fn write_binary_op(out: &mut String, op: BinaryOp)
    ensures
        final(out)@ == old(out)@ + binary_op_name(op),
{
    match op {
        BinaryOp::Add => out.append("Add"),
        BinaryOp::Subtract => out.append("Subtract"),
        BinaryOp::Multiply => out.append("Multiply"),
        BinaryOp::Divide => out.append("Divide"),
        BinaryOp::Modulo => out.append("Modulo"),
        BinaryOp::LeftShift => out.append("LeftShift"),
        BinaryOp::RightShift => out.append("RightShift"),
        BinaryOp::BitwiseAnd => out.append("BitwiseAnd"),
        BinaryOp::BitwiseOr => out.append("BitwiseOr"),
        BinaryOp::BitwiseXor => out.append("BitwiseXor"),
        BinaryOp::LogicalAnd => out.append("LogicalAnd"),
        BinaryOp::LogicalOr => out.append("LogicalOr"),
        BinaryOp::Equal => out.append("Equal"),
        BinaryOp::NotEqual => out.append("NotEqual"),
        BinaryOp::GreaterThan => out.append("GreaterThan"),
        BinaryOp::LessThan => out.append("LessThan"),
        BinaryOp::GreaterThanOrEqual => out.append("GreaterThanOrEqual"),
        BinaryOp::LessThanOrEqual => out.append("LessThanOrEqual"),
        BinaryOp::Assignment => out.append("Assignment"),
    }
}

fn write_factor(out: &mut String, factor: &Factor, margin: &str)
    ensures
        final(out)@ == old(out)@ + factor_text(factor@, margin@),
    decreases factor,
{
    out.append(margin);
    match factor {
        Factor::Int(value) => {
            out.append("Int: ");
            push_signed_decimal(out, *value);
            out.append("\n");
        },
        Factor::Unary(op, inner) => {
            out.append("Unary Operation: ");
            write_unary_op(out, *op);
            out.append("\n");
            let inner_margin = deeper_margin(margin);
            write_factor(out, inner, inner_margin.as_str());
        },
        Factor::Var(name) => {
            out.append("Variable: ");
            out.append(name.as_str());
            out.append("\n");
        },
        Factor::Parenthesized(inner) => {
            out.append("Parenthesized Expression:\n");
            let inner_margin = deeper_margin(margin);
            write_exp(out, inner, inner_margin.as_str());
        },
    }
    assert(out@ =~= old(out)@ + factor_text(factor@, margin@));
}

fn write_exp(out: &mut String, exp: &Exp, margin: &str)
    ensures
        final(out)@ == old(out)@ + exp_text(exp@, margin@),
    decreases exp,
{
    match exp {
        Exp::Factor(factor) => {
            write_factor(out, factor, margin);
        },
        Exp::Binary(left, op, right) => {
            out.append(margin);
            out.append("Binary Operation: ");
            write_binary_op(out, *op);
            out.append("\n");
            let inner_margin = deeper_margin(margin);
            write_exp(out, left, inner_margin.as_str());
            write_exp(out, right, inner_margin.as_str());
        },
        Exp::Assignment(left, right) => {
            out.append(margin);
            out.append("Assignment:\n");
            let inner_margin = deeper_margin(margin);
            write_exp(out, left, inner_margin.as_str());
            write_exp(out, right, inner_margin.as_str());
        },
    }
    assert(out@ =~= old(out)@ + exp_text(exp@, margin@));
}

fn write_statement(out: &mut String, statement: &Statement, margin: &str)
    ensures
        final(out)@ == old(out)@ + statement_text(statement@, margin@),
{
    out.append(margin);
    match statement {
        Statement::Return(exp) => {
            out.append("Return:\n");
            let inner_margin = deeper_margin(margin);
            write_exp(out, exp, inner_margin.as_str());
        },
        Statement::ExpressionStatement(exp) => {
            out.append("Expression:\n");
            let inner_margin = deeper_margin(margin);
            write_exp(out, exp, inner_margin.as_str());
        },
        Statement::Null => {
            out.append("Null\n");
        },
    }
    assert(out@ =~= old(out)@ + statement_text(statement@, margin@));
}

fn write_declaration(out: &mut String, declaration: &Declaration, margin: &str)
    ensures
        final(out)@ == old(out)@ + declaration_text(declaration@, margin@),
{
    match declaration {
        Declaration::Declaration(name, exp) => {
            out.append(margin);
            out.append("Declaration: ");
            out.append(name.as_str());
            out.append("\n");
            if let Some(exp) = exp {
                let inner_margin = deeper_margin(margin);
                write_exp(out, exp, inner_margin.as_str());
            }
        },
    }
    assert(out@ =~= old(out)@ + declaration_text(declaration@, margin@));
}

fn write_block_item(out: &mut String, item: &BlockItem, margin: &str)
    ensures
        final(out)@ == old(out)@ + block_item_text(item@, margin@),
{
    match item {
        BlockItem::Declaration(declaration) => write_declaration(out, declaration, margin),
        BlockItem::Statement(statement) => write_statement(out, statement, margin),
    }
}

fn write_function(out: &mut String, function: &FunctionDeclaration, margin: &str)
    ensures
        final(out)@ == old(out)@ + function_text(function@, margin@),
{
    match function {
        FunctionDeclaration::Function(name, block_items) => {
            out.append(margin);
            out.append("Function: ");
            out.append(name.as_str());
            out.append("\n");
            let inner_margin = deeper_margin(margin);
            let ghost head = margin@ + "Function: "@ + name@ + "\n"@;
            let ghost items = block_item_views(block_items@);
            assert(out@ =~= old(out)@ + head);
            assert(body_text(items.subrange(0, 0), inner_margin@) =~= Seq::<char>::empty());
            let mut i: usize = 0;
            while i < block_items.len()
                invariant
                    0 <= i <= block_items.len(),
                    items == block_item_views(block_items@),
                    out@ == old(out)@ + head + body_text(items.subrange(0, i as int), inner_margin@),
                decreases block_items.len() - i,
            {
                proof {
                    let longer = items.subrange(0, i + 1);
                    assert(longer.drop_last() =~= items.subrange(0, i as int));
                    assert(longer.last() == block_items@[i as int]@);
                }
                write_block_item(out, &block_items[i], inner_margin.as_str());
                assert(out@ =~= old(out)@ + head + body_text(
                    items.subrange(0, i + 1),
                    inner_margin@,
                ));
                i = i + 1;
            }
            assert(items.subrange(0, block_items.len() as int) =~= items);
            assert(out@ =~= old(out)@ + function_text(function@, margin@));
        },
    }
}

impl PrettyPrint for Factor {
    open spec fn pretty(&self, indent: nat) -> Seq<char> {
        factor_text(self@, spaces(indent))
    }

    fn pretty_print(&self, indent: usize) -> (text: String) {
        let mut text = String::new();
        let margin = margin_of(indent);
        write_factor(&mut text, self, margin.as_str());
        assert(text@ =~= self.pretty(indent as nat));
        text
    }
}

impl PrettyPrint for Exp {
    open spec fn pretty(&self, indent: nat) -> Seq<char> {
        exp_text(self@, spaces(indent))
    }

    fn pretty_print(&self, indent: usize) -> (text: String) {
        let mut text = String::new();
        let margin = margin_of(indent);
        write_exp(&mut text, self, margin.as_str());
        assert(text@ =~= self.pretty(indent as nat));
        text
    }
}

impl PrettyPrint for Statement {
    open spec fn pretty(&self, indent: nat) -> Seq<char> {
        statement_text(self@, spaces(indent))
    }

    fn pretty_print(&self, indent: usize) -> (text: String) {
        let mut text = String::new();
        let margin = margin_of(indent);
        write_statement(&mut text, self, margin.as_str());
        assert(text@ =~= self.pretty(indent as nat));
        text
    }
}

impl PrettyPrint for Declaration {
    open spec fn pretty(&self, indent: nat) -> Seq<char> {
        declaration_text(self@, spaces(indent))
    }

    fn pretty_print(&self, indent: usize) -> (text: String) {
        let mut text = String::new();
        let margin = margin_of(indent);
        write_declaration(&mut text, self, margin.as_str());
        assert(text@ =~= self.pretty(indent as nat));
        text
    }
}

impl PrettyPrint for BlockItem {
    open spec fn pretty(&self, indent: nat) -> Seq<char> {
        block_item_text(self@, spaces(indent))
    }

    fn pretty_print(&self, indent: usize) -> (text: String) {
        let mut text = String::new();
        let margin = margin_of(indent);
        write_block_item(&mut text, self, margin.as_str());
        assert(text@ =~= self.pretty(indent as nat));
        text
    }
}

impl PrettyPrint for FunctionDeclaration {
    open spec fn pretty(&self, indent: nat) -> Seq<char> {
        function_text(self@, spaces(indent))
    }

    fn pretty_print(&self, indent: usize) -> (text: String) {
        let mut text = String::new();
        let margin = margin_of(indent);
        write_function(&mut text, self, margin.as_str());
        assert(text@ =~= self.pretty(indent as nat));
        text
    }
}

impl PrettyPrint for Program {
    open spec fn pretty(&self, indent: nat) -> Seq<char> {
        program_text(self@, spaces(indent))
    }

    fn pretty_print(&self, indent: usize) -> (text: String) {
        let mut text = String::new();
        let margin = margin_of(indent);
        match self {
            Program::Program(func_decl) => {
                text.append(margin.as_str());
                text.append("Program:\n");
                let inner_margin = deeper_margin(margin.as_str());
                write_function(&mut text, func_decl, inner_margin.as_str());
            },
        }
        assert(text@ =~= self.pretty(indent as nat));
        text
    }
}

/// Indenting by two columns more is the margin of the children.
pub proof fn lemma_spaces_deeper(indent: nat)
    ensures
        spaces(indent + 2) == deeper(spaces(indent)),
{
    reveal_strlit("  ");
    assert(spaces(indent + 2) =~= deeper(spaces(indent)));
}

} // verus!
