//! The bundle: one program made of the statements of many source units.
//!
//! A unit comes parsed. Adding it lowers every JSX element in it and puts
//! its statements behind those that are there, in their order. A default
//! export of a function declaration enters the program as the plain
//! declaration: between units joined into one program the export means
//! nothing.

use crate::ast::{
    exprs_view, statements_view, Expr, Statement, StatementKind, StatementView,
};
use crate::lowering::{is_supported, LowerError, Lowering};
use crate::transform::{lowered_all, supported, supported_all};
use vstd::prelude::*;

verus! {

/// A source unit, parsed: the name it goes by and its top-level statements.
#[derive(Debug, PartialEq, Eq)]
pub struct Unit {
    pub name: String,
    pub statements: Vec<Statement>,
}

/// Why a unit was refused.
#[derive(Debug, PartialEq, Eq)]
pub struct UnitError {
    /// The name of the unit.
    pub unit: String,
    pub error: LowerError,
}

/// The dialect in which source units are to be parsed.
#[derive(Debug, Clone, Copy, PartialEq, Eq, Structural)]
pub struct Dialect {
    pub jsx: bool,
    pub typescript: bool,
    pub module: bool,
}

/// How the program is to be written out.
#[derive(Debug, Clone, Copy, PartialEq, Eq, Structural)]
pub struct OutputStyle {
    pub single_quote: bool,
    pub minify: bool,
}

/// What a statement of the given kind is in the program: the default export
/// of a function declaration is the function declaration, every other
/// statement is what it was.
pub open spec fn kind_in_program(kind: StatementKind) -> StatementKind {
    match kind {
        StatementKind::ExportDefaultFunction => StatementKind::FunctionDeclaration,
        _ => kind,
    }
}

/// The statement with each of its expressions lowered.
pub open spec fn lowered_statement(s: StatementView) -> StatementView {
    StatementView { expressions: lowered_all(s.expressions), ..s }
}

/// The statements with each of their expressions lowered.
pub open spec fn lowered_statements(ss: Seq<StatementView>) -> Seq<StatementView> {
    ss.map_values(|s: StatementView| lowered_statement(s))
}

/// The statement as what it is in the program.
pub open spec fn normalized_statement(s: StatementView) -> StatementView {
    StatementView { kind: kind_in_program(s.kind), ..s }
}

/// The statements, each as what it is in the program.
pub open spec fn normalized_statements(ss: Seq<StatementView>) -> Seq<StatementView> {
    ss.map_values(|s: StatementView| normalized_statement(s))
}

/// The statements of a unit as they enter the program, in their order: each
/// with its expressions lowered, and as what it is in the program.
pub open spec fn statements_in_program(ss: Seq<StatementView>) -> Seq<StatementView> {
    normalized_statements(lowered_statements(ss))
}

/// Every element in the statements has a name that can be lowered.
pub open spec fn supported_statements(ss: Seq<StatementView>) -> bool {
    forall|i: int| 0 <= i < ss.len() ==> supported_all((#[trigger] ss[i]).expressions)
}

/// No statement among `ss` is the default export of a function declaration.
pub open spec fn no_default_export(ss: Seq<StatementView>) -> bool {
    forall|i: int| 0 <= i < ss.len() ==> (#[trigger] ss[i]).kind
        != StatementKind::ExportDefaultFunction
}

/// No statement is a default export of a function declaration once it is
/// what it is in the program.
pub proof fn lemma_normalized_no_default_export(ss: Seq<StatementView>)
    ensures
        no_default_export(normalized_statements(ss)),
{
}

/// What a statement of the given kind is in the program.
pub fn normalize_kind(kind: StatementKind) -> (out: StatementKind)
    ensures
        out == kind_in_program(kind),
{
    match kind {
        StatementKind::ExportDefaultFunction => StatementKind::FunctionDeclaration,
        StatementKind::FunctionDeclaration => StatementKind::FunctionDeclaration,
        StatementKind::Other => StatementKind::Other,
    }
}

/// Whether every element in the statements has a name that can be lowered.
pub fn are_supported(statements: &Vec<Statement>) -> (out: bool)
    ensures
        out == supported_statements(statements_view(statements@)),
{
    let mut i: usize = 0;
    while i < statements.len()
        invariant
            i <= statements.len(),
            forall|k: int|
                0 <= k < i ==> supported_all(
                    (#[trigger] statements_view(statements@)[k]).expressions,
                ),
        decreases statements.len() - i,
    {
        let expressions = &statements[i].expressions;
        let mut j: usize = 0;
        while j < expressions.len()
            invariant
                j <= expressions.len(),
                i < statements.len(),
                expressions == statements@[i as int].expressions,
                forall|k: int| 0 <= k < j ==> supported(#[trigger] exprs_view(expressions@)[k]),
            decreases expressions.len() - j,
        {
            if !is_supported(&expressions[j]) {
                assert(!supported(exprs_view(expressions@)[j as int]));
                assert(!supported_all(statements_view(statements@)[i as int].expressions));
                return false;
            }
            j += 1;
        }
        assert(supported_all(statements_view(statements@)[i as int].expressions));
        i += 1;
    }
    true
}

/// Lowers every expression of the statements of a unit in which every
/// element can be lowered. The statements stay what they are, in their
/// order.
pub fn lower_program(statements: Vec<Statement>) -> (out: Vec<Statement>)
    requires
        supported_statements(statements_view(statements@)),
    ensures
        statements_view(out@) == lowered_statements(statements_view(statements@)),
{
    let ghost given = statements@;
    let ghost wanted = lowered_statements(statements_view(given));
    let mut walk = Lowering::new();
    let mut out: Vec<Statement> = Vec::new();
    for statement in it: statements
        invariant
            it.seq() == given,
            wanted == lowered_statements(statements_view(given)),
            supported_statements(statements_view(given)),
            walk.wf(),
            walk@.len() == 0,
            statements_view(out@) == wanted.take(it.index() as int),
    {
        let ghost before = out@;
        assert(statement == given[it.index() as int]);
        assert(supported_all(statements_view(given)[it.index() as int].expressions));
        let Statement { kind, label, expressions } = statement;
        let ghost inputs = expressions@;
        let ghost outputs = lowered_all(exprs_view(inputs));
        let mut lowered_expressions: Vec<Expr> = Vec::new();
        for e in inner: expressions
            invariant
                inner.seq() == inputs,
                outputs == lowered_all(exprs_view(inputs)),
                supported_all(exprs_view(inputs)),
                walk.wf(),
                walk@.len() == 0,
                exprs_view(lowered_expressions@) == outputs.take(inner.index() as int),
        {
            let ghost so_far = lowered_expressions@;
            assert(e == inputs[inner.index() as int]);
            assert(supported(exprs_view(inputs)[inner.index() as int]));
            let call = walk.lower_expr(e);
            let ghost added = call@;
            lowered_expressions.push(call);
            assert(exprs_view(lowered_expressions@) =~= exprs_view(so_far).push(added));
            assert(outputs.take(inner.index() + 1) =~= outputs.take(inner.index() as int).push(
                added,
            ));
        }
        assert(outputs.take(outputs.len() as int) =~= outputs);
        let entry = Statement { kind, label, expressions: lowered_expressions };
        let ghost added = entry@;
        out.push(entry);
        assert(statements_view(out@) =~= statements_view(before).push(added));
        assert(wanted.take(it.index() + 1) =~= wanted.take(it.index() as int).push(added));
    }
    assert(wanted.take(wanted.len() as int) =~= wanted);
    out
}

/// Makes each statement of a unit what it is in a program: the default
/// export of a function declaration becomes the function declaration.
/// Nothing else changes.
pub fn exit_program(statements: Vec<Statement>) -> (out: Vec<Statement>)
    ensures
        statements_view(out@) == normalized_statements(statements_view(statements@)),
        no_default_export(statements_view(out@)),
{
    let ghost given = statements@;
    let ghost wanted = normalized_statements(statements_view(given));
    let mut out: Vec<Statement> = Vec::new();
    for statement in it: statements
        invariant
            it.seq() == given,
            wanted == normalized_statements(statements_view(given)),
            statements_view(out@) == wanted.take(it.index() as int),
    {
        let ghost before = out@;
        let Statement { kind, label, expressions } = statement;
        let entry = Statement { kind: normalize_kind(kind), label, expressions };
        let ghost added = entry@;
        out.push(entry);
        assert(statements_view(out@) =~= statements_view(before).push(added));
        assert(wanted.take(it.index() + 1) =~= wanted.take(it.index() as int).push(added));
    }
    assert(wanted.take(wanted.len() as int) =~= wanted);
    out
}

/// A program under construction.
#[derive(Debug)]
pub struct Bundle {
    program: Vec<Statement>,
}

impl View for Bundle {
    type V = Seq<StatementView>;

    /// The statements of the program, in order.
    closed spec fn view(&self) -> Seq<StatementView> {
        statements_view(self.program@)
    }
}

impl Bundle {
    /// What holds of every bundle: no statement of its program is the
    /// default export of a function declaration.
    pub open spec fn wf(&self) -> bool {
        no_default_export(self@)
    }

    /// The empty program.
    pub fn new() -> (out: Bundle)
        ensures
            out@ == Seq::<StatementView>::empty(),
            out.wf(),
    {
        let out = Bundle { program: Vec::new() };
        assert(out@ =~= Seq::<StatementView>::empty());
        out
    }

    /// The dialect in which source units are to be parsed: JSX and type
    /// annotations are read, and a unit is a module.
    pub fn dialect() -> (out: Dialect)
        ensures
            out == (Dialect { jsx: true, typescript: true, module: true }),
    {
        Dialect { jsx: true, typescript: true, module: true }
    }

    /// How the program is to be written out: strings in single quotes,
    /// nothing minified.
    pub fn output_style() -> (out: OutputStyle)
        ensures
            out == (OutputStyle { single_quote: true, minify: false }),
    {
        OutputStyle { single_quote: true, minify: false }
    }

    /// Adds a unit: its statements, as they enter a program, are put behind
    /// those that are there. A unit that holds an element whose name cannot
    /// be lowered is refused as a whole, and the program stays as it was.
    pub fn add(&mut self, unit: Unit) -> (out: Result<(), UnitError>)
        requires
            old(self).wf(),
        ensures
            final(self).wf(),
            supported_statements(unit@.statements) ==> out is Ok && final(self)@ == old(self)@
                + statements_in_program(unit@.statements),
            !supported_statements(unit@.statements) ==> final(self)@ == old(self)@ && (out
                matches Err(e) && e.unit@ == unit@.name && e.error
                == LowerError::UnsupportedElement),
    {
        let Unit { name, statements } = unit;
        if !are_supported(&statements) {
            return Err(UnitError { unit: name, error: LowerError::UnsupportedElement });
        }
        let ghost before = self@;
        let ghost added = statements_in_program(statements_view(statements@));
        let mut entering = exit_program(lower_program(statements));
        self.program.append(&mut entering);
        assert(self@ =~= before + added);
        Ok(())
    }

    /// The statements of the program, in order.
    pub fn program(&self) -> (out: &Vec<Statement>)
        ensures
            statements_view(out@) == self@,
    {
        &self.program
    }

    /// The number of statements of the program.
    pub fn len(&self) -> (out: usize)
        ensures
            out == self@.len(),
    {
        self.program.len()
    }
}

/// The value of a [`Unit`].
pub struct UnitView {
    pub name: Seq<char>,
    pub statements: Seq<StatementView>,
}

impl View for Unit {
    type V = UnitView;

    open spec fn view(&self) -> UnitView {
        UnitView { name: self.name@, statements: statements_view(self.statements@) }
    }
}

} // verus!
