//! The syntax the transform reads and writes.
//!
//! A tree of these types holds of a parsed source unit exactly what the
//! transform looks at: JSX elements with their names, attributes and
//! children, and around them expressions, of which only the shape matters.
//! Every type has a view, its mathematical value, over which the contracts
//! of the other modules are stated.

use vstd::prelude::*;

verus! {

/// What a JSX element compiles to, decided once from the syntax of its name.
#[derive(Debug, Clone, Copy, PartialEq, Eq, Structural)]
pub enum NodeKind {
    /// A tag that is known statically; it becomes template markup.
    HostElement,
    /// A reference to something callable; it becomes a call at run time.
    Component,
}

/// The name of a JSX element, by the syntactic form it was written in.
#[derive(Debug, Clone, PartialEq, Eq)]
pub enum ElementName {
    /// An intrinsic tag: `<div>`.
    Identifier(String),
    /// A reference to a binding in scope: `<Foo>`.
    IdentifierReference(String),
    /// A namespaced name, written out with its colon: `<svg:circle>`.
    NamespacedName(String),
    /// A member access, written out with its dots: `<Menu.Item>`.
    MemberExpression(String),
    /// The bare `this`: `<this>`.
    This,
    /// No name at all, as a fragment has it: `<>`.
    Fragment,
}

/// The value of an attribute.
#[derive(Debug, PartialEq, Eq)]
pub enum AttributeValue {
    /// A string literal: `title="Hello"`.
    Literal(String),
    /// Any other value, as an expression: `title={t}`.
    Expression(Expr),
    /// No value at all: `disabled`.
    Absent,
    /// Not one attribute but all that an object holds: `{...rest}`. The
    /// attribute has no name of its own.
    Spread(Expr),
}

/// One attribute of a JSX element.
#[derive(Debug, PartialEq, Eq)]
pub struct Attribute {
    pub name: String,
    pub value: AttributeValue,
}

/// One child of a JSX element.
#[derive(Debug, PartialEq, Eq)]
pub enum JsxChild {
    /// Literal text, as written, with its line breaks and indentation.
    Text(String),
    /// A nested element.
    Element(Element),
    /// An embedded expression: `{x}`.
    Expression(Expr),
    /// Braces that hold no expression: `{}`, or a comment in braces.
    Empty,
    /// A spread in child position: `{...xs}`.
    Spread(Expr),
}

/// A JSX element.
#[derive(Debug, PartialEq, Eq)]
pub struct Element {
    pub name: ElementName,
    pub attributes: Vec<Attribute>,
    pub children: Vec<JsxChild>,
}

/// One entry of an object literal. A quoted key is written as a string
/// literal, an unquoted one as an identifier.
#[derive(Debug, PartialEq, Eq)]
pub struct Property {
    pub key: String,
    pub quoted: bool,
    pub value: Expr,
}

/// An expression.
#[derive(Debug, PartialEq, Eq)]
pub enum Expr {
    /// A reference to a binding by name.
    Identifier(String),
    /// A string literal, by its value.
    StringLiteral(String),
    /// A non-negative integer literal.
    NumericLiteral(usize),
    /// `true` or `false`.
    BooleanLiteral(bool),
    /// An array literal.
    Array(Vec<Expr>),
    /// An object literal.
    Object(Vec<Property>),
    /// A call of the function that `callee` names.
    Call { callee: String, arguments: Vec<Expr> },
    /// A JSX element in expression position.
    Element(Element),
    /// Any other form of expression. The label identifies it to whoever
    /// built the tree; the operands are its sub-expressions in source order.
    Opaque { label: String, operands: Vec<Expr> },
}

/// What a top-level statement is, as far as a bundle cares.
#[derive(Debug, Clone, Copy, PartialEq, Eq, Structural)]
pub enum StatementKind {
    /// `export default function f() { .. }`
    ExportDefaultFunction,
    /// `function f() { .. }`
    FunctionDeclaration,
    /// Any other statement.
    Other,
}

/// A top-level statement. The label identifies it to whoever built the
/// tree; the expressions are those it contains, in source order.
#[derive(Debug, PartialEq, Eq)]
pub struct Statement {
    pub kind: StatementKind,
    pub label: String,
    pub expressions: Vec<Expr>,
}

/// The value of an [`ElementName`].
pub enum NameView {
    Identifier(Seq<char>),
    IdentifierReference(Seq<char>),
    NamespacedName(Seq<char>),
    MemberExpression(Seq<char>),
    This,
    Fragment,
}

/// The value of an [`AttributeValue`].
pub enum ValueView {
    Literal(Seq<char>),
    Expression(ExprView),
    Absent,
    Spread(ExprView),
}

/// The value of an [`Attribute`].
pub struct AttributeView {
    pub name: Seq<char>,
    pub value: ValueView,
}

/// The value of a [`JsxChild`].
pub enum ChildView {
    Text(Seq<char>),
    Element(ElementView),
    Expression(ExprView),
    Empty,
    Spread(ExprView),
}

/// The value of an [`Element`].
pub struct ElementView {
    pub name: NameView,
    pub attributes: Seq<AttributeView>,
    pub children: Seq<ChildView>,
}

/// The value of a [`Property`].
pub struct PropertyView {
    pub key: Seq<char>,
    pub quoted: bool,
    pub value: ExprView,
}

/// The value of an [`Expr`].
pub enum ExprView {
    Identifier(Seq<char>),
    StringLiteral(Seq<char>),
    NumericLiteral(int),
    BooleanLiteral(bool),
    Array(Seq<ExprView>),
    Object(Seq<PropertyView>),
    Call { callee: Seq<char>, arguments: Seq<ExprView> },
    Element(ElementView),
    Opaque { label: Seq<char>, operands: Seq<ExprView> },
}

/// The value of a [`Statement`].
pub struct StatementView {
    pub kind: StatementKind,
    pub label: Seq<char>,
    pub expressions: Seq<ExprView>,
}

impl View for ElementName {
    type V = NameView;

    open spec fn view(&self) -> NameView {
        match self {
            ElementName::Identifier(s) => NameView::Identifier(s@),
            ElementName::IdentifierReference(s) => NameView::IdentifierReference(s@),
            ElementName::NamespacedName(s) => NameView::NamespacedName(s@),
            ElementName::MemberExpression(s) => NameView::MemberExpression(s@),
            ElementName::This => NameView::This,
            ElementName::Fragment => NameView::Fragment,
        }
    }
}

impl View for AttributeValue {
    type V = ValueView;

    open spec fn view(&self) -> ValueView
        decreases self,
    {
        match self {
            AttributeValue::Literal(s) => ValueView::Literal(s@),
            AttributeValue::Expression(e) => ValueView::Expression(e.view()),
            AttributeValue::Absent => ValueView::Absent,
            AttributeValue::Spread(e) => ValueView::Spread(e.view()),
        }
    }
}

impl View for Attribute {
    type V = AttributeView;

    open spec fn view(&self) -> AttributeView
        decreases self,
    {
        AttributeView { name: self.name@, value: self.value.view() }
    }
}

impl View for JsxChild {
    type V = ChildView;

    open spec fn view(&self) -> ChildView
        decreases self,
    {
        match self {
            JsxChild::Text(s) => ChildView::Text(s@),
            JsxChild::Element(e) => ChildView::Element(e.view()),
            JsxChild::Expression(e) => ChildView::Expression(e.view()),
            JsxChild::Empty => ChildView::Empty,
            JsxChild::Spread(e) => ChildView::Spread(e.view()),
        }
    }
}

impl View for Element {
    type V = ElementView;

    open spec fn view(&self) -> ElementView
        decreases self,
    {
        ElementView {
            name: self.name@,
            attributes: Seq::new(
                self.attributes.len() as nat,
                |i: int|
                    if 0 <= i < self.attributes.len() {
                        self.attributes[i].view()
                    } else {
                        AttributeView {
                            name: Seq::empty(),
                            value: ValueView::Literal(Seq::empty()),
                        }
                    },
            ),
            children: Seq::new(
                self.children.len() as nat,
                |i: int|
                    if 0 <= i < self.children.len() {
                        self.children[i].view()
                    } else {
                        ChildView::Text(Seq::empty())
                    },
            ),
        }
    }
}

impl View for Property {
    type V = PropertyView;

    open spec fn view(&self) -> PropertyView
        decreases self,
    {
        PropertyView { key: self.key@, quoted: self.quoted, value: self.value.view() }
    }
}

impl View for Expr {
    type V = ExprView;

    open spec fn view(&self) -> ExprView
        decreases self,
    {
        match self {
            Expr::Identifier(s) => ExprView::Identifier(s@),
            Expr::StringLiteral(s) => ExprView::StringLiteral(s@),
            Expr::NumericLiteral(n) => ExprView::NumericLiteral(*n as int),
            Expr::BooleanLiteral(b) => ExprView::BooleanLiteral(*b),
            Expr::Array(items) => ExprView::Array(
                Seq::new(
                    items.len() as nat,
                    |i: int|
                        if 0 <= i < items.len() {
                            items[i].view()
                        } else {
                            ExprView::NumericLiteral(0)
                        },
                ),
            ),
            Expr::Object(properties) => ExprView::Object(
                Seq::new(
                    properties.len() as nat,
                    |i: int|
                        if 0 <= i < properties.len() {
                            properties[i].view()
                        } else {
                            PropertyView {
                                key: Seq::empty(),
                                quoted: false,
                                value: ExprView::NumericLiteral(0),
                            }
                        },
                ),
            ),
            Expr::Call { callee, arguments } => ExprView::Call {
                callee: callee@,
                arguments: Seq::new(
                    arguments.len() as nat,
                    |i: int|
                        if 0 <= i < arguments.len() {
                            arguments[i].view()
                        } else {
                            ExprView::NumericLiteral(0)
                        },
                ),
            },
            Expr::Element(e) => ExprView::Element(e.view()),
            Expr::Opaque { label, operands } => ExprView::Opaque {
                label: label@,
                operands: Seq::new(
                    operands.len() as nat,
                    |i: int|
                        if 0 <= i < operands.len() {
                            operands[i].view()
                        } else {
                            ExprView::NumericLiteral(0)
                        },
                ),
            },
        }
    }
}

/// The values of a sequence of expressions.
pub open spec fn exprs_view(v: Seq<Expr>) -> Seq<ExprView> {
    v.map_values(|e: Expr| e@)
}

/// The values of a sequence of properties.
pub open spec fn properties_view(v: Seq<Property>) -> Seq<PropertyView> {
    v.map_values(|p: Property| p@)
}

/// The values of a sequence of attributes.
pub open spec fn attributes_view(v: Seq<Attribute>) -> Seq<AttributeView> {
    v.map_values(|a: Attribute| a@)
}

/// The values of a sequence of children.
pub open spec fn children_view(v: Seq<JsxChild>) -> Seq<ChildView> {
    v.map_values(|c: JsxChild| c@)
}

impl View for Statement {
    type V = StatementView;

    open spec fn view(&self) -> StatementView {
        StatementView {
            kind: self.kind,
            label: self.label@,
            expressions: exprs_view(self.expressions@),
        }
    }
}

/// The values of a sequence of statements.
pub open spec fn statements_view(v: Seq<Statement>) -> Seq<StatementView> {
    v.map_values(|s: Statement| s@)
}

/// The view of each compound expression, over the views of its parts.
pub proof fn lemma_expr_view(e: Expr)
    ensures
        e matches Expr::Array(items) ==> e@ == ExprView::Array(exprs_view(items@)),
        e matches Expr::Object(properties) ==> e@ == ExprView::Object(
            properties_view(properties@),
        ),
        e matches Expr::Call { callee, arguments } ==> e@ == (ExprView::Call {
            callee: callee@,
            arguments: exprs_view(arguments@),
        }),
        e matches Expr::Opaque { label, operands } ==> e@ == (ExprView::Opaque {
            label: label@,
            operands: exprs_view(operands@),
        }),
{
    match e {
        Expr::Array(items) => {
            assert(e@->Array_0 =~= exprs_view(items@));
        },
        Expr::Object(properties) => {
            assert(e@->Object_0 =~= properties_view(properties@));
        },
        Expr::Call { callee, arguments } => {
            assert(e@->Call_arguments =~= exprs_view(arguments@));
        },
        Expr::Opaque { label, operands } => {
            assert(e@->Opaque_operands =~= exprs_view(operands@));
        },
        _ => {},
    }
}

/// The view of an element, over the views of its parts.
pub proof fn lemma_element_view(e: Element)
    ensures
        e@ == (ElementView {
            name: e.name@,
            attributes: attributes_view(e.attributes@),
            children: children_view(e.children@),
        }),
{
    assert(e@.attributes =~= attributes_view(e.attributes@));
    assert(e@.children =~= children_view(e.children@));
}

} // verus!
