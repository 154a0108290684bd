//! Assembly: the expressions that replace JSX.
//!
//! A closed frame becomes a call of `$render` with the markup string and,
//! for each binding, a call of `$insert` with the binding's path and value.
//! A component becomes a call of the component with one object that holds
//! its props.

use crate::ast::{
    attributes_view, exprs_view, lemma_expr_view, properties_view, Attribute, AttributeValue,
    AttributeView, Expr, ExprView, Property, PropertyView, ValueView,
};
use crate::frame::{bindings_view, paths_of, Binding, BindingView, Template, TemplateView};
use crate::markup::{fragments_view, join, joined};
use crate::path::{distinct, path_view};
use vstd::prelude::*;
use vstd::string::StringExecFns;

verus! {

/// A prop of a component: a name with a literal string, or a name with an
/// expression to evaluate.
#[derive(Debug, PartialEq, Eq)]
pub enum Prop {
    Static { name: String, value: String },
    Dynamic { name: String, expression: Expr },
}

/// The value of a [`Prop`].
pub enum PropView {
    Static { name: Seq<char>, value: Seq<char> },
    Dynamic { name: Seq<char>, expression: ExprView },
}

impl View for Prop {
    type V = PropView;

    open spec fn view(&self) -> PropView {
        match self {
            Prop::Static { name, value } => PropView::Static { name: name@, value: value@ },
            Prop::Dynamic { name, expression } => PropView::Dynamic {
                name: name@,
                expression: expression@,
            },
        }
    }
}

/// The values of a sequence of props.
pub open spec fn props_view(v: Seq<Prop>) -> Seq<PropView> {
    v.map_values(|p: Prop| p@)
}

/// Whether `name` can be written as an identifier in JavaScript source, as
/// the syntax crate decides it.
pub uninterp spec fn identifier_name(name: Seq<char>) -> bool;

/// Calls `oxc_syntax::identifier::is_identifier_name`, which tells whether a
/// string is an identifier name of JavaScript. The answer depends on the
/// characters of the string alone; the contract gives it its name and
/// claims nothing else of it.
#[verifier::external_body]
fn is_identifier_name(name: &str) -> (out: bool)
    ensures
        out == identifier_name(name@),
{
    oxc_syntax::identifier::is_identifier_name(name)
}

impl AttributeView {
    /// The prop that an attribute gives: static where its value is a string
    /// literal, dynamic for every other value. An attribute without a value
    /// is the attribute set to `true`. A spread is no prop and gives none.
    pub open spec fn prop(self) -> Option<PropView> {
        match self.value {
            ValueView::Literal(s) => Some(PropView::Static { name: self.name, value: s }),
            ValueView::Expression(e) => Some(PropView::Dynamic { name: self.name, expression: e }),
            ValueView::Absent => Some(
                PropView::Dynamic {
                    name: self.name,
                    expression: ExprView::BooleanLiteral(true),
                },
            ),
            ValueView::Spread(_) => None,
        }
    }
}

impl PropView {
    pub open spec fn name(self) -> Seq<char> {
        match self {
            PropView::Static { name, .. } => name,
            PropView::Dynamic { name, .. } => name,
        }
    }

    /// The entry that the prop makes in the props object, given whether its
    /// name may stand there bare: a static prop gives its string as a
    /// literal, a dynamic one its expression; the key is the prop's name,
    /// quoted unless it may stand bare.
    pub open spec fn entry_with(self, bare: bool) -> PropertyView {
        match self {
            PropView::Static { name, value } => PropertyView {
                key: name,
                quoted: !bare,
                value: ExprView::StringLiteral(value),
            },
            PropView::Dynamic { name, expression } => PropertyView {
                key: name,
                quoted: !bare,
                value: expression,
            },
        }
    }

    /// The entry that the prop makes in the props object: its key stands
    /// bare exactly where it is an identifier name.
    pub open spec fn entry(self) -> PropertyView {
        self.entry_with(identifier_name(self.name()))
    }
}

/// The props that attributes give, in order.
pub open spec fn props_of(attributes: Seq<AttributeView>) -> Seq<PropView>
    decreases attributes.len(),
{
    if attributes.len() == 0 {
        Seq::empty()
    } else {
        let before = props_of(attributes.drop_last());
        match attributes.last().prop() {
            Some(prop) => before.push(prop),
            None => before,
        }
    }
}

/// The entries that props make, in order.
pub open spec fn entries_of(props: Seq<PropView>) -> Seq<PropertyView> {
    props.map_values(|p: PropView| p.entry())
}

/// The props object: one entry for each prop, in order.
pub open spec fn props_object(props: Seq<PropView>) -> ExprView {
    ExprView::Object(entries_of(props))
}

/// The call of the component `name` with its props.
pub open spec fn component_call(name: Seq<char>, props: Seq<PropView>) -> ExprView {
    ExprView::Call { callee: name, arguments: seq![props_object(props)] }
}

/// The steps of a path as numeric literals.
pub open spec fn steps_of(path: Seq<int>) -> Seq<ExprView> {
    path.map_values(|step: int| ExprView::NumericLiteral(step))
}

/// A path as an array literal of its steps.
pub open spec fn path_literal(path: Seq<int>) -> ExprView {
    ExprView::Array(steps_of(path))
}

/// The calls that apply bindings, in order.
pub open spec fn inserts_of(bindings: Seq<BindingView>) -> Seq<ExprView> {
    bindings.map_values(|b: BindingView| b.insert_call())
}

/// Different paths are different array literals.
pub proof fn lemma_path_literal_injective(p: Seq<int>, q: Seq<int>)
    requires
        path_literal(p) == path_literal(q),
    ensures
        p == q,
{
    assert(steps_of(p) == steps_of(q));
    assert(p.len() == steps_of(p).len());
    assert(q.len() == steps_of(q).len());
    assert forall|i: int| 0 <= i < p.len() implies p[i] == q[i] by {
        assert(steps_of(p)[i] == ExprView::NumericLiteral(p[i]));
        assert(steps_of(q)[i] == ExprView::NumericLiteral(q[i]));
    }
    assert(p =~= q);
}

impl BindingView {
    /// The call that applies the binding: `$insert(path, value)`.
    pub open spec fn insert_call(self) -> ExprView {
        ExprView::Call {
            callee: "$insert"@,
            arguments: seq![path_literal(self.path), self.value],
        }
    }
}

impl TemplateView {
    /// The call that instantiates the template: `$render` with the markup
    /// string, then the `$insert` call of each binding, in order.
    pub open spec fn render_call(self) -> ExprView {
        ExprView::Call {
            callee: "$render"@,
            arguments: seq![ExprView::StringLiteral(joined(self.markup))] + inserts_of(
                self.bindings,
            ),
        }
    }
}

/// An attribute whose value is a string literal gives a static prop with
/// that string, and its entry in the props object is that string as a
/// literal. An attribute with any other value gives a dynamic prop with that
/// value, and its entry is the value itself; where no value is written, the
/// value is `true`. A spread gives no prop.
pub proof fn lemma_prop_classification(a: AttributeView)
    ensures
        a.value matches ValueView::Literal(s) ==> a.prop() == Some(
            PropView::Static { name: a.name, value: s },
        ) && a.prop()->0.entry().value == ExprView::StringLiteral(s),
        a.value matches ValueView::Expression(e) ==> a.prop() == Some(
            PropView::Dynamic { name: a.name, expression: e },
        ) && a.prop()->0.entry().value == e,
        a.value is Absent ==> a.prop() == Some(
            PropView::Dynamic { name: a.name, expression: ExprView::BooleanLiteral(true) },
        ),
        a.value is Spread <==> a.prop() is None,
        a.prop() matches Some(p) ==> p.entry().key == a.name,
{
}

/// Assembly is a function of the props: the same name with the same props
/// gives the same call.
pub proof fn lemma_assembly_deterministic(
    name: Seq<char>,
    first: Seq<PropView>,
    second: Seq<PropView>,
)
    requires
        first == second,
    ensures
        component_call(name, first) == component_call(name, second),
{
}

/// The `$render` call of a template: after the markup it has one argument
/// for each binding, in order, the `$insert` call of that binding with the
/// binding's path as its first argument and the binding's value as its
/// second. Where no two bindings share a path, no two of these calls have
/// the same path array.
pub proof fn lemma_render_call_arguments(t: TemplateView)
    ensures
        t.render_call() matches ExprView::Call { callee, arguments } && {
            &&& callee == "$render"@
            &&& arguments.len() == 1 + t.bindings.len()
            &&& arguments[0] == ExprView::StringLiteral(joined(t.markup))
            &&& forall|i: int|
                0 <= i < t.bindings.len() ==> #[trigger] arguments[1 + i] == (ExprView::Call {
                    callee: "$insert"@,
                    arguments: seq![path_literal(t.bindings[i].path), t.bindings[i].value],
                })
            &&& distinct(paths_of(t.bindings)) ==> forall|i: int, j: int|
                0 <= i < t.bindings.len() && 0 <= j < t.bindings.len() && i != j ==> path_literal(
                    t.bindings[i].path,
                ) != path_literal(t.bindings[j].path)
        },
{
    if distinct(paths_of(t.bindings)) {
        assert forall|i: int, j: int|
            0 <= i < t.bindings.len() && 0 <= j < t.bindings.len() && i != j implies path_literal(
            t.bindings[i].path,
        ) != path_literal(t.bindings[j].path) by {
            assert(paths_of(t.bindings)[i] != paths_of(t.bindings)[j]);
            if path_literal(t.bindings[i].path) == path_literal(t.bindings[j].path) {
                lemma_path_literal_injective(t.bindings[i].path, t.bindings[j].path);
            }
        }
    }
}

impl Attribute {
    /// Classifies the attribute as a prop, where it gives one.
    pub fn into_prop(self) -> (out: Option<Prop>)
        ensures
            out is Some <==> self@.prop() is Some,
            out matches Some(prop) ==> self@.prop() == Some(prop@),
    {
        let Attribute { name, value } = self;
        match value {
            AttributeValue::Literal(s) => Some(Prop::Static { name, value: s }),
            AttributeValue::Expression(e) => Some(Prop::Dynamic { name, expression: e }),
            AttributeValue::Absent => Some(
                Prop::Dynamic { name, expression: Expr::BooleanLiteral(true) },
            ),
            AttributeValue::Spread(_) => None,
        }
    }
}

impl Prop {
    /// The prop's name.
    pub fn name(&self) -> (out: &str)
        ensures
            out@ == self@.name(),
    {
        match self {
            Prop::Static { name, .. } => name.as_str(),
            Prop::Dynamic { name, .. } => name.as_str(),
        }
    }

    /// The entry of the prop in the props object, given whether its name may
    /// stand bare as a key.
    pub fn into_entry_with(self, bare: bool) -> (out: Property)
        ensures
            out@ == self@.entry_with(bare),
    {
        match self {
            Prop::Static { name, value } => Property {
                key: name,
                quoted: !bare,
                value: Expr::StringLiteral(value),
            },
            Prop::Dynamic { name, expression } => Property {
                key: name,
                quoted: !bare,
                value: expression,
            },
        }
    }

    /// The entry of the prop in the props object.
    pub fn into_entry(self) -> (out: Property)
        ensures
            out@ == self@.entry(),
    {
        let bare = is_identifier_name(self.name());
        self.into_entry_with(bare)
    }
}

/// Classifies the attributes of a component as its props, in order.
pub fn collect_props(attributes: Vec<Attribute>) -> (out: Vec<Prop>)
    ensures
        props_view(out@) == props_of(attributes_view(attributes@)),
{
    let ghost given = attributes@;
    let ghost all = attributes_view(given);
    let mut out: Vec<Prop> = Vec::new();
    assert(all.take(0) =~= Seq::<AttributeView>::empty());
    assert(props_view(out@) =~= props_of(all.take(0)));
    for attribute in it: attributes
        invariant
            it.seq() == given,
            all == attributes_view(given),
            props_view(out@) == props_of(all.take(it.index() as int)),
    {
        let ghost before = out@;
        assert(attribute@ == all[it.index() as int]);
        assert(all.take(it.index() + 1).drop_last() =~= all.take(it.index() as int));
        match attribute.into_prop() {
            Some(prop) => {
                let ghost added = prop@;
                out.push(prop);
                assert(props_view(out@) =~= props_view(before).push(added));
            },
            None => {},
        }
    }
    assert(all.take(all.len() as int) =~= all);
    out
}

/// Builds the call of the component `name` with its props.
pub fn make_component_call(name: &str, props: Vec<Prop>) -> (out: Expr)
    ensures
        out@ == component_call(name@, props_view(props@)),
{
    let ghost given = props@;
    let ghost wanted = entries_of(props_view(given));
    let mut entries: Vec<Property> = Vec::new();
    for prop in it: props
        invariant
            it.seq() == given,
            wanted == entries_of(props_view(given)),
            properties_view(entries@) == wanted.take(it.index() as int),
    {
        let ghost before = entries@;
        let entry = prop.into_entry();
        let ghost added = entry@;
        entries.push(entry);
        assert(properties_view(entries@) =~= properties_view(before).push(added));
        assert(wanted.take(it.index() + 1) =~= wanted.take(it.index() as int).push(added));
    }
    assert(wanted.take(wanted.len() as int) =~= wanted);
    let object = Expr::Object(entries);
    let mut arguments: Vec<Expr> = Vec::new();
    arguments.push(object);
    let out = Expr::Call { callee: name.to_owned(), arguments };
    proof {
        lemma_expr_view(object);
        lemma_expr_view(out);
        assert(exprs_view(arguments@) =~= seq![props_object(props_view(given))]);
    }
    out
}

/// Builds the array literal of a path.
pub fn make_path_literal(path: &Vec<usize>) -> (out: Expr)
    ensures
        out@ == path_literal(path_view(path@)),
{
    let ghost wanted = steps_of(path_view(path@));
    let mut steps: Vec<Expr> = Vec::new();
    let mut i: usize = 0;
    while i < path.len()
        invariant
            i <= path.len(),
            wanted == steps_of(path_view(path@)),
            exprs_view(steps@) == wanted.take(i as int),
        decreases path.len() - i,
    {
        let ghost before = steps@;
        let step = Expr::NumericLiteral(path[i]);
        let ghost added = step@;
        steps.push(step);
        assert(exprs_view(steps@) =~= exprs_view(before).push(added));
        assert(wanted.take(i + 1) =~= wanted.take(i as int).push(added));
        i += 1;
    }
    assert(wanted.take(wanted.len() as int) =~= wanted);
    let out = Expr::Array(steps);
    proof {
        lemma_expr_view(out);
    }
    out
}

impl Binding {
    /// Builds the call that applies the binding.
    pub fn into_insert_call(self) -> (out: Expr)
        ensures
            out@ == self@.insert_call(),
    {
        let Binding { path, value } = self;
        let mut arguments: Vec<Expr> = Vec::new();
        arguments.push(make_path_literal(&path));
        arguments.push(value);
        let out = Expr::Call { callee: String::from_str("$insert"), arguments };
        proof {
            lemma_expr_view(out);
            assert(exprs_view(arguments@) =~= seq![path_literal(self@.path), self@.value]);
        }
        out
    }
}

impl Template {
    /// Builds the call that instantiates the template.
    pub fn into_render_call(self) -> (out: Expr)
        ensures
            out@ == self@.render_call(),
    {
        let Template { markup, bindings } = self;
        let ghost given = bindings@;
        let ghost wanted = inserts_of(bindings_view(given));
        let ghost text = joined(fragments_view(markup@));
        let mut arguments: Vec<Expr> = Vec::new();
        arguments.push(Expr::StringLiteral(join(&markup)));
        assert(exprs_view(arguments@) =~= seq![ExprView::StringLiteral(text)] + wanted.take(0));
        for binding in it: bindings
            invariant
                it.seq() == given,
                wanted == inserts_of(bindings_view(given)),
                exprs_view(arguments@) == seq![ExprView::StringLiteral(text)] + wanted.take(
                    it.index() as int,
                ),
        {
            let ghost before = arguments@;
            let call = binding.into_insert_call();
            let ghost added = call@;
            arguments.push(call);
            assert(exprs_view(arguments@) =~= exprs_view(before).push(added));
            assert(wanted.take(it.index() + 1) =~= wanted.take(it.index() as int).push(added));
        }
        assert(wanted.take(wanted.len() as int) =~= wanted);
        let out = Expr::Call { callee: String::from_str("$render"), arguments };
        proof {
            lemma_expr_view(out);
        }
        out
    }
}

} // verus!
