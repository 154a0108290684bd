//! What the transform computes, as mathematics.
//!
//! [`lowered`] is the expression that replaces an expression: every JSX
//! element in it has become a call. The call of a host element renders its
//! template, [`template_of`]: the markup of the element and the bindings
//! found in it, each at the path of sibling indices that leads to its
//! placeholder.
//!
//! [`after_children`] is the same said as a walk: the frame that the
//! children of an element leave behind, one step after the other. The two
//! agree ([`lemma_template_is`]), and what holds of every frame holds of
//! every template: its tags pair up, each placeholder has its binding, no
//! two bindings share a path, and the bindings stand in ascending order of
//! their paths.

use crate::assembly::{component_call, lemma_render_call_arguments, path_literal, props_of};
use crate::ast::{
    AttributeView, ChildView, ElementView, ExprView, NameView, NodeKind, PropertyView, ValueView,
};
use crate::frame::{
    lemma_ascending_order_unique, lemma_binding_wf, lemma_closed_wf, lemma_new_wf,
    lemma_opened_wf, lemma_placeholders_of_template, lemma_template_wf, lemma_text_wf, paths_of,
    BindingView, FrameView, TemplateView,
};
use crate::markup::{
    anchors, balanced, joined, lemma_joined_add, lemma_push, placeholders, plain, FragmentView,
};
use crate::path::{ascending, lemma_ascending_distinct};
use crate::text::trimmed;
use vstd::prelude::*;

verus! {

/// The name of an element as text, with what the element is: an intrinsic
/// tag is a host element, a reference, a member access and a namespaced
/// name are components. The bare `this` is neither, and a fragment has no
/// name.
pub open spec fn classified(name: NameView) -> Option<(Seq<char>, NodeKind)> {
    match name {
        NameView::Identifier(s) => Some((s, NodeKind::HostElement)),
        NameView::IdentifierReference(s) => Some((s, NodeKind::Component)),
        NameView::NamespacedName(s) => Some((s, NodeKind::Component)),
        NameView::MemberExpression(s) => Some((s, NodeKind::Component)),
        NameView::This => None,
        NameView::Fragment => None,
    }
}

/// Every element in `e` has a name that can be lowered.
pub open spec fn supported(e: ExprView) -> bool
    decreases e,
{
    match e {
        ExprView::Element(el) => supported_element(el),
        ExprView::Array(items) => supported_all(items),
        ExprView::Object(properties) => supported_properties(properties),
        ExprView::Call { callee, arguments } => supported_all(arguments),
        ExprView::Opaque { label, operands } => supported_all(operands),
        _ => true,
    }
}

/// Every element in the expressions `es` has a name that can be lowered.
pub open spec fn supported_all(es: Seq<ExprView>) -> bool
    decreases es,
{
    forall|i: int| 0 <= i < es.len() ==> supported(#[trigger] es[i])
}

/// Every element in the values of the properties `ps` has a name that can
/// be lowered.
pub open spec fn supported_properties(ps: Seq<PropertyView>) -> bool
    decreases ps,
{
    forall|i: int| 0 <= i < ps.len() ==> supported((#[trigger] ps[i]).value)
}

/// Every element in the value of the attribute has a name that can be
/// lowered.
pub open spec fn supported_attribute(a: AttributeView) -> bool
    decreases a,
{
    match a.value {
        ValueView::Literal(_) => true,
        ValueView::Expression(e) => supported(e),
        ValueView::Absent => true,
        ValueView::Spread(e) => supported(e),
    }
}

/// Every element in the values of the attributes has a name that can be
/// lowered.
pub open spec fn supported_attributes(attributes: Seq<AttributeView>) -> bool
    decreases attributes,
{
    forall|i: int| 0 <= i < attributes.len() ==> supported_attribute(#[trigger] attributes[i])
}

/// The element and every element in it have names that can be lowered.
pub open spec fn supported_element(el: ElementView) -> bool
    decreases el,
{
    &&& classified(el.name) is Some
    &&& supported_attributes(el.attributes)
    &&& supported_children(el.children)
}

/// Every element in the child has a name that can be lowered.
pub open spec fn supported_child(c: ChildView) -> bool
    decreases c,
{
    match c {
        ChildView::Text(_) => true,
        ChildView::Element(el) => supported_element(el),
        ChildView::Expression(e) => supported(e),
        ChildView::Empty => true,
        ChildView::Spread(e) => supported(e),
    }
}

/// Every element in the children has a name that can be lowered.
pub open spec fn supported_children(cs: Seq<ChildView>) -> bool
    decreases cs,
{
    forall|i: int| 0 <= i < cs.len() ==> supported_child(#[trigger] cs[i])
}

/// The expression that replaces `e`: `e` with every JSX element in it
/// replaced by its call, innermost first.
pub open spec fn lowered(e: ExprView) -> ExprView
    decreases e,
{
    match e {
        ExprView::Element(el) => lowered_element(el),
        ExprView::Array(items) => ExprView::Array(lowered_all(items)),
        ExprView::Object(properties) => ExprView::Object(lowered_properties(properties)),
        ExprView::Call { callee, arguments } => ExprView::Call {
            callee,
            arguments: lowered_all(arguments),
        },
        ExprView::Opaque { label, operands } => ExprView::Opaque {
            label,
            operands: lowered_all(operands),
        },
        _ => e,
    }
}

/// Each expression of `es`, lowered.
pub open spec fn lowered_all(es: Seq<ExprView>) -> Seq<ExprView>
    decreases es,
{
    Seq::new(
        es.len(),
        |i: int|
            if 0 <= i < es.len() {
                lowered(es[i])
            } else {
                ExprView::NumericLiteral(0)
            },
    )
}

/// Each property of `ps` with its value lowered.
pub open spec fn lowered_properties(ps: Seq<PropertyView>) -> Seq<PropertyView>
    decreases ps,
{
    Seq::new(
        ps.len(),
        |i: int|
            if 0 <= i < ps.len() {
                PropertyView { value: lowered(ps[i].value), ..ps[i] }
            } else {
                PropertyView {
                    key: Seq::empty(),
                    quoted: false,
                    value: ExprView::NumericLiteral(0),
                }
            },
    )
}

/// The attribute with its value lowered.
pub open spec fn lowered_attribute(a: AttributeView) -> AttributeView
    decreases a,
{
    match a.value {
        ValueView::Literal(_) => a,
        ValueView::Expression(e) => AttributeView {
            name: a.name,
            value: ValueView::Expression(lowered(e)),
        },
        ValueView::Absent => a,
        ValueView::Spread(e) => AttributeView {
            name: a.name,
            value: ValueView::Spread(lowered(e)),
        },
    }
}

/// Each attribute of `attributes` with its value lowered.
pub open spec fn lowered_attributes(attributes: Seq<AttributeView>) -> Seq<AttributeView>
    decreases attributes,
{
    Seq::new(
        attributes.len(),
        |i: int|
            if 0 <= i < attributes.len() {
                lowered_attribute(attributes[i])
            } else {
                AttributeView { name: Seq::empty(), value: ValueView::Literal(Seq::empty()) }
            },
    )
}

/// The call that replaces a JSX element in expression position. A host
/// element becomes the `$render` call of its template, a component its own
/// call. An element whose name cannot be lowered stays.
pub open spec fn lowered_element(el: ElementView) -> ExprView
    decreases el, 1nat,
{
    match classified(el.name) {
        Some((name, NodeKind::HostElement)) => template_of(name, el).render_call(),
        Some((name, NodeKind::Component)) => component_call_of(name, el),
        None => ExprView::Element(el),
    }
}

/// The call of the component `name` that the element `el` is: its
/// attributes, their values lowered, are its props.
pub open spec fn component_call_of(name: Seq<char>, el: ElementView) -> ExprView
    decreases el, 0nat,
{
    component_call(name, props_of(lowered_attributes(el.attributes)))
}

/// The template of the host element `el`, whose name is `name`: its markup
/// is the element's opening tag, the markup of its children and its closing
/// tag; its bindings are those of its children, which stand below the root,
/// the first of them at the path `[0]`.
pub open spec fn template_of(name: Seq<char>, el: ElementView) -> TemplateView
    decreases el, 0nat,
{
    TemplateView {
        markup: seq![FragmentView::Open(name)] + markup_of(el.children) + seq![
            FragmentView::Close(name),
        ],
        bindings: bindings_of(el.children, Seq::empty(), 0),
    }
}

/// The number of positions that a child takes among its siblings: none for
/// a text without content, for braces without an expression and for a
/// spread, one for everything else that is lowered.
pub open spec fn positions_of_child(c: ChildView) -> int {
    match c {
        ChildView::Text(t) => if trimmed(t).len() > 0 {
            1
        } else {
            0
        },
        ChildView::Expression(_) => 1,
        ChildView::Empty => 0,
        ChildView::Spread(_) => 0,
        ChildView::Element(el) => if classified(el.name) is Some {
            1
        } else {
            0
        },
    }
}

/// The number of positions that the children take together.
pub open spec fn positions(cs: Seq<ChildView>) -> int
    decreases cs.len(),
{
    if cs.len() == 0 {
        0
    } else {
        positions(cs.drop_last()) + positions_of_child(cs.last())
    }
}

/// The markup of a child: the content of a text, a placeholder for an
/// embedded expression and for a component, and for a host element its two
/// tags around the markup of its children. Braces that hold no expression,
/// and a spread, give none.
pub open spec fn markup_of_child(c: ChildView) -> Seq<FragmentView>
    decreases c,
{
    match c {
        ChildView::Text(t) => if trimmed(t).len() > 0 {
            seq![FragmentView::Text(trimmed(t))]
        } else {
            Seq::empty()
        },
        ChildView::Expression(_) => seq![FragmentView::Anchor],
        ChildView::Empty => Seq::empty(),
        ChildView::Spread(_) => Seq::empty(),
        ChildView::Element(el) => match classified(el.name) {
            Some((name, NodeKind::HostElement)) => seq![FragmentView::Open(name)] + markup_of(
                el.children,
            ) + seq![FragmentView::Close(name)],
            Some((name, NodeKind::Component)) => seq![FragmentView::Anchor],
            None => Seq::empty(),
        },
    }
}

/// The markup of children: that of each, in order.
pub open spec fn markup_of(cs: Seq<ChildView>) -> Seq<FragmentView>
    decreases cs,
{
    if cs.len() == 0 {
        Seq::empty()
    } else {
        markup_of(cs.drop_last()) + markup_of_child(cs.last())
    }
}

/// The bindings of a child that stands at the path `at`: an embedded
/// expression and a component are bound at `at` itself, the bindings of a
/// host element are those of its children, which stand below `at`.
pub open spec fn bindings_of_child(c: ChildView, at: Seq<int>) -> Seq<BindingView>
    decreases c,
{
    match c {
        ChildView::Text(_) => Seq::empty(),
        ChildView::Expression(e) => seq![BindingView { path: at, value: lowered(e) }],
        ChildView::Empty => Seq::empty(),
        ChildView::Spread(_) => Seq::empty(),
        ChildView::Element(el) => match classified(el.name) {
            Some((name, NodeKind::HostElement)) => bindings_of(el.children, at, 0),
            Some((name, NodeKind::Component)) => seq![
                BindingView { path: at, value: component_call_of(name, el) },
            ],
            None => Seq::empty(),
        },
    }
}

/// The bindings of the children of the node at the path `parent`, where
/// the first of them takes position `first`: each child stands at the path
/// of its parent followed by its own position, which is `first` and the
/// number of positions that the children before it take.
pub open spec fn bindings_of(cs: Seq<ChildView>, parent: Seq<int>, first: int) -> Seq<
    BindingView,
>
    decreases cs,
{
    if cs.len() == 0 {
        Seq::empty()
    } else {
        bindings_of(cs.drop_last(), parent, first) + bindings_of_child(
            cs.last(),
            parent.push(first + positions(cs.drop_last())),
        )
    }
}

/// The children that take a position, in order: child `k` of the node in
/// the instantiated template.
pub open spec fn placed(cs: Seq<ChildView>) -> Seq<ChildView>
    decreases cs.len(),
{
    if cs.len() == 0 {
        Seq::empty()
    } else if positions_of_child(cs.last()) == 1 {
        placed(cs.drop_last()).push(cs.last())
    } else {
        placed(cs.drop_last())
    }
}

/// The node that `path` leads to from a node with the children `cs`: each
/// step picks a child by its position, and every step but the last enters a
/// host element. `None` where the path leads nowhere.
pub open spec fn node_at(cs: Seq<ChildView>, path: Seq<int>) -> Option<ChildView>
    decreases path.len(),
{
    if path.len() == 0 || !(0 <= path[0] < placed(cs).len()) {
        None
    } else if path.len() == 1 {
        Some(placed(cs)[path[0]])
    } else {
        match placed(cs)[path[0]] {
            ChildView::Element(el) => match classified(el.name) {
                Some((name, NodeKind::HostElement)) => node_at(el.children, path.drop_first()),
                _ => None,
            },
            _ => None,
        }
    }
}

/// What is bound where the child stands: an embedded expression, lowered,
/// or the call of a component. Nothing is bound to a text or to a host
/// element.
pub open spec fn bound_value(c: ChildView) -> Option<ExprView> {
    match c {
        ChildView::Expression(e) => Some(lowered(e)),
        ChildView::Element(el) => match classified(el.name) {
            Some((name, NodeKind::Component)) => Some(component_call_of(name, el)),
            _ => None,
        },
        ChildView::Text(_) => None,
        ChildView::Empty => None,
        ChildView::Spread(_) => None,
    }
}

/// The frame `f` after one child of its innermost open element.
///
/// A text adds its content, where that is not empty. Braces that hold no
/// expression, and a spread, leave the frame as it is. An embedded expression
/// is bound, lowered, at the place it stands. A nested host element adds its
/// two tags around what its own children add, one level deeper. A nested
/// component is bound as its call: whatever stands inside it is no part of
/// this template.
pub open spec fn after_child(f: FrameView, c: ChildView) -> FrameView
    decreases c,
{
    match c {
        ChildView::Text(t) => if trimmed(t).len() > 0 {
            f.with_text(trimmed(t))
        } else {
            f
        },
        ChildView::Expression(e) => f.with_binding(lowered(e)),
        ChildView::Empty => f,
        ChildView::Spread(_) => f,
        ChildView::Element(el) => match classified(el.name) {
            Some((name, NodeKind::HostElement)) => after_children(
                f.opened(name),
                el.children,
            ).closed(name),
            Some((name, NodeKind::Component)) => f.with_binding(component_call_of(name, el)),
            None => f,
        },
    }
}

/// The frame `f` after the children `cs` of its innermost open element, in
/// order.
pub open spec fn after_children(f: FrameView, cs: Seq<ChildView>) -> FrameView
    decreases cs,
{
    if cs.len() == 0 {
        f
    } else {
        after_child(after_children(f, cs.drop_last()), cs.last())
    }
}

/// `g` continues `f`: it is well formed, has the same root and the same
/// open elements, its counters differ from those of `f` in the last one
/// only, and that one has advanced by `most` at most.
pub open spec fn continues(f: FrameView, g: FrameView, most: int) -> bool {
    &&& g.wf()
    &&& g.root == f.root
    &&& g.open == f.open
    &&& g.counters.len() == f.counters.len()
    &&& g.counters.drop_last() == f.counters.drop_last()
    &&& f.counters.last() <= g.counters.last() <= f.counters.last() + most
}

/// The frame with more markup, more bindings, and the last counter
/// advanced.
pub open spec fn extended(
    f: FrameView,
    markup: Seq<FragmentView>,
    bindings: Seq<BindingView>,
    by: int,
) -> FrameView {
    FrameView {
        root: f.root,
        body: f.body + markup,
        bindings: f.bindings + bindings,
        counters: f.counters.drop_last().push(f.counters.last() + by),
        open: f.open,
    }
}

/// One child continues a well-formed frame and takes one position at most.
pub proof fn lemma_after_child(f: FrameView, c: ChildView)
    requires
        f.wf(),
    ensures
        continues(f, after_child(f, c), 1),
    decreases c,
{
    match c {
        ChildView::Text(t) => {
            if trimmed(t).len() > 0 {
                lemma_text_wf(f, trimmed(t));
                assert(f.with_text(trimmed(t)).counters.drop_last() =~= f.counters.drop_last());
            }
        },
        ChildView::Expression(e) => {
            lemma_binding_wf(f, lowered(e));
            assert(f.with_binding(lowered(e)).counters.drop_last() =~= f.counters.drop_last());
        },
        ChildView::Empty => {},
        ChildView::Spread(_) => {},
        ChildView::Element(el) => {
            match classified(el.name) {
                Some((name, NodeKind::HostElement)) => {
                    let h = f.opened(name);
                    lemma_opened_wf(f, name);
                    lemma_after_children(h, el.children);
                    let k = after_children(h, el.children);
                    lemma_closed_wf(k, name);
                    let g = k.closed(name);
                    assert(h.counters.drop_last() =~= f.counters);
                    assert(g.open =~= f.open);
                    assert(g.counters.drop_last() =~= f.counters.drop_last());
                },
                Some((name, NodeKind::Component)) => {
                    let call = component_call_of(name, el);
                    lemma_binding_wf(f, call);
                    assert(f.with_binding(call).counters.drop_last() =~= f.counters.drop_last());
                },
                None => {},
            }
        },
    }
}

/// Children continue a well-formed frame and take one position each at
/// most.
pub proof fn lemma_after_children(f: FrameView, cs: Seq<ChildView>)
    requires
        f.wf(),
    ensures
        continues(f, after_children(f, cs), cs.len() as int),
    decreases cs,
{
    if cs.len() > 0 {
        lemma_after_children(f, cs.drop_last());
        lemma_after_child(after_children(f, cs.drop_last()), cs.last());
    }
}

/// What one child does to a frame: its markup and its bindings are added,
/// the child standing at the path that the counters spell, and the last
/// counter advances by the positions that the child takes.
pub proof fn lemma_after_child_adds(f: FrameView, c: ChildView)
    requires
        f.counters.len() > 0,
    ensures
        after_child(f, c) == extended(
            f,
            markup_of_child(c),
            bindings_of_child(c, f.counters),
            positions_of_child(c),
        ),
    decreases c,
{
    let g = after_child(f, c);
    let x = extended(
        f,
        markup_of_child(c),
        bindings_of_child(c, f.counters),
        positions_of_child(c),
    );
    match c {
        ChildView::Text(t) => {},
        ChildView::Expression(e) => {},
        ChildView::Empty => {},
        ChildView::Spread(_) => {},
        ChildView::Element(el) => {
            match classified(el.name) {
                Some((name, NodeKind::HostElement)) => {
                    let h = f.opened(name);
                    lemma_after_children_add(h, el.children);
                    assert(h.counters.drop_last() =~= f.counters);
                    assert(g.open =~= x.open);
                },
                _ => {},
            }
        },
    }
    assert(g.body =~= x.body);
    assert(g.bindings =~= x.bindings);
    assert(g.counters =~= x.counters);
}

/// What children do to a frame: their markup and their bindings are added,
/// the children standing below the node that the counters but the last
/// spell, and the last counter advances by the positions that the children
/// take.
pub proof fn lemma_after_children_add(f: FrameView, cs: Seq<ChildView>)
    requires
        f.counters.len() > 0,
    ensures
        after_children(f, cs) == extended(
            f,
            markup_of(cs),
            bindings_of(cs, f.counters.drop_last(), f.counters.last()),
            positions(cs),
        ),
    decreases cs,
{
    let g = after_children(f, cs);
    let x = extended(
        f,
        markup_of(cs),
        bindings_of(cs, f.counters.drop_last(), f.counters.last()),
        positions(cs),
    );
    if cs.len() > 0 {
        let head = cs.drop_last();
        lemma_after_children_add(f, head);
        let m = after_children(f, head);
        lemma_after_child_adds(m, cs.last());
        assert(m.counters =~= f.counters.drop_last().push(f.counters.last() + positions(head)));
    }
    assert(g.body =~= x.body);
    assert(g.bindings =~= x.bindings);
    assert(g.counters =~= x.counters);
}

/// The frame that the children of a host element leave behind holds the
/// element's template: closing the root gives [`template_of`].
pub proof fn lemma_template_is(name: Seq<char>, el: ElementView)
    ensures
        after_children(FrameView::host(name), el.children).template(name) == template_of(
            name,
            el,
        ),
{
    let f = FrameView::host(name);
    lemma_after_children_add(f, el.children);
    assert(f.counters.drop_last() =~= Seq::<int>::empty());
    assert(f.body + markup_of(el.children) =~= markup_of(el.children));
    assert(f.bindings + bindings_of(el.children, Seq::empty(), 0) =~= bindings_of(
        el.children,
        Seq::empty(),
        0,
    ));
}

/// The template of a host element is well formed: its markup is the
/// element's opening tag, a balanced body and the closing tag of the same
/// name; it holds exactly one placeholder for each binding; and the
/// bindings, which stand in document order, are in ascending lexicographic
/// order of their paths.
pub proof fn lemma_template_well_formed(name: Seq<char>, el: ElementView)
    ensures
        template_of(name, el).wf(name),
{
    lemma_new_wf(name);
    lemma_after_children(FrameView::host(name), el.children);
    lemma_template_wf(after_children(FrameView::host(name), el.children), name);
    lemma_template_is(name, el);
}

/// Every host element in expression position, wherever in the tree it
/// stands, is replaced by the `$render` call of its template, and of that
/// template holds what holds of every template: among the path arrays of its
/// `$insert` calls no two are the same.
pub proof fn lemma_lowered_host_element(name: Seq<char>, el: ElementView)
    requires
        classified(el.name) == Some((name, NodeKind::HostElement)),
    ensures
        lowered(ExprView::Element(el)) == template_of(name, el).render_call(),
        template_of(name, el).wf(name),
        forall|i: int, j: int|
            0 <= i < template_of(name, el).bindings.len() && 0 <= j < template_of(
                name,
                el,
            ).bindings.len() && i != j ==> path_literal(template_of(name, el).bindings[i].path)
                != path_literal(template_of(name, el).bindings[j].path),
{
    lemma_template_well_formed(name, el);
    lemma_render_call_arguments(template_of(name, el));
}

/// No two bindings of a template share a path.
pub proof fn lemma_template_paths_distinct(name: Seq<char>, el: ElementView)
    ensures
        ({
            let bindings = template_of(name, el).bindings;
            forall|i: int, j: int|
                0 <= i < bindings.len() && 0 <= j < bindings.len() && i != j ==> bindings[i].path
                    != bindings[j].path
        }),
{
    lemma_template_well_formed(name, el);
    let bindings = template_of(name, el).bindings;
    lemma_ascending_distinct(paths_of(bindings));
    assert forall|i: int, j: int|
        0 <= i < bindings.len() && 0 <= j < bindings.len() && i != j implies bindings[i].path
        != bindings[j].path by {
        assert(paths_of(bindings)[i] != paths_of(bindings)[j]);
    }
}

/// The bindings of a template, taken in document order, are in ascending
/// lexicographic order of their paths.
pub proof fn lemma_template_document_order(name: Seq<char>, el: ElementView)
    ensures
        ascending(paths_of(template_of(name, el).bindings)),
{
    lemma_template_well_formed(name, el);
}

/// The bindings of a template sorted by their paths are the bindings in
/// document order: an arrangement of them in which the paths ascend is the
/// order in which the template holds them.
pub proof fn lemma_template_sorted_is_document_order(
    name: Seq<char>,
    el: ElementView,
    sorted: Seq<BindingView>,
)
    requires
        sorted.to_multiset() == template_of(name, el).bindings.to_multiset(),
        ascending(paths_of(sorted)),
    ensures
        sorted == template_of(name, el).bindings,
{
    lemma_template_well_formed(name, el);
    lemma_ascending_order_unique(sorted, template_of(name, el).bindings);
}

/// The template of a host element has as many placeholders as bindings.
pub proof fn lemma_template_anchors(name: Seq<char>, el: ElementView)
    ensures
        anchors(template_of(name, el).markup) == template_of(name, el).bindings.len(),
{
    lemma_template_well_formed(name, el);
}

proof fn lemma_placed(cs: Seq<ChildView>)
    ensures
        placed(cs).len() == positions(cs),
        cs.len() > 0 ==> placed(cs.drop_last()).len() <= placed(cs).len(),
        cs.len() > 0 ==> forall|k: int|
            0 <= k < placed(cs.drop_last()).len() ==> placed(cs)[k] == placed(cs.drop_last())[k],
    decreases cs.len(),
{
    if cs.len() > 0 {
        lemma_placed(cs.drop_last());
    }
}

proof fn lemma_node_at_more(cs: Seq<ChildView>, path: Seq<int>)
    requires
        cs.len() > 0,
        node_at(cs.drop_last(), path) is Some,
    ensures
        node_at(cs, path) == node_at(cs.drop_last(), path),
{
    lemma_placed(cs);
}

/// Every binding stands at the path that leads to the child it came from:
/// below the node at `parent`, whose children are `cs`, the rest of the
/// binding's path leads to an embedded expression or to a component, and
/// that is what is bound.
pub proof fn lemma_binding_leads_to_its_node(cs: Seq<ChildView>, parent: Seq<int>, i: int)
    requires
        0 <= i < bindings_of(cs, parent, 0).len(),
    ensures
        ({
            let b = bindings_of(cs, parent, 0)[i];
            &&& b.path.len() > parent.len()
            &&& b.path.take(parent.len() as int) == parent
            &&& node_at(cs, b.path.skip(parent.len() as int)) matches Some(c)
            &&& bound_value(c) == Some(b.value)
        }),
    decreases cs,
{
    let b = bindings_of(cs, parent, 0)[i];
    assert(cs.len() > 0);
    let head = cs.drop_last();
    let before = bindings_of(head, parent, 0);
    let c = cs.last();
    let k = positions(head);
    let at = parent.push(k);
    let from_c = bindings_of_child(c, at);
    assert(bindings_of(cs, parent, 0) == before + from_c);
    lemma_placed(cs);
    lemma_placed(head);
    if i < before.len() {
        assert(b == before[i]);
        lemma_binding_leads_to_its_node(head, parent, i);
        lemma_node_at_more(cs, b.path.skip(parent.len() as int));
    } else {
        let j = i - before.len();
        assert(b == from_c[j]);
        assert(positions_of_child(c) == 1);
        assert(placed(cs)[k] == c);
        assert(at.take(parent.len() as int) =~= parent);
        assert(at.skip(parent.len() as int) =~= seq![k]);
        match c {
            ChildView::Element(el) => {
                match classified(el.name) {
                    Some((name, NodeKind::HostElement)) => {
                        lemma_binding_leads_to_its_node(el.children, at, j);
                        let inside = b.path.skip(at.len() as int);
                        let below = b.path.skip(parent.len() as int);
                        assert forall|n: int| 0 <= n < at.len() implies b.path[n] == at[n] by {
                            assert(b.path.take(at.len() as int)[n] == at[n]);
                        }
                        assert(b.path.take(parent.len() as int) =~= parent);
                        assert(b.path[parent.len() as int] == at[parent.len() as int]);
                        assert(below[0] == b.path[parent.len() as int]);
                        assert(below[0] == k);
                        assert(below.drop_first() =~= inside);
                    },
                    _ => {},
                }
            },
            _ => {},
        }
    }
}

/// Every binding of a template stands at the path that leads, from the
/// root of the template, to the child it came from.
pub proof fn lemma_template_paths_lead_to_their_nodes(name: Seq<char>, el: ElementView, i: int)
    requires
        0 <= i < template_of(name, el).bindings.len(),
    ensures
        ({
            let b = template_of(name, el).bindings[i];
            &&& node_at(el.children, b.path) matches Some(c)
            &&& bound_value(c) == Some(b.value)
        }),
{
    lemma_binding_leads_to_its_node(el.children, Seq::empty(), i);
    let b = template_of(name, el).bindings[i];
    assert(b.path.skip(0) =~= b.path);
}

/// In the markup string of the template of a host element, where its
/// fragments are as a parser gives them (no `<` in a text, neither `<` nor
/// `!` in the name of a tag), the three characters `<!>` occur exactly once
/// for each binding.
pub proof fn lemma_template_placeholders(name: Seq<char>, el: ElementView)
    requires
        plain(template_of(name, el).markup),
    ensures
        placeholders(joined(template_of(name, el).markup)) == template_of(name, el).bindings.len(),
{
    lemma_template_well_formed(name, el);
    lemma_placeholders_of_template(template_of(name, el), name);
}

/// The markup string of a template is the root's opening tag, the markup
/// string of its children, and the root's closing tag: `<name>`, what is
/// inside, `</name>`.
pub proof fn lemma_template_string(name: Seq<char>, el: ElementView)
    ensures
        joined(template_of(name, el).markup) == seq!['<'] + name + seq!['>'] + joined(
            markup_of(el.children),
        ) + seq!['<', '/'] + name + seq!['>'],
{
    let open = seq![FragmentView::Open(name)];
    let close = seq![FragmentView::Close(name)];
    let inner = markup_of(el.children);
    lemma_joined_add(open + inner, close);
    lemma_joined_add(open, inner);
    lemma_push(Seq::empty(), FragmentView::Open(name));
    lemma_push(Seq::empty(), FragmentView::Close(name));
    assert(open =~= Seq::<FragmentView>::empty().push(FragmentView::Open(name)));
    assert(close =~= Seq::<FragmentView>::empty().push(FragmentView::Close(name)));
    assert(joined(Seq::<FragmentView>::empty()) =~= Seq::<char>::empty());
    assert(joined(open) =~= seq!['<'] + name + seq!['>']);
    assert(joined(close) =~= seq!['<', '/'] + name + seq!['>']);
    assert(joined(template_of(name, el).markup) =~= seq!['<'] + name + seq!['>'] + joined(inner)
        + seq!['<', '/'] + name + seq!['>']);
}

/// The markup of children is balanced, and holds one placeholder for each
/// of their bindings.
pub proof fn lemma_children_markup(cs: Seq<ChildView>)
    ensures
        balanced(markup_of(cs)),
        anchors(markup_of(cs)) == bindings_of(cs, Seq::empty(), 0).len(),
{
    let f = FrameView::component();
    lemma_new_wf(Seq::empty());
    lemma_after_children(f, cs);
    lemma_after_children_add(f, cs);
    assert(f.counters.drop_last() =~= Seq::<int>::empty());
    assert(f.body + markup_of(cs) =~= markup_of(cs));
    assert(f.bindings + bindings_of(cs, Seq::empty(), 0) =~= bindings_of(cs, Seq::empty(), 0));
}

/// The markup of every host element, nested or not, is its opening tag, the
/// balanced markup of its children, and the closing tag of the same name.
pub proof fn lemma_host_element_markup(name: Seq<char>, el: ElementView)
    requires
        classified(el.name) == Some((name, NodeKind::HostElement)),
    ensures
        markup_of_child(ChildView::Element(el)) == seq![FragmentView::Open(name)] + markup_of(
            el.children,
        ) + seq![FragmentView::Close(name)],
        balanced(markup_of(el.children)),
        balanced(markup_of_child(ChildView::Element(el))),
{
    lemma_children_markup(el.children);
    lemma_children_markup(seq![ChildView::Element(el)]);
    let one = seq![ChildView::Element(el)];
    assert(one.drop_last() =~= Seq::<ChildView>::empty());
    assert(markup_of(Seq::<ChildView>::empty()) =~= Seq::<FragmentView>::empty());
    assert(markup_of(one) =~= markup_of_child(ChildView::Element(el)));
}

} // verus!
