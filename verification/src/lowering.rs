//! The lowering transform: a walk that turns JSX into calls.
//!
//! The walk keeps a stack of frames. Entering a host element in expression
//! position, or any component, pushes a frame; whatever is met inside goes
//! to the frame on top. Leaving pops the frame and assembles the call that
//! takes the element's place.
//!
//! [`Lowering::lower`] walks a tree of this crate. The steps of the walk are
//! public too, for a caller that walks a tree of its own and reports what it
//! meets.

use crate::assembly::{collect_props, component_call, make_component_call, props_of};
use crate::ast::{
    attributes_view, children_view, exprs_view, lemma_element_view, lemma_expr_view,
    properties_view, Attribute, AttributeValue, AttributeView, Element, ElementName, Expr,
    ExprView, JsxChild, NameView, NodeKind, Property,
};
use crate::frame::{Frame, FrameView};
use crate::text::{trim_jsx_text, trimmed};
use crate::transform::{
    after_child, after_children, classified, lemma_after_children, lemma_template_is, lowered,
    lowered_all, lowered_attribute, lowered_attributes, lowered_element, lowered_properties,
    supported, supported_all, supported_attribute, supported_attributes, supported_child,
    supported_children, supported_element, supported_properties,
};
use vstd::prelude::*;

verus! {

/// Why a tree cannot be lowered.
#[derive(Debug, Clone, Copy, PartialEq, Eq, Structural)]
pub enum LowerError {
    /// Some element has a name that is neither a tag nor names a component,
    /// or has no name.
    UnsupportedElement,
}

/// A child of a JSX element as a walk leaves it: a text, an embedded
/// expression, braces that hold no expression, a spread, or the head of a
/// nested element. What stood inside the element was walked before and is no
/// part of this.
#[derive(Debug, PartialEq, Eq)]
pub enum Visited {
    Text(String),
    Expression(Expr),
    Empty,
    Spread,
    Element { name: ElementName, attributes: Vec<Attribute> },
}

/// The value of a [`Visited`].
pub enum VisitedView {
    Text(Seq<char>),
    Expression(ExprView),
    Empty,
    Spread,
    Element { name: NameView, attributes: Seq<AttributeView> },
}

impl View for Visited {
    type V = VisitedView;

    open spec fn view(&self) -> VisitedView {
        match self {
            Visited::Text(t) => VisitedView::Text(t@),
            Visited::Expression(e) => VisitedView::Expression(e@),
            Visited::Empty => VisitedView::Empty,
            Visited::Spread => VisitedView::Spread,
            Visited::Element { name, attributes } => VisitedView::Element {
                name: name@,
                attributes: attributes_view(attributes@),
            },
        }
    }
}

/// The frames after the walk has entered a nested element called `name`:
/// a host element opens one level in the frame on top, a component opens a
/// frame of its own.
pub open spec fn entered_child(frames: Seq<FrameView>, name: NameView) -> Seq<FrameView> {
    match classified(name) {
        Some((text, NodeKind::HostElement)) => frames.drop_last().push(
            frames.last().opened(text),
        ),
        Some((text, NodeKind::Component)) => frames.push(FrameView::component()),
        None => frames,
    }
}

/// The frames after the walk has left a child. Braces that hold no
/// expression, and a spread, leave the frames as they were: they give no
/// markup and no binding, and take no position.
pub open spec fn left_child(frames: Seq<FrameView>, child: VisitedView) -> Seq<FrameView> {
    match child {
        VisitedView::Text(t) => frames.drop_last().push(
            if trimmed(t).len() > 0 {
                frames.last().with_text(trimmed(t))
            } else {
                frames.last()
            },
        ),
        VisitedView::Expression(e) => frames.drop_last().push(frames.last().with_binding(e)),
        VisitedView::Empty => frames,
        VisitedView::Spread => frames,
        VisitedView::Element { name, attributes } => match classified(name) {
            Some((text, NodeKind::HostElement)) => frames.drop_last().push(
                frames.last().closed(text),
            ),
            Some((text, NodeKind::Component)) => frames.drop_last().drop_last().push(
                frames[frames.len() - 2].with_binding(component_call(text, props_of(attributes))),
            ),
            None => frames,
        },
    }
}

/// The walk may leave `child` now: the frames are as a walk that entered
/// the child left them.
pub open spec fn ready_to_leave_child(frames: Seq<FrameView>, child: VisitedView) -> bool {
    match child {
        VisitedView::Text(_) => frames.len() > 0,
        VisitedView::Expression(_) => frames.len() > 0,
        VisitedView::Empty => true,
        VisitedView::Spread => true,
        VisitedView::Element { name, attributes } => match classified(name) {
            Some((text, NodeKind::HostElement)) => {
                &&& frames.len() > 0
                &&& frames.last().open.len() > 0
                &&& frames.last().open.last() == text
            },
            Some((text, NodeKind::Component)) => {
                &&& frames.len() >= 2
                &&& frames.last().root is None
                &&& frames.last().open.len() == 0
            },
            None => true,
        },
    }
}

/// The walk may leave the element `name` in expression position now: the
/// frame on top is the one that the element opened, and nothing is left
/// open in it.
pub open spec fn ready_to_leave_element(frames: Seq<FrameView>, name: NameView) -> bool {
    match classified(name) {
        Some((text, NodeKind::HostElement)) => {
            &&& frames.len() > 0
            &&& frames.last().root == Some(text)
            &&& frames.last().open.len() == 0
        },
        Some((text, NodeKind::Component)) => {
            &&& frames.len() > 0
            &&& frames.last().root is None
            &&& frames.last().open.len() == 0
        },
        None => true,
    }
}

/// The values of a sequence of frames.
pub open spec fn frames_view(v: Seq<Frame>) -> Seq<FrameView> {
    v.map_values(|f: Frame| f@)
}

/// The state of one walk: the frames that are open, the outermost first.
#[derive(Debug)]
pub struct Lowering {
    frames: Vec<Frame>,
}

impl View for Lowering {
    type V = Seq<FrameView>;

    closed spec fn view(&self) -> Seq<FrameView> {
        frames_view(self.frames@)
    }
}

/// The name of an element as text, with what the element is. `None` for a
/// name that cannot be lowered.
pub fn get_element_name_and_type(name: &ElementName) -> (out: Option<(String, NodeKind)>)
    ensures
        out is None <==> classified(name@) is None,
        out matches Some((text, kind)) ==> classified(name@) == Some((text@, kind)),
{
    match name {
        ElementName::Identifier(s) => Some((s.clone(), NodeKind::HostElement)),
        ElementName::IdentifierReference(s) => Some((s.clone(), NodeKind::Component)),
        ElementName::NamespacedName(s) => Some((s.clone(), NodeKind::Component)),
        ElementName::MemberExpression(s) => Some((s.clone(), NodeKind::Component)),
        ElementName::This => None,
        ElementName::Fragment => None,
    }
}

impl Lowering {
    /// Every open frame is well formed.
    pub open spec fn wf(&self) -> bool {
        forall|i: int| 0 <= i < self@.len() ==> (#[trigger] self@[i]).wf()
    }

    /// The frame on top: the one that was opened last.
    pub open spec fn top(&self) -> FrameView
        recommends
            self@.len() > 0,
    {
        self@.last()
    }

    /// The frames below the one on top.
    pub open spec fn below(&self) -> Seq<FrameView>
        recommends
            self@.len() > 0,
    {
        self@.drop_last()
    }

    /// A walk that has not begun: no frame is open.
    pub fn new() -> (out: Lowering)
        ensures
            out@ == Seq::<FrameView>::empty(),
            out.wf(),
    {
        let out = Lowering { frames: Vec::new() };
        assert(out@ =~= Seq::<FrameView>::empty());
        out
    }

    /// The number of open frames.
    pub fn open_frames(&self) -> (out: usize)
        ensures
            out == self@.len(),
    {
        self.frames.len()
    }

    /// The frame on top, where there is one.
    pub fn top_frame(&self) -> (out: Option<&Frame>)
        ensures
            self@.len() == 0 ==> out is None,
            self@.len() > 0 ==> out is Some && out->0@ == self.top(),
    {
        let n = self.frames.len();
        if n == 0 {
            None
        } else {
            Some(&self.frames[n - 1])
        }
    }

    fn push_frame(&mut self, frame: Frame)
        requires
            old(self).wf(),
            frame@.wf(),
        ensures
            final(self)@ == old(self)@.push(frame@),
            final(self).wf(),
    {
        self.frames.push(frame);
        assert(self@ =~= old(self)@.push(frame@));
    }

    fn pop_frame(&mut self) -> (out: Frame)
        requires
            old(self).wf(),
            old(self)@.len() > 0,
        ensures
            final(self)@ == old(self).below(),
            out@ == old(self).top(),
            out@.wf(),
            final(self).wf(),
    {
        let out = self.frames.pop().unwrap();
        assert(self@ =~= old(self).below());
        assert(out@ == old(self)@[old(self)@.len() - 1]);
        out
    }

    /// A host element in expression position begins: a frame is opened for
    /// it.
    pub fn enter_element_dom(&mut self, name: &str)
        requires
            old(self).wf(),
        ensures
            final(self)@ == old(self)@.push(FrameView::host(name@)),
            final(self).wf(),
    {
        self.push_frame(Frame::host(name));
    }

    /// The host element `name` in expression position ends: its frame is
    /// closed, and the `$render` call of its template takes its place.
    pub fn exit_element_dom(&mut self, name: &str) -> (out: Expr)
        requires
            old(self).wf(),
            old(self)@.len() > 0,
            old(self).top().root == Some(name@),
            old(self).top().open.len() == 0,
        ensures
            final(self)@ == old(self).below(),
            final(self).wf(),
            out@ == old(self).top().template(name@).render_call(),
            old(self).top().template(name@).wf(name@),
    {
        let frame = self.pop_frame();
        frame.into_template(name).into_render_call()
    }

    /// A nested host element begins: its opening tag is markup, and its
    /// children are counted one level deeper.
    pub fn enter_child_dom(&mut self, name: &str)
        requires
            old(self).wf(),
            old(self)@.len() > 0,
        ensures
            final(self)@ == old(self).below().push(old(self).top().opened(name@)),
            final(self).wf(),
    {
        let mut frame = self.pop_frame();
        frame.open_child(name);
        self.push_frame(frame);
    }

    /// The nested host element `name` ends: its closing tag is markup, and
    /// the element has taken one position in its parent.
    pub fn exit_child_dom(&mut self, name: &str)
        requires
            old(self).wf(),
            old(self)@.len() > 0,
            old(self).top().open.len() > 0,
            old(self).top().open.last() == name@,
        ensures
            final(self)@ == old(self).below().push(old(self).top().closed(name@)),
            final(self).wf(),
    {
        let mut frame = self.pop_frame();
        frame.close_child(name);
        self.push_frame(frame);
    }

    /// A component begins: a frame of its own is opened for what stands
    /// inside it.
    pub fn enter_child_component(&mut self)
        requires
            old(self).wf(),
        ensures
            final(self)@ == old(self)@.push(FrameView::component()),
            final(self).wf(),
    {
        self.push_frame(Frame::component());
    }

    /// The nested component `name` ends: its frame is dropped, and its call
    /// is bound in the frame below, where a placeholder stands for it.
    pub fn exit_child_component(&mut self, name: &str, attributes: Vec<Attribute>)
        requires
            old(self).wf(),
            old(self)@.len() >= 2,
            old(self).top().root is None,
            old(self).top().open.len() == 0,
        ensures
            final(self)@ == old(self).below().drop_last().push(
                old(self)@[old(self)@.len() - 2].with_binding(
                    component_call(name@, props_of(attributes_view(attributes@))),
                ),
            ),
            final(self).wf(),
    {
        let _inside = self.pop_frame();
        let call = make_component_call(name, collect_props(attributes));
        let mut frame = self.pop_frame();
        frame.push_binding(call);
        self.push_frame(frame);
    }

    /// The component `name` in expression position ends: its frame is
    /// dropped, and its call takes its place.
    pub fn exit_element_component(&mut self, name: &str, attributes: Vec<Attribute>) -> (out:
        Expr)
        requires
            old(self).wf(),
            old(self)@.len() > 0,
            old(self).top().root is None,
            old(self).top().open.len() == 0,
        ensures
            final(self)@ == old(self).below(),
            final(self).wf(),
            out@ == component_call(name@, props_of(attributes_view(attributes@))),
    {
        let _inside = self.pop_frame();
        make_component_call(name, collect_props(attributes))
    }

    /// An embedded expression was met: a placeholder stands for it in the
    /// markup, and the expression is bound at the place where it stood.
    pub fn exit_child_expression(&mut self, expression: Expr)
        requires
            old(self).wf(),
            old(self)@.len() > 0,
        ensures
            final(self)@ == old(self).below().push(old(self).top().with_binding(expression@)),
            final(self).wf(),
    {
        let mut frame = self.pop_frame();
        frame.push_binding(expression);
        self.push_frame(frame);
    }

    /// A text was met: its content is markup, unless it is empty.
    pub fn exit_child_text(&mut self, text: &str)
        requires
            old(self).wf(),
            old(self)@.len() > 0,
        ensures
            final(self)@ == old(self).below().push(
                if trimmed(text@).len() > 0 {
                    old(self).top().with_text(trimmed(text@))
                } else {
                    old(self).top()
                },
            ),
            final(self).wf(),
    {
        let content = trim_jsx_text(text);
        if !content.as_str().is_empty() {
            let mut frame = self.pop_frame();
            frame.push_text(content);
            self.push_frame(frame);
        } else {
            assert(self@ =~= old(self).below().push(old(self).top()));
        }
    }
}

impl Lowering {
    /// Whether the walk may leave `child` now.
    pub fn is_ready_to_leave_child(&self, child: &Visited) -> (out: bool)
        requires
            self.wf(),
        ensures
            out == ready_to_leave_child(self@, child@),
    {
        match child {
            Visited::Text(_) => self.open_frames() > 0,
            Visited::Expression(_) => self.open_frames() > 0,
            Visited::Empty => true,
            Visited::Spread => true,
            Visited::Element { name, attributes } => match get_element_name_and_type(name) {
                Some((text, NodeKind::HostElement)) => match self.top_frame() {
                    Some(frame) => frame.innermost_is(text.as_str()),
                    None => false,
                },
                Some((text, NodeKind::Component)) => match self.top_frame() {
                    Some(frame) => self.open_frames() >= 2 && !frame.is_host() && frame.depth()
                        == 0,
                    None => false,
                },
                None => true,
            },
        }
    }

    /// Whether the walk may leave the element `name` in expression position
    /// now.
    pub fn is_ready_to_leave_element(&self, name: &ElementName) -> (out: bool)
        requires
            self.wf(),
        ensures
            out == ready_to_leave_element(self@, name@),
    {
        match get_element_name_and_type(name) {
            Some((text, NodeKind::HostElement)) => match self.top_frame() {
                Some(frame) => frame.has_root(text.as_str()) && frame.depth() == 0,
                None => false,
            },
            Some((text, NodeKind::Component)) => match self.top_frame() {
                Some(frame) => !frame.is_host() && frame.depth() == 0,
                None => false,
            },
            None => true,
        }
    }

    /// The walk enters a nested element: a host element begins one level
    /// deeper in the frame on top, a component in a frame of its own. An
    /// element whose name cannot be lowered is refused, and nothing changes.
    pub fn enter_jsx_child(&mut self, name: &ElementName) -> (out: Result<(), LowerError>)
        requires
            old(self).wf(),
            old(self)@.len() > 0,
        ensures
            final(self).wf(),
            final(self)@ == entered_child(old(self)@, name@),
            out is Err <==> classified(name@) is None,
    {
        match get_element_name_and_type(name) {
            Some((text, NodeKind::HostElement)) => {
                self.enter_child_dom(text.as_str());
                Ok(())
            },
            Some((text, NodeKind::Component)) => {
                self.enter_child_component();
                Ok(())
            },
            None => Err(LowerError::UnsupportedElement),
        }
    }

    /// The walk leaves a child: a text and an embedded expression are
    /// recorded where they stand, a host element is closed, a component is
    /// bound as its call. Braces that hold no expression, and a spread,
    /// change nothing. An element whose name cannot be lowered is
    /// refused, and nothing changes.
    pub fn exit_jsx_child(&mut self, child: Visited) -> (out: Result<(), LowerError>)
        requires
            old(self).wf(),
            ready_to_leave_child(old(self)@, child@),
        ensures
            final(self).wf(),
            final(self)@ == left_child(old(self)@, child@),
            out is Err <==> (child@ matches VisitedView::Element { name, .. } && classified(name)
                is None),
    {
        match child {
            Visited::Text(text) => {
                self.exit_child_text(text.as_str());
                Ok(())
            },
            Visited::Expression(expression) => {
                self.exit_child_expression(expression);
                Ok(())
            },
            Visited::Empty => Ok(()),
            Visited::Spread => Ok(()),
            Visited::Element { name, attributes } => match get_element_name_and_type(&name) {
                Some((text, NodeKind::HostElement)) => {
                    self.exit_child_dom(text.as_str());
                    Ok(())
                },
                Some((text, NodeKind::Component)) => {
                    self.exit_child_component(text.as_str(), attributes);
                    Ok(())
                },
                None => Err(LowerError::UnsupportedElement),
            },
        }
    }

    /// The walk enters a JSX element in expression position: a frame is
    /// opened for it. An element whose name cannot be lowered is refused,
    /// and nothing changes.
    pub fn enter_expression(&mut self, name: &ElementName) -> (out: Result<(), LowerError>)
        requires
            old(self).wf(),
        ensures
            final(self).wf(),
            final(self)@ == match classified(name@) {
                Some((text, NodeKind::HostElement)) => old(self)@.push(FrameView::host(text)),
                Some((text, NodeKind::Component)) => old(self)@.push(FrameView::component()),
                None => old(self)@,
            },
            out is Err <==> classified(name@) is None,
    {
        match get_element_name_and_type(name) {
            Some((text, NodeKind::HostElement)) => {
                self.enter_element_dom(text.as_str());
                Ok(())
            },
            Some((text, NodeKind::Component)) => {
                self.enter_child_component();
                Ok(())
            },
            None => Err(LowerError::UnsupportedElement),
        }
    }

    /// The walk leaves a JSX element in expression position: its frame is
    /// closed, and the call that takes the element's place is handed out,
    /// the `$render` call of a host element's template or the call of a
    /// component. An element whose name cannot be lowered is refused, and
    /// nothing changes.
    pub fn exit_expression(&mut self, name: &ElementName, attributes: Vec<Attribute>) -> (out:
        Result<Expr, LowerError>)
        requires
            old(self).wf(),
            ready_to_leave_element(old(self)@, name@),
        ensures
            final(self).wf(),
            match classified(name@) {
                Some((text, NodeKind::HostElement)) => {
                    &&& final(self)@ == old(self).below()
                    &&& out matches Ok(call)
                    &&& call@ == old(self).top().template(text).render_call()
                    &&& old(self).top().template(text).wf(text)
                },
                Some((text, NodeKind::Component)) => {
                    &&& final(self)@ == old(self).below()
                    &&& out matches Ok(call)
                    &&& call@ == component_call(text, props_of(attributes_view(attributes@)))
                },
                None => final(self)@ == old(self)@ && out == Err::<Expr, LowerError>(
                    LowerError::UnsupportedElement,
                ),
            },
    {
        match get_element_name_and_type(name) {
            Some((text, NodeKind::HostElement)) => Ok(self.exit_element_dom(text.as_str())),
            Some((text, NodeKind::Component)) => Ok(
                self.exit_element_component(text.as_str(), attributes),
            ),
            None => Err(LowerError::UnsupportedElement),
        }
    }
}

/// Whether every element in `e` has a name that can be lowered.
pub fn is_supported(e: &Expr) -> (out: bool)
    ensures
        out == supported(e@),
    decreases e,
{
    proof {
        lemma_expr_view(*e);
    }
    match e {
        Expr::Element(el) => is_supported_element(el),
        Expr::Array(items) => all_supported(items),
        Expr::Object(properties) => {
            let mut i: usize = 0;
            while i < properties.len()
                invariant
                    i <= properties.len(),
                    *e matches Expr::Object(ps) && ps == properties,
                    e@ == crate::ast::ExprView::Object(properties_view(properties@)),
                    forall|k: int|
                        0 <= k < i ==> supported(
                            (#[trigger] properties_view(properties@)[k]).value,
                        ),
                decreases properties.len() - i,
            {
                if !is_supported(&properties[i].value) {
                    assert(!supported((properties_view(properties@)[i as int]).value));
                    return false;
                }
                i += 1;
            }
            true
        },
        Expr::Call { callee, arguments } => all_supported(arguments),
        Expr::Opaque { label, operands } => all_supported(operands),
        _ => true,
    }
}

/// Whether every element in the expressions `es` has a name that can be
/// lowered.
fn all_supported(es: &Vec<Expr>) -> (out: bool)
    ensures
        out == supported_all(exprs_view(es@)),
    decreases es,
{
    let mut i: usize = 0;
    while i < es.len()
        invariant
            i <= es.len(),
            forall|k: int| 0 <= k < i ==> supported(#[trigger] exprs_view(es@)[k]),
        decreases es.len() - i,
    {
        if !is_supported(&es[i]) {
            assert(!supported(exprs_view(es@)[i as int]));
            return false;
        }
        i += 1;
    }
    true
}

/// Whether the element and every element in it have names that can be
/// lowered.
fn is_supported_element(el: &Element) -> (out: bool)
    ensures
        out == supported_element(el@),
    decreases el,
{
    proof {
        lemma_element_view(*el);
    }
    if get_element_name_and_type(&el.name).is_none() {
        return false;
    }
    let mut i: usize = 0;
    while i < el.attributes.len()
        invariant
            i <= el.attributes.len(),
            el@.attributes == attributes_view(el.attributes@),
            forall|k: int| 0 <= k < i ==> supported_attribute(#[trigger] el@.attributes[k]),
        decreases el.attributes.len() - i,
    {
        let ok = match &el.attributes[i].value {
            AttributeValue::Literal(_) => true,
            AttributeValue::Expression(e) => is_supported(e),
            AttributeValue::Absent => true,
            AttributeValue::Spread(e) => is_supported(e),
        };
        if !ok {
            assert(!supported_attribute(el@.attributes[i as int]));
            return false;
        }
        i += 1;
    }
    let mut j: usize = 0;
    while j < el.children.len()
        invariant
            j <= el.children.len(),
            el@.children == children_view(el.children@),
            supported_attributes(el@.attributes),
            forall|k: int| 0 <= k < j ==> supported_child(#[trigger] el@.children[k]),
        decreases el.children.len() - j,
    {
        let ok = match &el.children[j] {
            JsxChild::Text(_) => true,
            JsxChild::Element(inner) => is_supported_element(inner),
            JsxChild::Expression(e) => is_supported(e),
            JsxChild::Empty => true,
            JsxChild::Spread(e) => is_supported(e),
        };
        if !ok {
            assert(!supported_child(el@.children[j as int]));
            return false;
        }
        j += 1;
    }
    true
}

impl Lowering {
    /// Lowers `e`: every JSX element in it is replaced by its call. A tree
    /// that holds an element whose name cannot be lowered is refused as a
    /// whole. The open frames are the same after the walk as before it.
    pub fn lower(&mut self, e: Expr) -> (out: Result<Expr, LowerError>)
        requires
            old(self).wf(),
        ensures
            final(self)@ == old(self)@,
            final(self).wf(),
            supported(e@) ==> (out matches Ok(call) && call@ == lowered(e@)),
            !supported(e@) ==> out == Err::<Expr, LowerError>(LowerError::UnsupportedElement),
    {
        if is_supported(&e) {
            Ok(self.lower_expr(e))
        } else {
            Err(LowerError::UnsupportedElement)
        }
    }

    /// Lowers an expression in which every element can be lowered.
    pub fn lower_expr(&mut self, e: Expr) -> (out: Expr)
        requires
            old(self).wf(),
            supported(e@),
        ensures
            final(self)@ == old(self)@,
            final(self).wf(),
            out@ == lowered(e@),
        decreases e,
    {
        proof {
            lemma_expr_view(e);
        }
        match e {
            Expr::Element(el) => self.lower_element(el),
            Expr::Array(items) => {
                let out = Expr::Array(self.lower_all(items));
                proof {
                    lemma_expr_view(out);
                }
                out
            },
            Expr::Object(properties) => {
                let out = Expr::Object(self.lower_properties(properties));
                proof {
                    lemma_expr_view(out);
                }
                out
            },
            Expr::Call { callee, arguments } => {
                let out = Expr::Call { callee, arguments: self.lower_all(arguments) };
                proof {
                    lemma_expr_view(out);
                }
                out
            },
            Expr::Opaque { label, operands } => {
                let out = Expr::Opaque { label, operands: self.lower_all(operands) };
                proof {
                    lemma_expr_view(out);
                }
                out
            },
            Expr::Identifier(name) => Expr::Identifier(name),
            Expr::StringLiteral(value) => Expr::StringLiteral(value),
            Expr::NumericLiteral(value) => Expr::NumericLiteral(value),
            Expr::BooleanLiteral(value) => Expr::BooleanLiteral(value),
        }
    }

    /// Lowers each of the expressions.
    fn lower_all(&mut self, es: Vec<Expr>) -> (out: Vec<Expr>)
        requires
            old(self).wf(),
            supported_all(exprs_view(es@)),
        ensures
            final(self)@ == old(self)@,
            final(self).wf(),
            exprs_view(out@) == lowered_all(exprs_view(es@)),
        decreases es,
    {
        let ghost given = es;
        let ghost wanted = lowered_all(exprs_view(es@));
        let mut out: Vec<Expr> = Vec::new();
        for e in it: es
            invariant
                it.seq() == given@,
                wanted == lowered_all(exprs_view(given@)),
                supported_all(exprs_view(given@)),
                self@ == old(self)@,
                self.wf(),
                exprs_view(out@) == wanted.take(it.index() as int),
        {
            let ghost before = out@;
            assert(e == given[it.index() as int]);
            assert(supported(exprs_view(given@)[it.index() as int]));
            let lowered_e = self.lower_expr(e);
            let ghost added = lowered_e@;
            out.push(lowered_e);
            assert(exprs_view(out@) =~= exprs_view(before).push(added));
            assert(wanted.take(it.index() + 1) =~= wanted.take(it.index() as int).push(added));
        }
        assert(wanted.take(wanted.len() as int) =~= wanted);
        out
    }

    /// Lowers the value of each of the properties.
    fn lower_properties(&mut self, ps: Vec<Property>) -> (out: Vec<Property>)
        requires
            old(self).wf(),
            supported_properties(properties_view(ps@)),
        ensures
            final(self)@ == old(self)@,
            final(self).wf(),
            properties_view(out@) == lowered_properties(properties_view(ps@)),
        decreases ps,
    {
        let ghost given = ps;
        let ghost wanted = lowered_properties(properties_view(ps@));
        let mut out: Vec<Property> = Vec::new();
        for p in it: ps
            invariant
                it.seq() == given@,
                wanted == lowered_properties(properties_view(given@)),
                supported_properties(properties_view(given@)),
                self@ == old(self)@,
                self.wf(),
                properties_view(out@) == wanted.take(it.index() as int),
        {
            let ghost before = out@;
            assert(p == given[it.index() as int]);
            assert(supported(properties_view(given@)[it.index() as int].value));
            let Property { key, quoted, value } = p;
            let entry = Property { key, quoted, value: self.lower_expr(value) };
            let ghost added = entry@;
            out.push(entry);
            assert(properties_view(out@) =~= properties_view(before).push(added));
            assert(wanted.take(it.index() + 1) =~= wanted.take(it.index() as int).push(added));
        }
        assert(wanted.take(wanted.len() as int) =~= wanted);
        out
    }

    /// Lowers the value of each of the attributes.
    fn lower_attributes(&mut self, attributes: Vec<Attribute>) -> (out: Vec<Attribute>)
        requires
            old(self).wf(),
            supported_attributes(attributes_view(attributes@)),
        ensures
            final(self)@ == old(self)@,
            final(self).wf(),
            attributes_view(out@) == lowered_attributes(attributes_view(attributes@)),
        decreases attributes,
    {
        let ghost given = attributes;
        let ghost wanted = lowered_attributes(attributes_view(attributes@));
        let mut out: Vec<Attribute> = Vec::new();
        for a in it: attributes
            invariant
                it.seq() == given@,
                wanted == lowered_attributes(attributes_view(given@)),
                supported_attributes(attributes_view(given@)),
                self@ == old(self)@,
                self.wf(),
                attributes_view(out@) == wanted.take(it.index() as int),
        {
            let ghost before = out@;
            assert(a == given[it.index() as int]);
            assert(supported_attribute(attributes_view(given@)[it.index() as int]));
            let Attribute { name, value } = a;
            let value = match value {
                AttributeValue::Literal(s) => AttributeValue::Literal(s),
                AttributeValue::Expression(e) => AttributeValue::Expression(self.lower_expr(e)),
                AttributeValue::Absent => AttributeValue::Absent,
                AttributeValue::Spread(e) => AttributeValue::Spread(self.lower_expr(e)),
            };
            let entry = Attribute { name, value };
            let ghost added = entry@;
            out.push(entry);
            assert(added == lowered_attribute(a@));
            assert(attributes_view(out@) =~= attributes_view(before).push(added));
            assert(wanted.take(it.index() + 1) =~= wanted.take(it.index() as int).push(added));
        }
        assert(wanted.take(wanted.len() as int) =~= wanted);
        out
    }

    /// Lowers a JSX element in expression position.
    fn lower_element(&mut self, el: Element) -> (out: Expr)
        requires
            old(self).wf(),
            supported_element(el@),
        ensures
            final(self)@ == old(self)@,
            final(self).wf(),
            out@ == lowered_element(el@),
        decreases el,
    {
        proof {
            lemma_element_view(el);
        }
        let Element { name, attributes, children } = el;
        let _ = self.enter_expression(&name);
        let attributes = self.lower_attributes(attributes);
        self.lower_children(children);
        proof {
            assert(self@.drop_last() =~= old(self)@);
            match classified(name@) {
                Some((text, NodeKind::HostElement)) => {
                    lemma_after_children(FrameView::host(text), children_view(children@));
                    lemma_template_is(text, el@);
                },
                Some((text, NodeKind::Component)) => {
                    lemma_after_children(FrameView::component(), children_view(children@));
                },
                None => {},
            }
        }
        match self.exit_expression(&name, attributes) {
            Ok(call) => call,
            Err(_) => unreached(),
        }
    }

    /// Walks one child of the innermost open element of the frame on top.
    fn lower_child(&mut self, c: JsxChild)
        requires
            old(self).wf(),
            old(self)@.len() > 0,
            supported_child(c@),
        ensures
            final(self)@ == old(self).below().push(after_child(old(self).top(), c@)),
            final(self).wf(),
        decreases c,
    {
        let ghost top = self.top();
        let ghost below = self.below();
        match c {
            JsxChild::Text(text) => {
                let _ = self.exit_jsx_child(Visited::Text(text));
            },
            JsxChild::Expression(e) => {
                let value = self.lower_expr(e);
                let _ = self.exit_jsx_child(Visited::Expression(value));
            },
            JsxChild::Empty => {
                let _ = self.exit_jsx_child(Visited::Empty);
                assert(self@ =~= below.push(top));
            },
            JsxChild::Spread(e) => {
                let _lowered = self.lower_expr(e);
                let _ = self.exit_jsx_child(Visited::Spread);
                assert(self@ =~= below.push(top));
            },
            JsxChild::Element(el) => {
                proof {
                    lemma_element_view(el);
                }
                let Element { name, attributes, children } = el;
                let _ = self.enter_jsx_child(&name);
                let attributes = self.lower_attributes(attributes);
                self.lower_children(children);
                proof {
                    match classified(name@) {
                        Some((text, NodeKind::HostElement)) => {
                            crate::frame::lemma_opened_wf(top, text);
                            lemma_after_children(top.opened(text), children_view(children@));
                            assert(self@.drop_last() =~= below);
                        },
                        Some((text, NodeKind::Component)) => {
                            lemma_after_children(
                                FrameView::component(),
                                children_view(children@),
                            );
                            assert(self@.drop_last() =~= old(self)@);
                            assert(self@.drop_last().drop_last() =~= below);
                        },
                        None => {},
                    }
                }
                let _ = self.exit_jsx_child(Visited::Element { name, attributes });
            },
        }
    }

    /// Walks the children of the innermost open element of the frame on
    /// top, in order.
    fn lower_children(&mut self, cs: Vec<JsxChild>)
        requires
            old(self).wf(),
            old(self)@.len() > 0,
            supported_children(children_view(cs@)),
        ensures
            final(self)@ == old(self).below().push(
                after_children(old(self).top(), children_view(cs@)),
            ),
            final(self).wf(),
        decreases cs,
    {
        let ghost given = cs;
        let ghost all = children_view(cs@);
        let ghost top = self.top();
        let ghost below = self.below();
        assert(all.take(0) =~= Seq::<crate::ast::ChildView>::empty());
        assert(self@ =~= below.push(after_children(top, all.take(0))));
        for c in it: cs
            invariant
                it.seq() == given@,
                all == children_view(given@),
                supported_children(children_view(given@)),
                top.wf(),
                self@ == below.push(after_children(top, all.take(it.index() as int))),
                self.wf(),
        {
            assert(c == given[it.index() as int]);
            assert(supported_child(children_view(given@)[it.index() as int]));
            proof {
                lemma_after_children(top, all.take(it.index() as int));
                assert(all.take(it.index() + 1).drop_last() =~= all.take(it.index() as int));
                assert(self@.drop_last() =~= below);
            }
            self.lower_child(c);
        }
        assert(all.take(all.len() as int) =~= all);
    }
}

} // verus!
