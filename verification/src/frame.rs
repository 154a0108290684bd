//! Template frames: what is known of one template while its elements are
//! being walked.
//!
//! A frame collects the markup of one contiguous subtree of host elements,
//! the bindings found in it, and one counter for each element that is open:
//! the number of children of that element met so far. The counters, read
//! from the outermost to the innermost, are the path of the node that comes
//! next.

use crate::ast::{Expr, ExprView};
use crate::markup::{
    anchors, balanced, fragments_view, joined, lemma_placeholders_in_markup, lemma_push,
    open_after, placeholders, plain, Fragment, FragmentView,
};
use crate::path::{
    ascending, bump, distinct, lemma_ascending_distinct, lemma_lt_bump, lemma_lt_close,
    lemma_lt_irreflexive, lemma_lt_next, lemma_lt_push, lemma_lt_transitive, path_lt, path_view,
};
use crate::text::same_text;
use vstd::prelude::*;
use vstd::seq_lib::{to_multiset_contains, to_multiset_len, to_multiset_remove};

verus! {

/// A patch to apply to a template once it is instantiated: put the result of
/// `value` at the node that `path` leads to.
#[derive(Debug, PartialEq, Eq)]
pub struct Binding {
    pub path: Vec<usize>,
    pub value: Expr,
}

/// The value of a [`Binding`].
pub struct BindingView {
    pub path: Seq<int>,
    pub value: ExprView,
}

impl View for Binding {
    type V = BindingView;

    open spec fn view(&self) -> BindingView {
        BindingView { path: path_view(self.path@), value: self.value@ }
    }
}

/// The values of a sequence of bindings.
pub open spec fn bindings_view(v: Seq<Binding>) -> Seq<BindingView> {
    v.map_values(|b: Binding| b@)
}

/// The paths of a sequence of bindings.
pub open spec fn paths_of(bs: Seq<BindingView>) -> Seq<Seq<int>> {
    bs.map_values(|b: BindingView| b.path)
}

/// The value of a [`Template`]: the markup of a closed frame and its
/// bindings.
pub struct TemplateView {
    pub markup: Seq<FragmentView>,
    pub bindings: Seq<BindingView>,
}

/// The value of a [`Frame`].
pub struct FrameView {
    /// The host element that opened the frame; `None` for the frame of a
    /// component.
    pub root: Option<Seq<char>>,
    /// The markup collected inside the root.
    pub body: Seq<FragmentView>,
    /// The bindings recorded so far, in the order they were met.
    pub bindings: Seq<BindingView>,
    /// One counter for the root and one for each element open inside it.
    pub counters: Seq<int>,
    /// The names of the elements open inside the root, outermost first.
    pub open: Seq<Seq<char>>,
}

impl FrameView {
    /// The frame that a host element opens.
    pub open spec fn host(name: Seq<char>) -> FrameView {
        FrameView {
            root: Some(name),
            body: Seq::empty(),
            bindings: Seq::empty(),
            counters: seq![0int],
            open: Seq::empty(),
        }
    }

    /// The frame that a component opens.
    pub open spec fn component() -> FrameView {
        FrameView {
            root: None,
            body: Seq::empty(),
            bindings: Seq::empty(),
            counters: seq![0int],
            open: Seq::empty(),
        }
    }

    /// The frame after a text: the text is markup and takes one position.
    pub open spec fn with_text(self, text: Seq<char>) -> FrameView {
        FrameView {
            body: self.body.push(FragmentView::Text(text)),
            counters: bump(self.counters),
            ..self
        }
    }

    /// The frame after a dynamic point: a placeholder is markup, the value is
    /// bound at the path that the counters spell, and one position is taken.
    pub open spec fn with_binding(self, value: ExprView) -> FrameView {
        FrameView {
            body: self.body.push(FragmentView::Anchor),
            bindings: self.bindings.push(BindingView { path: self.counters, value }),
            counters: bump(self.counters),
            ..self
        }
    }

    /// The frame after the opening tag of a nested host element.
    pub open spec fn opened(self, name: Seq<char>) -> FrameView {
        FrameView {
            body: self.body.push(FragmentView::Open(name)),
            counters: self.counters.push(0),
            open: self.open.push(name),
            ..self
        }
    }

    /// The frame after the closing tag of the innermost open element: its
    /// counter goes, and the element takes one position in its parent.
    pub open spec fn closed(self, name: Seq<char>) -> FrameView {
        FrameView {
            body: self.body.push(FragmentView::Close(name)),
            counters: bump(self.counters.drop_last()),
            open: self.open.drop_last(),
            ..self
        }
    }

    /// The template of a frame whose root is `name`, once the root is
    /// closed: the body between the root's two tags, and the bindings.
    pub open spec fn template(self, name: Seq<char>) -> TemplateView {
        TemplateView {
            markup: seq![FragmentView::Open(name)] + self.body + seq![FragmentView::Close(name)],
            bindings: self.bindings,
        }
    }

    /// What holds of every frame that the operations above make:
    /// there is one counter more than elements open inside the root, no
    /// counter is negative or counts more than the body has fragments, the
    /// tags of the body pair up but for the open elements, each placeholder
    /// of the body has its binding, the bindings come in ascending order of
    /// their paths, and all of them come before the node that the counters
    /// point at.
    pub open spec fn wf(self) -> bool {
        &&& self.counters.len() == self.open.len() + 1
        &&& forall|i: int|
            0 <= i < self.counters.len() ==> 0 <= #[trigger] self.counters[i]
                <= self.body.len()
        &&& open_after(Seq::empty(), self.body) == Some(self.open)
        &&& anchors(self.body) == self.bindings.len()
        &&& ascending(paths_of(self.bindings))
        &&& forall|i: int|
            0 <= i < self.bindings.len() ==> path_lt(
                (#[trigger] self.bindings[i]).path,
                self.counters,
            )
    }
}

impl TemplateView {
    /// What holds of the template of every closed frame: the markup is the
    /// root's opening tag, a balanced body and the root's closing tag, it has
    /// one placeholder for each binding, the bindings come in ascending
    /// order of their paths, and no two of them share a path.
    pub open spec fn wf(self, name: Seq<char>) -> bool {
        &&& self.markup.len() >= 2
        &&& self.markup.first() == FragmentView::Open(name)
        &&& self.markup.last() == FragmentView::Close(name)
        &&& balanced(self.markup.subrange(1, self.markup.len() - 1))
        &&& balanced(self.markup)
        &&& anchors(self.markup) == self.bindings.len()
        &&& ascending(paths_of(self.bindings))
        &&& distinct(paths_of(self.bindings))
    }
}

/// A new frame is well formed.
pub proof fn lemma_new_wf(name: Seq<char>)
    ensures
        FrameView::host(name).wf(),
        FrameView::component().wf(),
{
}

/// A text keeps a frame well formed.
pub proof fn lemma_text_wf(f: FrameView, text: Seq<char>)
    requires
        f.wf(),
    ensures
        f.with_text(text).wf(),
{
    let g = f.with_text(text);
    lemma_push(f.body, FragmentView::Text(text));
    assert forall|i: int| 0 <= i < g.bindings.len() implies path_lt(
        (#[trigger] g.bindings[i]).path,
        g.counters,
    ) by {
        lemma_lt_bump(f.bindings[i].path, f.counters);
    }
}

/// A binding keeps a frame well formed.
pub proof fn lemma_binding_wf(f: FrameView, value: ExprView)
    requires
        f.wf(),
    ensures
        f.with_binding(value).wf(),
{
    let g = f.with_binding(value);
    lemma_push(f.body, FragmentView::Anchor);
    lemma_lt_next(f.counters);
    assert forall|i: int| 0 <= i < g.bindings.len() implies path_lt(
        (#[trigger] g.bindings[i]).path,
        g.counters,
    ) by {
        if i < f.bindings.len() {
            lemma_lt_bump(f.bindings[i].path, f.counters);
        }
    }
    assert forall|i: int, j: int| 0 <= i < j < g.bindings.len() implies path_lt(
        paths_of(g.bindings)[i],
        paths_of(g.bindings)[j],
    ) by {
        if j < f.bindings.len() {
            assert(path_lt(paths_of(f.bindings)[i], paths_of(f.bindings)[j]));
        } else {
            assert(path_lt(f.bindings[i].path, f.counters));
        }
    }
}

/// An opening tag keeps a frame well formed.
pub proof fn lemma_opened_wf(f: FrameView, name: Seq<char>)
    requires
        f.wf(),
    ensures
        f.opened(name).wf(),
{
    let g = f.opened(name);
    lemma_push(f.body, FragmentView::Open(name));
    assert forall|i: int| 0 <= i < g.bindings.len() implies path_lt(
        (#[trigger] g.bindings[i]).path,
        g.counters,
    ) by {
        lemma_lt_push(f.bindings[i].path, f.counters, 0);
    }
}

/// The closing tag of the innermost open element keeps a frame well formed.
pub proof fn lemma_closed_wf(f: FrameView, name: Seq<char>)
    requires
        f.wf(),
        f.open.len() > 0,
        f.open.last() == name,
    ensures
        f.closed(name).wf(),
{
    let g = f.closed(name);
    lemma_push(f.body, FragmentView::Close(name));
    assert forall|i: int| 0 <= i < g.bindings.len() implies path_lt(
        (#[trigger] g.bindings[i]).path,
        g.counters,
    ) by {
        lemma_lt_close(f.bindings[i].path, f.counters);
    }
}

/// The template of a well-formed frame with nothing left open inside its
/// root is well formed.
pub proof fn lemma_template_wf(f: FrameView, name: Seq<char>)
    requires
        f.wf(),
        f.open.len() == 0,
    ensures
        f.template(name).wf(name),
{
    let t = f.template(name);
    lemma_ascending_distinct(paths_of(f.bindings));
    let head = seq![FragmentView::Open(name)] + f.body;
    assert(t.markup == head.push(FragmentView::Close(name)));
    assert(t.markup.subrange(1, t.markup.len() - 1) =~= f.body);
    assert(f.open =~= Seq::<Seq<char>>::empty());
    lemma_anchors_after_open(name, f.body);
    lemma_push(head, FragmentView::Close(name));
    lemma_open_after_opening(name, f.body);
    assert(seq![name].drop_last() =~= Seq::<Seq<char>>::empty());
}

proof fn lemma_anchors_after_open(name: Seq<char>, fs: Seq<FragmentView>)
    ensures
        anchors(seq![FragmentView::Open(name)] + fs) == anchors(fs),
    decreases fs.len(),
{
    let first = seq![FragmentView::Open(name)];
    if fs.len() == 0 {
        assert(first + fs =~= Seq::<FragmentView>::empty().push(FragmentView::Open(name)));
        lemma_push(Seq::empty(), FragmentView::Open(name));
    } else {
        lemma_anchors_after_open(name, fs.drop_last());
        assert(first + fs =~= (first + fs.drop_last()).push(fs.last()));
        lemma_push(first + fs.drop_last(), fs.last());
    }
}

proof fn lemma_open_after_opening(name: Seq<char>, fs: Seq<FragmentView>)
    requires
        open_after(Seq::empty(), fs) is Some,
    ensures
        open_after(Seq::empty(), seq![FragmentView::Open(name)] + fs) == Some(
            seq![name] + open_after(Seq::empty(), fs)->0,
        ),
    decreases fs.len(),
{
    let first = seq![FragmentView::Open(name)];
    if fs.len() == 0 {
        assert(first + fs =~= Seq::<FragmentView>::empty().push(FragmentView::Open(name)));
        lemma_push(Seq::empty(), FragmentView::Open(name));
        assert(seq![name] + Seq::<Seq<char>>::empty() =~= Seq::<Seq<char>>::empty().push(name));
    } else {
        let head = fs.drop_last();
        lemma_open_after_opening(name, head);
        assert(first + fs =~= (first + head).push(fs.last()));
        lemma_push(first + head, fs.last());
        let inner = open_after(Seq::empty(), head)->0;
        match fs.last() {
            FragmentView::Open(n) => {
                assert((seq![name] + inner).push(n) =~= seq![name] + inner.push(n));
            },
            FragmentView::Close(n) => {
                assert((seq![name] + inner).drop_last() =~= seq![name] + inner.drop_last());
            },
            _ => {},
        }
    }
}

/// In the markup string of a well-formed template whose fragments are as a
/// parser gives them, the three characters `<!>` occur exactly once for each
/// binding.
pub proof fn lemma_placeholders_of_template(t: TemplateView, name: Seq<char>)
    requires
        t.wf(name),
        plain(t.markup),
    ensures
        placeholders(joined(t.markup)) == t.bindings.len(),
{
    lemma_placeholders_in_markup(t.markup);
}

/// No two bindings of a well-formed frame share a path.
pub proof fn lemma_frame_paths_distinct(f: FrameView)
    requires
        f.wf(),
    ensures
        forall|i: int, j: int|
            0 <= i < f.bindings.len() && 0 <= j < f.bindings.len() && i != j
                ==> f.bindings[i].path != f.bindings[j].path,
{
    lemma_ascending_distinct(paths_of(f.bindings));
    assert forall|i: int, j: int|
        0 <= i < f.bindings.len() && 0 <= j < f.bindings.len() && i != j implies f.bindings[i].path
        != f.bindings[j].path by {
        assert(paths_of(f.bindings)[i] != paths_of(f.bindings)[j]);
    }
}

/// Bindings whose paths ascend stand in the one order in which they can:
/// whichever way the same bindings are arranged, if the paths ascend, the
/// arrangement is this one. So to sort the bindings of a frame by their
/// paths is to leave them in the order in which they were met.
pub proof fn lemma_ascending_order_unique(a: Seq<BindingView>, b: Seq<BindingView>)
    requires
        ascending(paths_of(a)),
        ascending(paths_of(b)),
        a.to_multiset() == b.to_multiset(),
    ensures
        a == b,
    decreases a.len(),
{
    to_multiset_len(a);
    to_multiset_len(b);
    if a.len() == 0 {
        assert(a =~= b);
    } else {
        let n = a.len() - 1;
        let la = a[n];
        let lb = b[n];
        to_multiset_contains(a, la);
        to_multiset_contains(b, la);
        to_multiset_contains(a, lb);
        to_multiset_contains(b, lb);
        assert(a.contains(la));
        assert(b.contains(lb));
        let j = choose|j: int| 0 <= j < b.len() && b[j] == la;
        let i = choose|i: int| 0 <= i < a.len() && a[i] == lb;
        if j < n {
            assert(path_lt(paths_of(b)[j], paths_of(b)[n]));
            if i < n {
                assert(path_lt(paths_of(a)[i], paths_of(a)[n]));
                lemma_lt_transitive(la.path, lb.path, la.path);
            }
            lemma_lt_irreflexive(la.path);
        }
        assert(la == lb);
        let x = a.drop_last();
        let y = b.drop_last();
        assert(a.remove(n) =~= x);
        assert(b.remove(n) =~= y);
        to_multiset_remove(a, n);
        to_multiset_remove(b, n);
        assert forall|p: int, q: int| 0 <= p < q < x.len() implies path_lt(
            paths_of(x)[p],
            paths_of(x)[q],
        ) by {
            assert(path_lt(paths_of(a)[p], paths_of(a)[q]));
        }
        assert forall|p: int, q: int| 0 <= p < q < y.len() implies path_lt(
            paths_of(y)[p],
            paths_of(y)[q],
        ) by {
            assert(path_lt(paths_of(b)[p], paths_of(b)[q]));
        }
        lemma_ascending_order_unique(x, y);
        assert(a =~= x.push(la));
        assert(b =~= y.push(lb));
    }
}

/// The markup of a closed frame with its bindings.
#[derive(Debug, PartialEq, Eq)]
pub struct Template {
    pub markup: Vec<Fragment>,
    pub bindings: Vec<Binding>,
}

impl View for Template {
    type V = TemplateView;

    open spec fn view(&self) -> TemplateView {
        TemplateView {
            markup: fragments_view(self.markup@),
            bindings: bindings_view(self.bindings@),
        }
    }
}

/// The names as mathematical strings.
pub open spec fn names_view(v: Seq<String>) -> Seq<Seq<char>> {
    v.map_values(|s: String| s@)
}

/// A template frame.
#[derive(Debug)]
pub struct Frame {
    root: Option<String>,
    body: Vec<Fragment>,
    bindings: Vec<Binding>,
    counters: Vec<usize>,
    open: Vec<String>,
}

impl View for Frame {
    type V = FrameView;

    closed spec fn view(&self) -> FrameView {
        FrameView {
            root: match self.root {
                Some(name) => Some(name@),
                None => None,
            },
            body: fragments_view(self.body@),
            bindings: bindings_view(self.bindings@),
            counters: path_view(self.counters@),
            open: names_view(self.open@),
        }
    }
}

/// A copy of `path`.
pub fn copy_path(path: &Vec<usize>) -> (out: Vec<usize>)
    ensures
        out@ == path@,
{
    let mut out: Vec<usize> = Vec::new();
    let mut i: usize = 0;
    while i < path.len()
        invariant
            i <= path.len(),
            out@ == path@.take(i as int),
        decreases path.len() - i,
    {
        out.push(path[i]);
        assert(path@.take(i + 1) =~= path@.take(i as int).push(path@[i as int]));
        i += 1;
    }
    assert(path@.take(path@.len() as int) =~= path@);
    out
}

impl Frame {
    /// The frame that the host element `name` opens.
    pub fn host(name: &str) -> (out: Frame)
        ensures
            out@ == FrameView::host(name@),
            out@.wf(),
    {
        let mut counters: Vec<usize> = Vec::new();
        counters.push(0);
        let out = Frame {
            root: Some(name.to_owned()),
            body: Vec::new(),
            bindings: Vec::new(),
            counters,
            open: Vec::new(),
        };
        assert(out@.body =~= Seq::<FragmentView>::empty());
        assert(out@.bindings =~= Seq::<BindingView>::empty());
        assert(out@.counters =~= seq![0int]);
        assert(out@.open =~= Seq::<Seq<char>>::empty());
        out
    }

    /// The frame that a component opens.
    pub fn component() -> (out: Frame)
        ensures
            out@ == FrameView::component(),
            out@.wf(),
    {
        let mut counters: Vec<usize> = Vec::new();
        counters.push(0);
        let out = Frame {
            root: None,
            body: Vec::new(),
            bindings: Vec::new(),
            counters,
            open: Vec::new(),
        };
        assert(out@.body =~= Seq::<FragmentView>::empty());
        assert(out@.bindings =~= Seq::<BindingView>::empty());
        assert(out@.counters =~= seq![0int]);
        assert(out@.open =~= Seq::<Seq<char>>::empty());
        out
    }

    /// Whether a host element opened the frame.
    pub fn is_host(&self) -> (out: bool)
        ensures
            out == self@.root is Some,
    {
        self.root.is_some()
    }

    /// Whether the frame was opened by the host element `name`.
    pub fn has_root(&self, name: &str) -> (out: bool)
        ensures
            out == (self@.root == Some(name@)),
    {
        match &self.root {
            Some(root) => same_text(root.as_str(), name),
            None => false,
        }
    }

    /// The number of elements open inside the root.
    pub fn depth(&self) -> (out: usize)
        ensures
            out == self@.open.len(),
    {
        self.open.len()
    }

    /// Whether `name` is the innermost element open inside the root.
    pub fn innermost_is(&self, name: &str) -> (out: bool)
        ensures
            out == (self@.open.len() > 0 && self@.open.last() == name@),
    {
        let n = self.open.len();
        if n == 0 {
            false
        } else {
            same_text(self.open[n - 1].as_str(), name)
        }
    }

    /// The position that the next child of the innermost open element
    /// takes, where the frame is well formed.
    pub fn position(&self) -> (out: Option<usize>)
        ensures
            self@.counters.len() > 0 ==> out is Some && out->0 == self@.counters.last(),
            self@.counters.len() == 0 ==> out is None,
    {
        let n = self.counters.len();
        if n == 0 {
            None
        } else {
            Some(self.counters[n - 1])
        }
    }

    /// Adds a text.
    pub fn push_text(&mut self, text: String)
        requires
            old(self)@.wf(),
        ensures
            final(self)@ == old(self)@.with_text(text@),
            final(self)@.wf(),
    {
        let ghost before = self@;
        let n = self.counters.len();
        let at = self.counters[n - 1];
        self.body.push(Fragment::Text(text));
        let room = self.body.len();
        assert(at < room) by {
            assert(before.counters[n - 1] <= before.body.len());
        }
        self.counters[n - 1] = at + 1;
        proof {
            assert(self@.body =~= before.with_text(text@).body);
            assert(self@.counters =~= before.with_text(text@).counters);
            lemma_text_wf(before, text@);
        }
    }

    /// Records a dynamic point with the value to apply there.
    pub fn push_binding(&mut self, value: Expr)
        requires
            old(self)@.wf(),
        ensures
            final(self)@ == old(self)@.with_binding(value@),
            final(self)@.wf(),
    {
        let ghost before = self@;
        let n = self.counters.len();
        let at = self.counters[n - 1];
        let path = copy_path(&self.counters);
        self.body.push(Fragment::Anchor);
        let room = self.body.len();
        assert(at < room) by {
            assert(before.counters[n - 1] <= before.body.len());
        }
        self.bindings.push(Binding { path, value });
        self.counters[n - 1] = at + 1;
        proof {
            assert(self@.body =~= before.with_binding(value@).body);
            assert(self@.bindings =~= before.with_binding(value@).bindings);
            assert(self@.counters =~= before.with_binding(value@).counters);
            lemma_binding_wf(before, value@);
        }
    }

    /// Opens the nested host element `name`.
    pub fn open_child(&mut self, name: &str)
        requires
            old(self)@.wf(),
        ensures
            final(self)@ == old(self)@.opened(name@),
            final(self)@.wf(),
    {
        let ghost before = self@;
        self.body.push(Fragment::Open(name.to_owned()));
        self.counters.push(0);
        self.open.push(name.to_owned());
        proof {
            assert(self@.body =~= before.opened(name@).body);
            assert(self@.counters =~= before.opened(name@).counters);
            assert(self@.open =~= before.opened(name@).open);
            lemma_opened_wf(before, name@);
        }
    }

    /// Closes the innermost open element, which `name` names.
    pub fn close_child(&mut self, name: &str)
        requires
            old(self)@.wf(),
            old(self)@.open.len() > 0,
            old(self)@.open.last() == name@,
        ensures
            final(self)@ == old(self)@.closed(name@),
            final(self)@.wf(),
    {
        let ghost before = self@;
        self.body.push(Fragment::Close(name.to_owned()));
        self.counters.pop();
        self.open.pop();
        let n = self.counters.len();
        let at = self.counters[n - 1];
        let room = self.body.len();
        assert(at < room) by {
            assert(before.counters[n - 1] <= before.body.len());
        }
        self.counters[n - 1] = at + 1;
        proof {
            assert(self@.body =~= before.closed(name@).body);
            assert(self@.counters =~= before.closed(name@).counters);
            assert(self@.open =~= before.closed(name@).open);
            lemma_closed_wf(before, name@);
        }
    }

    /// Closes the root, which `name` names, and hands out the template.
    pub fn into_template(self, name: &str) -> (out: Template)
        requires
            self@.wf(),
            self@.root == Some(name@),
            self@.open.len() == 0,
        ensures
            out@ == self@.template(name@),
            out@.wf(name@),
    {
        let Frame { root, body, bindings, counters, open } = self;
        let mut markup: Vec<Fragment> = Vec::new();
        markup.push(Fragment::Open(name.to_owned()));
        let mut body = body;
        let ghost inner = fragments_view(body@);
        markup.append(&mut body);
        markup.push(Fragment::Close(name.to_owned()));
        let out = Template { markup, bindings };
        proof {
            assert(out@.markup =~= self@.template(name@).markup);
            lemma_template_wf(self@, name@);
        }
        out
    }
}

} // verus!
