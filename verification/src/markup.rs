//! Template markup: the fragments a frame collects, and the string they
//! join to.

use vstd::prelude::*;
use vstd::string::StringExecFns;

verus! {

/// One piece of template markup.
#[derive(Debug, PartialEq, Eq)]
pub enum Fragment {
    /// The opening tag of a host element, by its name.
    Open(String),
    /// The closing tag of a host element, by its name.
    Close(String),
    /// Literal text.
    Text(String),
    /// The placeholder that marks where a binding is applied.
    Anchor,
}

/// The value of a [`Fragment`].
pub enum FragmentView {
    Open(Seq<char>),
    Close(Seq<char>),
    Text(Seq<char>),
    Anchor,
}

impl View for Fragment {
    type V = FragmentView;

    open spec fn view(&self) -> FragmentView {
        match self {
            Fragment::Open(n) => FragmentView::Open(n@),
            Fragment::Close(n) => FragmentView::Close(n@),
            Fragment::Text(t) => FragmentView::Text(t@),
            Fragment::Anchor => FragmentView::Anchor,
        }
    }
}

/// The values of a sequence of fragments.
pub open spec fn fragments_view(v: Seq<Fragment>) -> Seq<FragmentView> {
    v.map_values(|f: Fragment| f@)
}

/// The placeholder as it stands in markup: `<!>`.
pub open spec fn placeholder() -> Seq<char> {
    seq!['<', '!', '>']
}

/// A fragment as it stands in markup: `<name>`, `</name>`, the text itself,
/// or the placeholder.
pub open spec fn rendered(f: FragmentView) -> Seq<char> {
    match f {
        FragmentView::Open(n) => seq!['<'] + n + seq!['>'],
        FragmentView::Close(n) => seq!['<', '/'] + n + seq!['>'],
        FragmentView::Text(t) => t,
        FragmentView::Anchor => placeholder(),
    }
}

/// The markup string: the fragments as they stand in markup, one after the
/// other with nothing between them.
pub open spec fn joined(fs: Seq<FragmentView>) -> Seq<char>
    decreases fs.len(),
{
    if fs.len() == 0 {
        Seq::empty()
    } else {
        joined(fs.drop_last()) + rendered(fs.last())
    }
}

/// The number of placeholders among `fs`.
pub open spec fn anchors(fs: Seq<FragmentView>) -> nat
    decreases fs.len(),
{
    if fs.len() == 0 {
        0
    } else {
        anchors(fs.drop_last()) + if fs.last() is Anchor {
            1nat
        } else {
            0nat
        }
    }
}

/// The elements open after `f`, given those open before it, outermost
/// first. `None` where `f` closes anything but the innermost open element.
pub open spec fn open_after_one(open: Seq<Seq<char>>, f: FragmentView) -> Option<Seq<Seq<char>>> {
    match f {
        FragmentView::Open(n) => Some(open.push(n)),
        FragmentView::Close(n) => if open.len() > 0 && open.last() == n {
            Some(open.drop_last())
        } else {
            None
        },
        _ => Some(open),
    }
}

/// The elements open after `fs`, given those open before it, outermost
/// first. `None` where some closing tag closes anything but the innermost
/// element open at that point.
pub open spec fn open_after(open: Seq<Seq<char>>, fs: Seq<FragmentView>) -> Option<
    Seq<Seq<char>>,
>
    decreases fs.len(),
{
    if fs.len() == 0 {
        Some(open)
    } else {
        match open_after(open, fs.drop_last()) {
            None => None,
            Some(then) => open_after_one(then, fs.last()),
        }
    }
}

/// Every opening tag of `fs` is closed by a closing tag of the same name,
/// every closing tag closes one, and the pairs nest.
pub open spec fn balanced(fs: Seq<FragmentView>) -> bool {
    open_after(Seq::empty(), fs) == Some(Seq::<Seq<char>>::empty())
}

/// Adding one fragment adds its text to the markup string, its placeholder
/// to the count, and its tag to the open elements.
pub proof fn lemma_push(fs: Seq<FragmentView>, f: FragmentView)
    ensures
        joined(fs.push(f)) == joined(fs) + rendered(f),
        anchors(fs.push(f)) == anchors(fs) + if f is Anchor {
            1nat
        } else {
            0nat
        },
        forall|open: Seq<Seq<char>>| #[trigger]
            open_after(open, fs.push(f)) == match open_after(open, fs) {
                None => None,
                Some(then) => open_after_one(then, f),
            },
{
    assert(fs.push(f).drop_last() =~= fs);
}

/// The markup string of fragments put together is the markup strings put
/// together.
pub proof fn lemma_joined_add(a: Seq<FragmentView>, b: Seq<FragmentView>)
    ensures
        joined(a + b) == joined(a) + joined(b),
    decreases b.len(),
{
    if b.len() == 0 {
        assert(a + b =~= a);
        assert(joined(a) + joined(b) =~= joined(a));
    } else {
        lemma_joined_add(a, b.drop_last());
        assert((a + b).drop_last() =~= a + b.drop_last());
        assert(joined(a + b) =~= joined(a) + joined(b));
    }
}

/// The three characters of a placeholder stand in `s` from index `p` on.
pub open spec fn placeholder_at(s: Seq<char>, p: int) -> bool {
    0 <= p && p + 3 <= s.len() && s[p] == '<' && s[p + 1] == '!' && s[p + 2] == '>'
}

/// The number of places before index `n` at which a placeholder stands in
/// `s`.
pub open spec fn placeholders_before(s: Seq<char>, n: int) -> nat
    decreases n,
{
    if n <= 0 {
        0
    } else {
        placeholders_before(s, n - 1) + if placeholder_at(s, n - 1) {
            1nat
        } else {
            0nat
        }
    }
}

/// The number of times the three characters `<!>` occur in `s`.
pub open spec fn placeholders(s: Seq<char>) -> nat {
    placeholders_before(s, s.len() as int)
}

/// The fragment is as a parser gives it: no `<` stands in a text, and
/// neither `<` nor `!` in the name of a tag.
pub open spec fn plain_fragment(f: FragmentView) -> bool {
    match f {
        FragmentView::Text(t) => forall|i: int| 0 <= i < t.len() ==> t[i] != '<',
        FragmentView::Open(n) => forall|i: int| 0 <= i < n.len() ==> n[i] != '<' && n[i] != '!',
        FragmentView::Close(n) => forall|i: int| 0 <= i < n.len() ==> n[i] != '<' && n[i] != '!',
        FragmentView::Anchor => true,
    }
}

/// Every fragment is as a parser gives it.
pub open spec fn plain(fs: Seq<FragmentView>) -> bool {
    forall|i: int| 0 <= i < fs.len() ==> plain_fragment(#[trigger] fs[i])
}

/// No placeholder can begin in the last two characters of `s` and end in
/// what is put behind it.
spec fn ends_safely(s: Seq<char>) -> bool {
    &&& s.len() >= 1 ==> s.last() != '<'
    &&& s.len() >= 2 && s[s.len() - 2] == '<' ==> s.last() != '!'
}

proof fn lemma_no_placeholders(s: Seq<char>, n: int)
    requires
        forall|p: int| 0 <= p < n ==> !placeholder_at(s, p),
    ensures
        placeholders_before(s, n) == 0,
    decreases n,
{
    if n > 0 {
        lemma_no_placeholders(s, n - 1);
    }
}

proof fn lemma_placeholders_front(a: Seq<char>, r: Seq<char>, n: int)
    requires
        0 <= n <= a.len(),
        ends_safely(a),
    ensures
        placeholders_before(a + r, n) == placeholders_before(a, n),
    decreases n,
{
    if n > 0 {
        lemma_placeholders_front(a, r, n - 1);
        let p = n - 1;
        let s = a + r;
        if p + 3 <= a.len() {
            assert(s[p] == a[p] && s[p + 1] == a[p + 1] && s[p + 2] == a[p + 2]);
        } else {
            assert(!placeholder_at(a, p));
            if p == a.len() - 1 {
                assert(s[p] == a.last());
            } else {
                assert(p == a.len() - 2);
                assert(s[p] == a[p] && s[p + 1] == a.last());
            }
            assert(!placeholder_at(s, p));
        }
    }
}

proof fn lemma_placeholders_back(a: Seq<char>, r: Seq<char>, n: int)
    requires
        0 <= n <= r.len(),
    ensures
        placeholders_before(a + r, a.len() + n) == placeholders_before(a + r, a.len() as int)
            + placeholders_before(r, n),
    decreases n,
{
    if n > 0 {
        lemma_placeholders_back(a, r, n - 1);
        let p = n - 1;
        let s = a + r;
        if p + 3 <= r.len() {
            assert(s[a.len() + p] == r[p] && s[a.len() + p + 1] == r[p + 1] && s[a.len() + p + 2]
                == r[p + 2]);
        }
        assert(placeholder_at(s, a.len() + p) == placeholder_at(r, p));
    }
}

proof fn lemma_placeholders_of_fragment(a: Seq<char>, f: FragmentView)
    requires
        plain_fragment(f),
        ends_safely(a),
    ensures
        placeholders(rendered(f)) == if f is Anchor {
            1nat
        } else {
            0nat
        },
        ends_safely(a + rendered(f)),
{
    let r = rendered(f);
    let s = a + r;
    match f {
        FragmentView::Text(t) => {
            lemma_no_placeholders(r, r.len() as int);
            if t.len() == 1 && a.len() >= 1 {
                assert(s[s.len() - 2] == a.last());
            }
            if t.len() >= 1 {
                assert(s.last() == t.last());
            } else {
                assert(s =~= a);
            }
            if t.len() >= 2 {
                assert(s[s.len() - 2] == t[t.len() - 2]);
            }
        },
        FragmentView::Open(n) => {
            assert(r.len() == n.len() + 2);
            assert(r[0] == '<');
            assert(r[r.len() - 1] == '>');
            assert forall|p: int| 0 <= p < r.len() implies !placeholder_at(r, p) by {
                if 1 <= p <= n.len() {
                    assert(r[p] == n[p - 1]);
                }
                if p == 0 && n.len() > 0 {
                    assert(r[1] == n[0]);
                }
            }
            lemma_no_placeholders(r, r.len() as int);
            assert(s.last() == '>');
            if n.len() > 0 {
                assert(s[s.len() - 2] == n.last());
            }
        },
        FragmentView::Close(n) => {
            assert(r.len() == n.len() + 3);
            assert(r[0] == '<');
            assert(r[1] == '/');
            assert(r[r.len() - 1] == '>');
            assert forall|p: int| 0 <= p < r.len() implies !placeholder_at(r, p) by {
                if 2 <= p <= n.len() + 1 {
                    assert(r[p] == n[p - 2]);
                }
            }
            lemma_no_placeholders(r, r.len() as int);
            assert(s.last() == '>');
            if n.len() > 0 {
                assert(s[s.len() - 2] == n.last());
            } else {
                assert(s[s.len() - 2] == '/');
            }
        },
        FragmentView::Anchor => {
            assert(r.len() == 3);
            assert(placeholder_at(r, 0));
            assert(!placeholder_at(r, 1));
            assert(!placeholder_at(r, 2));
            assert(placeholders_before(r, 0) == 0);
            assert(placeholders_before(r, 1) == 1);
            assert(placeholders_before(r, 2) == 1);
            assert(placeholders_before(r, 3) == 1);
            assert(s.last() == '>');
            assert(s[s.len() - 2] == '!');
        },
    }
}

/// In the markup string of fragments as a parser gives them, the three
/// characters `<!>` occur once for each placeholder fragment and nowhere
/// else.
pub proof fn lemma_placeholders_in_markup(fs: Seq<FragmentView>)
    requires
        plain(fs),
    ensures
        placeholders(joined(fs)) == anchors(fs),
{
    lemma_placeholders_counted(fs);
}

proof fn lemma_placeholders_counted(fs: Seq<FragmentView>)
    requires
        plain(fs),
    ensures
        placeholders(joined(fs)) == anchors(fs),
        ends_safely(joined(fs)),
    decreases fs.len(),
{
    if fs.len() > 0 {
        let head = fs.drop_last();
        let f = fs.last();
        assert(plain(head)) by {
            assert forall|i: int| 0 <= i < head.len() implies plain_fragment(
                #[trigger] head[i],
            ) by {
                assert(head[i] == fs[i]);
            }
        }
        lemma_placeholders_counted(head);
        let a = joined(head);
        let r = rendered(f);
        lemma_placeholders_of_fragment(a, f);
        lemma_placeholders_front(a, r, a.len() as int);
        lemma_placeholders_back(a, r, r.len() as int);
        assert((a + r).len() == a.len() + r.len());
    }
}

impl Fragment {
    /// The fragment as it stands in markup.
    pub fn render(&self) -> (out: String)
        ensures
            out@ == rendered(self@),
    {
        let mut out = String::new();
        match self {
            Fragment::Open(n) => {
                out.push('<');
                out.append(n.as_str());
                out.push('>');
                assert(out@ =~= rendered(self@));
            },
            Fragment::Close(n) => {
                out.push('<');
                out.push('/');
                out.append(n.as_str());
                out.push('>');
                assert(out@ =~= rendered(self@));
            },
            Fragment::Text(t) => {
                out.append(t.as_str());
                assert(out@ =~= rendered(self@));
            },
            Fragment::Anchor => {
                out.push('<');
                out.push('!');
                out.push('>');
                assert(out@ =~= rendered(self@));
            },
        }
        out
    }
}

/// Joins the fragments into the markup string.
pub fn join(fragments: &Vec<Fragment>) -> (out: String)
    ensures
        out@ == joined(fragments_view(fragments@)),
{
    let ghost all = fragments_view(fragments@);
    let mut out = String::new();
    let mut i: usize = 0;
    assert(all.take(0) =~= Seq::<FragmentView>::empty());
    while i < fragments.len()
        invariant
            i <= fragments.len(),
            all == fragments_view(fragments@),
            out@ == joined(all.take(i as int)),
        decreases fragments.len() - i,
    {
        let piece = fragments[i].render();
        out.append(piece.as_str());
        proof {
            lemma_push(all.take(i as int), all[i as int]);
            assert(all.take(i + 1) =~= all.take(i as int).push(all[i as int]));
        }
        i += 1;
    }
    assert(all.take(all.len() as int) =~= all);
    out
}

} // verus!
