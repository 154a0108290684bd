//! The component registry: source files by name.
//!
//! A registry is a list of pairs, the name of a component's source file and
//! the text of that file. It is made once, by whoever reads the files, and
//! handed to whoever looks a component up.

use crate::text::{chars_of, same_text};
use vstd::prelude::*;
use vstd::string::StrSliceExecFns;

verus! {

/// A component: its name and its source text.
#[derive(Debug, Clone, Copy, PartialEq, Eq)]
pub struct Component {
    pub name: &'static str,
    pub source: &'static str,
}

impl Component {
    pub fn new(name: &'static str, source: &'static str) -> (out: Self)
        ensures
            out.name == name,
            out.source == source,
    {
        Self { source, name }
    }
}

/// The extension of a component's source file: `.jsx`.
pub open spec fn extension() -> Seq<char> {
    seq!['.', 'j', 's', 'x']
}

/// `s` ends with the extension.
pub open spec fn has_extension(s: Seq<char>) -> bool {
    s.len() >= 4 && s.subrange(s.len() - 4, s.len() as int) == extension()
}

/// The name of the component that the file `s` holds: `s` without the
/// extension at its end, where it has one.
pub open spec fn stem(s: Seq<char>) -> Seq<char> {
    if has_extension(s) {
        s.take(s.len() - 4)
    } else {
        s
    }
}

/// Entry `i` of the registry holds the component `name`.
pub open spec fn holds_at(
    components: Seq<(&'static str, &'static str)>,
    name: Seq<char>,
    i: int,
) -> bool {
    0 <= i < components.len() && stem(components[i].0@) == name
}

/// Whether `file_name` names the source file of a component.
pub fn is_component_file(file_name: &str) -> (out: bool)
    ensures
        out == has_extension(file_name@),
{
    let chars = chars_of(file_name);
    assert(chars@.take(chars@.len() as int) =~= file_name@);
    ends_with_extension(&chars, chars.len())
}

/// Whether the first `n` characters of `chars` end with the extension.
fn ends_with_extension(chars: &Vec<char>, n: usize) -> (out: bool)
    requires
        n <= chars.len(),
    ensures
        out == has_extension(chars@.take(n as int)),
{
    let ghost s = chars@.take(n as int);
    if n < 4 {
        return false;
    }
    let out = chars[n - 4] == '.' && chars[n - 3] == 'j' && chars[n - 2] == 's' && chars[n - 1]
        == 'x';
    proof {
        let tail = s.subrange(s.len() - 4, s.len() as int);
        assert(tail[0] == chars@[n - 4]);
        assert(tail[1] == chars@[n - 3]);
        assert(tail[2] == chars@[n - 2]);
        assert(tail[3] == chars@[n - 1]);
        if out {
            assert(tail =~= extension());
        }
    }
    out
}

/// The number of characters of `file_name` that make up the component's
/// name.
fn stem_length(file_name: &str) -> (out: usize)
    ensures
        out <= file_name@.len(),
        stem(file_name@) == file_name@.take(out as int),
{
    let chars = chars_of(file_name);
    let n: usize = chars.len();
    assert(chars@.take(n as int) =~= chars@);
    if ends_with_extension(&chars, n) {
        n - 4
    } else {
        n
    }
}

/// Looks the component `name` up: the first entry of `components` whose
/// file, its extension taken off, is called `name`, letter for letter. The
/// component has that name and the entry's source text.
pub fn get_component(components: &[(&'static str, &'static str)], name: &str) -> (out: Option<
    Component,
>)
    ensures
        out is None <==> forall|i: int| !holds_at(components@, name@, i),
        out matches Some(c) ==> exists|i: int|
            {
                &&& #[trigger] holds_at(components@, name@, i)
                &&& forall|j: int| 0 <= j < i ==> !holds_at(components@, name@, j)
                &&& c.name@ == name@
                &&& c.source == components@[i].1
            },
{
    let mut i: usize = 0;
    while i < components.len()
        invariant
            i <= components.len(),
            forall|j: int| 0 <= j < i ==> !holds_at(components@, name@, j),
        decreases components.len() - i,
    {
        let file_name: &'static str = components[i].0;
        let n = stem_length(file_name);
        let candidate: &'static str = file_name.substring_char(0, n);
        assert(candidate@ =~= stem(file_name@));
        if same_text(candidate, name) {
            assert(holds_at(components@, name@, i as int));
            return Some(Component::new(candidate, components[i].1));
        }
        i += 1;
    }
    None
}

} // verus!
