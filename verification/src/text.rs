//! Character-level helpers and the whitespace rule for JSX text.
//!
//! A JSX text is cut into its lines, the lines of nothing but spaces go,
//! each line that stays loses a single space where it meets a line break,
//! and the lines are joined by single spaces. [`trim_jsx_text`] does this
//! and [`trimmed`] is the mathematical statement of what it returns.

use vstd::prelude::*;

verus! {

/// `String::push` appends exactly one character to the end of the string.
pub assume_specification[ String::push ](s: &mut String, c: char)
    ensures
        final(s)@ == old(s)@.push(c),
;

/// `s` with every tab replaced by one space.
pub open spec fn untab(s: Seq<char>) -> Seq<char> {
    s.map_values(|c: char| if c == '\t' { ' ' } else { c })
}

/// Index of the first line feed of `s`, or its length when it has none.
pub open spec fn line_end(s: Seq<char>) -> int
    decreases s.len(),
{
    if s.len() == 0 || s[0] == '\n' {
        0
    } else {
        1 + line_end(s.drop_first())
    }
}

/// The first line of a non-empty `s`: everything before the first line feed,
/// without the carriage return that precedes that line feed, if any. A
/// carriage return that no line feed follows belongs to the line.
pub open spec fn first_line(s: Seq<char>) -> Seq<char> {
    let k = line_end(s);
    if k < s.len() && k > 0 && s[k - 1] == '\r' {
        s.take(k - 1)
    } else {
        s.take(k)
    }
}

/// What follows the first line of `s` and its line feed.
pub open spec fn after_first_line(s: Seq<char>) -> Seq<char> {
    let k = line_end(s);
    if k < s.len() {
        s.skip(k + 1)
    } else {
        Seq::empty()
    }
}

/// The lines of `s`. A final line feed ends the last line and opens no new
/// one, so the empty text has no line at all.
pub open spec fn lines_of(s: Seq<char>) -> Seq<Seq<char>>
    decreases s.len(),
{
    if s.len() == 0 {
        Seq::empty()
    } else {
        proof {
            lemma_line_end_bounds(s);
        }
        seq![first_line(s)] + lines_of(after_first_line(s))
    }
}

/// `s` without one space at its start, where it starts with a space.
pub open spec fn strip_start(s: Seq<char>) -> Seq<char> {
    if s.len() > 0 && s[0] == ' ' {
        s.drop_first()
    } else {
        s
    }
}

/// `s` without one space at its end, where it ends with a space.
pub open spec fn strip_end(s: Seq<char>) -> Seq<char> {
    if s.len() > 0 && s.last() == ' ' {
        s.drop_last()
    } else {
        s
    }
}

/// Line `i` of `lines` as it enters the result: a line that is not the
/// first loses a single leading space, and then a line that is not the last
/// loses a single trailing space.
pub open spec fn shaped_line(lines: Seq<Seq<char>>, i: int) -> Seq<char> {
    let from_start = if i != 0 {
        strip_start(lines[i])
    } else {
        lines[i]
    };
    if i != lines.len() - 1 {
        strip_end(from_start)
    } else {
        from_start
    }
}

/// Nothing but spaces stands in `s`.
pub open spec fn blank(s: Seq<char>) -> bool {
    forall|k: int| 0 <= k < s.len() ==> s[k] == ' '
}

/// Line `i` of `lines` stays in the result: it holds something other than
/// spaces. A text of one line only is not cut at all, and its line stays
/// unless it is empty.
pub open spec fn stays(lines: Seq<Seq<char>>, i: int) -> bool {
    if lines.len() == 1 {
        lines[i].len() > 0
    } else {
        !blank(lines[i])
    }
}

/// Those of the first `n` lines that stay, each shaped by its place, in
/// order.
pub open spec fn kept(lines: Seq<Seq<char>>, n: int) -> Seq<Seq<char>>
    decreases n,
{
    if n <= 0 {
        Seq::empty()
    } else if stays(lines, n - 1) {
        kept(lines, n - 1).push(shaped_line(lines, n - 1))
    } else {
        kept(lines, n - 1)
    }
}

/// The parts one after the other, a single space between each two.
pub open spec fn spaced(parts: Seq<Seq<char>>) -> Seq<char>
    decreases parts.len(),
{
    if parts.len() == 0 {
        Seq::empty()
    } else if parts.len() == 1 {
        parts[0]
    } else {
        spaced(parts.drop_last()).push(' ') + parts.last()
    }
}

/// The content of a JSX text: tabs count as spaces, the text is cut into
/// lines, the lines of nothing but spaces are dropped, each line that stays
/// is shaped as [`shaped_line`] says, and the lines are joined by single
/// spaces.
pub open spec fn trimmed(s: Seq<char>) -> Seq<char> {
    let lines = lines_of(untab(s));
    spaced(kept(lines, lines.len() as int))
}

/// A line that stays is not empty once it is shaped.
proof fn lemma_shaped_not_empty(lines: Seq<Seq<char>>, i: int)
    requires
        0 <= i < lines.len(),
        stays(lines, i),
    ensures
        shaped_line(lines, i).len() > 0,
{
    let line = lines[i];
    if lines.len() != 1 {
        let k = choose|k: int| 0 <= k < line.len() && line[k] != ' ';
        let from_start = if i != 0 {
            strip_start(line)
        } else {
            line
        };
        if from_start.len() < line.len() {
            assert(from_start[k - 1] == line[k]);
        }
        let j = if from_start.len() < line.len() {
            k - 1
        } else {
            k
        };
        assert(from_start[j] != ' ');
        if shaped_line(lines, i).len() < from_start.len() {
            assert(j < from_start.len() - 1);
        }
    }
}

proof fn lemma_kept_not_empty(lines: Seq<Seq<char>>, n: int)
    requires
        0 <= n <= lines.len(),
    ensures
        forall|i: int| 0 <= i < kept(lines, n).len() ==> (#[trigger] kept(lines, n)[i]).len() > 0,
    decreases n,
{
    if n > 0 {
        lemma_kept_not_empty(lines, n - 1);
        if stays(lines, n - 1) {
            lemma_shaped_not_empty(lines, n - 1);
        }
        let before = kept(lines, n - 1);
        assert forall|i: int| 0 <= i < kept(lines, n).len() implies (#[trigger] kept(
            lines,
            n,
        )[i]).len() > 0 by {
            if i < before.len() {
                assert(kept(lines, n)[i] == before[i]);
            }
        }
    }
}

proof fn lemma_spaced_empty(parts: Seq<Seq<char>>)
    requires
        forall|i: int| 0 <= i < parts.len() ==> (#[trigger] parts[i]).len() > 0,
    ensures
        spaced(parts).len() == 0 <==> parts.len() == 0,
{
}

/// The text after the first `n` lines, as it grows line by line: a line
/// that stays is put behind what is there, after a space where something is
/// there.
proof fn lemma_spaced_kept(lines: Seq<Seq<char>>, n: int)
    requires
        0 < n <= lines.len(),
    ensures
        spaced(kept(lines, n)) == if !stays(lines, n - 1) {
            spaced(kept(lines, n - 1))
        } else if spaced(kept(lines, n - 1)).len() == 0 {
            shaped_line(lines, n - 1)
        } else {
            spaced(kept(lines, n - 1)).push(' ') + shaped_line(lines, n - 1)
        },
{
    let before = kept(lines, n - 1);
    lemma_kept_not_empty(lines, n - 1);
    lemma_spaced_empty(before);
    if stays(lines, n - 1) {
        let parts = before.push(shaped_line(lines, n - 1));
        assert(parts.drop_last() =~= before);
    }
}

/// The views of a vector of lines.
pub open spec fn lines_view(lines: Seq<Vec<char>>) -> Seq<Seq<char>> {
    lines.map_values(|l: Vec<char>| l@)
}

pub proof fn lemma_line_end_bounds(s: Seq<char>)
    ensures
        0 <= line_end(s) <= s.len(),
        forall|i: int| 0 <= i < line_end(s) ==> s[i] != '\n',
        line_end(s) < s.len() ==> s[line_end(s)] == '\n',
    decreases s.len(),
{
    if s.len() == 0 || s[0] == '\n' {
    } else {
        lemma_line_end_bounds(s.drop_first());
        assert forall|i: int| 0 <= i < line_end(s) implies s[i] != '\n' by {
            if i > 0 {
                assert(s[i] == s.drop_first()[i - 1]);
            }
        }
    }
}

proof fn lemma_line_end_is(s: Seq<char>, k: int)
    requires
        0 <= k <= s.len(),
        forall|i: int| 0 <= i < k ==> s[i] != '\n',
        k < s.len() ==> s[k] == '\n',
    ensures
        line_end(s) == k,
    decreases k,
{
    if k == 0 {
    } else {
        let t = s.drop_first();
        assert forall|i: int| 0 <= i < k - 1 implies t[i] != '\n' by {
            assert(t[i] == s[i + 1]);
        }
        lemma_line_end_is(t, k - 1);
    }
}

/// `s` holds neither a line feed nor a tab.
pub open spec fn single_line(s: Seq<char>) -> bool {
    forall|i: int| 0 <= i < s.len() ==> s[i] != '\n' && s[i] != '\t'
}

proof fn lemma_lines_single(s: Seq<char>)
    requires
        forall|i: int| 0 <= i < s.len() ==> s[i] != '\t',
    ensures
        forall|i: int| 0 <= i < lines_of(s).len() ==> single_line(#[trigger] lines_of(s)[i]),
    decreases s.len(),
{
    if s.len() > 0 {
        lemma_line_end_bounds(s);
        let rest = after_first_line(s);
        assert forall|i: int| 0 <= i < rest.len() implies rest[i] != '\t' by {
            assert(rest[i] == s[line_end(s) + 1 + i]);
        }
        lemma_lines_single(rest);
        assert(single_line(first_line(s)));
        assert forall|i: int| 0 <= i < lines_of(s).len() implies single_line(
            #[trigger] lines_of(s)[i],
        ) by {
            if i > 0 {
                assert(lines_of(s)[i] == lines_of(rest)[i - 1]);
            }
        }
    }
}

proof fn lemma_kept_single(lines: Seq<Seq<char>>, n: int)
    requires
        0 <= n <= lines.len(),
        forall|i: int| 0 <= i < lines.len() ==> single_line(#[trigger] lines[i]),
    ensures
        single_line(spaced(kept(lines, n))),
    decreases n,
{
    if n > 0 {
        lemma_kept_single(lines, n - 1);
        lemma_spaced_kept(lines, n);
        let line = lines[n - 1];
        assert(single_line(line));
        let from_start = if n - 1 != 0 {
            strip_start(line)
        } else {
            line
        };
        assert forall|k: int| 0 <= k < from_start.len() implies from_start[k] != '\n'
            && from_start[k] != '\t' by {
            if from_start.len() < line.len() {
                assert(from_start[k] == line[k + 1]);
            }
        }
        assert(single_line(from_start));
        assert(single_line(shaped_line(lines, n - 1)));
    }
}

/// The content of a text holds no line feed and no tab.
pub proof fn lemma_trimmed_single_line(s: Seq<char>)
    ensures
        single_line(trimmed(s)),
{
    let t = untab(s);
    let lines = lines_of(t);
    lemma_lines_single(t);
    lemma_kept_single(lines, lines.len() as int);
}

/// A text without line feeds and tabs is its own content: nothing is cut
/// from a text of one line.
pub proof fn lemma_trimmed_of_single_line(s: Seq<char>)
    requires
        single_line(s),
    ensures
        trimmed(s) == s,
{
    assert(untab(s) =~= s);
    if s.len() == 0 {
        assert(trimmed(s) =~= s);
    } else {
        lemma_line_end_is(s, s.len() as int);
        assert(first_line(s) =~= s);
        assert(lines_of(after_first_line(s)) =~= Seq::<Seq<char>>::empty());
        assert(lines_of(s) =~= seq![s]);
        assert(stays(seq![s], 0));
        assert(shaped_line(seq![s], 0) == s);
        assert(kept(seq![s], 0) =~= Seq::<Seq<char>>::empty());
        assert(kept(seq![s], 1) =~= seq![s]);
    }
}

/// The character is white space: a space, a tab, a line feed or a carriage
/// return.
pub open spec fn is_space(c: char) -> bool {
    c == ' ' || c == '\t' || c == '\n' || c == '\r'
}

/// What is written in `s`: its characters other than white space, in order.
pub open spec fn ink(s: Seq<char>) -> Seq<char>
    decreases s.len(),
{
    if s.len() == 0 {
        Seq::empty()
    } else if is_space(s.last()) {
        ink(s.drop_last())
    } else {
        ink(s.drop_last()).push(s.last())
    }
}

/// What is written in the lines, one after the other.
spec fn ink_of_lines(lines: Seq<Seq<char>>, n: int) -> Seq<char>
    decreases n,
{
    if n <= 0 {
        Seq::empty()
    } else {
        ink_of_lines(lines, n - 1) + ink(lines[n - 1])
    }
}

proof fn lemma_ink_add(a: Seq<char>, b: Seq<char>)
    ensures
        ink(a + b) == ink(a) + ink(b),
    decreases b.len(),
{
    if b.len() == 0 {
        assert(a + b =~= a);
        assert(ink(a) + ink(b) =~= ink(a));
    } else {
        lemma_ink_add(a, b.drop_last());
        assert((a + b).drop_last() =~= a + b.drop_last());
        assert((a + b).last() == b.last());
        assert(ink(a + b) =~= ink(a) + ink(b));
    }
}

proof fn lemma_ink_one(c: char)
    ensures
        ink(seq![c]) == if is_space(c) {
            Seq::<char>::empty()
        } else {
            seq![c]
        },
{
    assert(seq![c].drop_last() =~= Seq::<char>::empty());
    assert(ink(Seq::<char>::empty()) =~= Seq::<char>::empty());
    assert(ink(seq![c]) =~= if is_space(c) {
        Seq::<char>::empty()
    } else {
        seq![c]
    });
}

proof fn lemma_ink_untab(s: Seq<char>)
    ensures
        ink(untab(s)) == ink(s),
    decreases s.len(),
{
    if s.len() > 0 {
        lemma_ink_untab(s.drop_last());
        assert(untab(s).drop_last() =~= untab(s.drop_last()));
    }
}

proof fn lemma_ink_blank(s: Seq<char>)
    requires
        blank(s),
    ensures
        ink(s) == Seq::<char>::empty(),
    decreases s.len(),
{
    if s.len() > 0 {
        assert(s.last() == ' ');
        lemma_ink_blank(s.drop_last());
    }
}

proof fn lemma_ink_shaped(lines: Seq<Seq<char>>, i: int)
    requires
        0 <= i < lines.len(),
    ensures
        ink(shaped_line(lines, i)) == ink(lines[i]),
{
    let line = lines[i];
    let from_start = if i != 0 {
        strip_start(line)
    } else {
        line
    };
    if from_start.len() < line.len() {
        assert(line =~= seq![' '] + from_start);
        lemma_ink_add(seq![' '], from_start);
        lemma_ink_one(' ');
        assert(ink(line) =~= ink(from_start));
    }
}

proof fn lemma_ink_front(lines: Seq<Seq<char>>, first: Seq<char>, n: int)
    requires
        0 <= n <= lines.len(),
    ensures
        ink_of_lines(seq![first] + lines, n + 1) == ink(first) + ink_of_lines(lines, n),
    decreases n,
{
    let all = seq![first] + lines;
    if n == 0 {
        assert(ink_of_lines(all, 0) =~= Seq::<char>::empty());
        assert(all[0] == first);
        assert(ink_of_lines(all, 1) =~= ink(first));
        assert(ink(first) + ink_of_lines(lines, 0) =~= ink(first));
    } else {
        lemma_ink_front(lines, first, n - 1);
        assert(all[n] == lines[n - 1]);
        assert(ink_of_lines(all, n + 1) =~= ink(first) + ink_of_lines(lines, n));
    }
}

proof fn lemma_ink_lines(s: Seq<char>)
    ensures
        ink_of_lines(lines_of(s), lines_of(s).len() as int) == ink(s),
    decreases s.len(),
{
    if s.len() == 0 {
    } else {
        lemma_line_end_bounds(s);
        let k = line_end(s);
        let rest = after_first_line(s);
        lemma_ink_lines(rest);
        lemma_ink_front(lines_of(rest), first_line(s), lines_of(rest).len() as int);
        let head = s.take(k);
        if k < s.len() && k > 0 && s[k - 1] == '\r' {
            assert(head.drop_last() =~= first_line(s));
            assert(head.last() == '\r');
        }
        assert(ink(head) == ink(first_line(s)));
        if k < s.len() {
            assert(s =~= head + seq!['\n'] + rest);
            lemma_ink_add(head + seq!['\n'], rest);
            lemma_ink_add(head, seq!['\n']);
            lemma_ink_one('\n');
            assert(ink(head) + Seq::<char>::empty() =~= ink(head));
        } else {
            assert(s =~= head);
            assert(ink(Seq::<char>::empty()) =~= Seq::<char>::empty());
            assert(ink_of_lines(lines_of(rest), 0) =~= Seq::<char>::empty());
            assert(ink(head) + Seq::<char>::empty() =~= ink(head));
        }
    }
}

proof fn lemma_ink_kept(lines: Seq<Seq<char>>, n: int)
    requires
        0 <= n <= lines.len(),
    ensures
        ink(spaced(kept(lines, n))) == ink_of_lines(lines, n),
    decreases n,
{
    if n > 0 {
        lemma_ink_kept(lines, n - 1);
        lemma_spaced_kept(lines, n);
        let before = spaced(kept(lines, n - 1));
        let line = lines[n - 1];
        let shaped = shaped_line(lines, n - 1);
        lemma_ink_shaped(lines, n - 1);
        if !stays(lines, n - 1) {
            if lines.len() != 1 {
                lemma_ink_blank(line);
            }
            assert(ink(line) =~= Seq::<char>::empty());
            assert(ink_of_lines(lines, n) =~= ink_of_lines(lines, n - 1));
        } else if before.len() == 0 {
            assert(ink(before) =~= Seq::<char>::empty());
            assert(ink_of_lines(lines, n) =~= ink(line));
        } else {
            lemma_ink_add(before.push(' '), shaped);
            assert(before.push(' ').drop_last() =~= before);
            assert(ink(before.push(' ')) == ink(before));
        }
    }
}

/// Trimming touches white space only: what is written in the content of a
/// text is what is written in the text, in the same order.
pub proof fn lemma_trimmed_keeps_ink(s: Seq<char>)
    ensures
        ink(trimmed(s)) == ink(s),
{
    let lines = lines_of(untab(s));
    lemma_ink_kept(lines, lines.len() as int);
    lemma_ink_lines(untab(s));
    lemma_ink_untab(s);
}

/// Trimming is idempotent: the content of a text is its own content.
pub proof fn lemma_trimmed_idempotent(s: Seq<char>)
    ensures
        trimmed(trimmed(s)) == trimmed(s),
{
    lemma_trimmed_single_line(s);
    lemma_trimmed_of_single_line(trimmed(s));
}

/// The characters of `s`, in order.
pub fn chars_of(s: &str) -> (out: Vec<char>)
    ensures
        out@ == s@,
{
    let mut out: Vec<char> = Vec::new();
    for c in it: s.chars()
        invariant
            it.seq() == s@,
            out@ == s@.take(it.index() as int),
    {
        out.push(c);
        assert(s@.take(it.index() + 1) =~= s@.take(it.index() as int).push(c));
    }
    assert(s@.take(s@.len() as int) =~= s@);
    out
}

/// The string made of the characters of `v`, in order.
pub fn string_of(v: &Vec<char>) -> (out: String)
    ensures
        out@ == v@,
{
    let mut out = String::new();
    let mut i: usize = 0;
    while i < v.len()
        invariant
            i <= v.len(),
            out@ == v@.take(i as int),
        decreases v.len() - i,
    {
        out.push(v[i]);
        assert(v@.take(i + 1) =~= v@.take(i as int).push(v@[i as int]));
        i += 1;
    }
    assert(v@.take(v@.len() as int) =~= v@);
    out
}

/// Whether `a` and `b` hold the same characters.
pub fn same_text(a: &str, b: &str) -> (out: bool)
    ensures
        out == (a@ == b@),
{
    let x = chars_of(a);
    let y = chars_of(b);
    if x.len() != y.len() {
        return false;
    }
    let mut i: usize = 0;
    while i < x.len()
        invariant
            i <= x.len(),
            x.len() == y.len(),
            x@ == a@,
            y@ == b@,
            forall|k: int| 0 <= k < i ==> x@[k] == y@[k],
        decreases x.len() - i,
    {
        if x[i] != y[i] {
            assert(a@[i as int] != b@[i as int]);
            return false;
        }
        i += 1;
    }
    assert(x@ =~= y@);
    true
}

/// Copies `v[from..to]` into a new vector.
pub fn slice_of(v: &Vec<char>, from: usize, to: usize) -> (out: Vec<char>)
    requires
        from <= to <= v.len(),
    ensures
        out@ == v@.subrange(from as int, to as int),
{
    let mut out: Vec<char> = Vec::new();
    let mut i: usize = from;
    while i < to
        invariant
            from <= i <= to <= v.len(),
            out@ == v@.subrange(from as int, i as int),
        decreases to - i,
    {
        out.push(v[i]);
        assert(v@.subrange(from as int, i + 1) =~= v@.subrange(from as int, i as int).push(
            v@[i as int],
        ));
        i += 1;
    }
    out
}

/// Replaces every tab of `v` by a space.
fn replace_tabs(v: &Vec<char>) -> (out: Vec<char>)
    ensures
        out@ == untab(v@),
{
    let mut out: Vec<char> = Vec::new();
    let mut i: usize = 0;
    while i < v.len()
        invariant
            i <= v.len(),
            out@ == untab(v@).take(i as int),
        decreases v.len() - i,
    {
        let c = v[i];
        out.push(if c == '\t' { ' ' } else { c });
        assert(untab(v@).take(i + 1) =~= untab(v@).take(i as int).push(untab(v@)[i as int]));
        i += 1;
    }
    assert(untab(v@).take(v@.len() as int) =~= untab(v@));
    out
}

/// Cuts `v` into its lines.
fn split_lines(v: &Vec<char>) -> (out: Vec<Vec<char>>)
    ensures
        lines_view(out@) == lines_of(v@),
{
    let mut out: Vec<Vec<char>> = Vec::new();
    let mut pos: usize = 0;
    assert(v@.skip(0) =~= v@);
    assert(lines_view(out@) =~= Seq::<Seq<char>>::empty());
    while pos < v.len()
        invariant
            pos <= v.len(),
            lines_of(v@) == lines_view(out@) + lines_of(v@.skip(pos as int)),
        decreases v.len() - pos,
    {
        let ghost rest = v@.skip(pos as int);
        let mut end: usize = pos;
        while end < v.len() && v[end] != '\n'
            invariant
                pos <= end <= v.len(),
                forall|i: int| pos <= i < end ==> v@[i] != '\n',
            decreases v.len() - end,
        {
            end += 1;
        }
        proof {
            assert forall|i: int| 0 <= i < end - pos implies rest[i] != '\n' by {
                assert(rest[i] == v@[pos + i]);
            }
            lemma_line_end_is(rest, end - pos);
        }
        let terminated = end < v.len();
        let stop: usize = if terminated && end > pos && v[end - 1] == '\r' {
            end - 1
        } else {
            end
        };
        let line = slice_of(v, pos, stop);
        let ghost before = out@;
        out.push(line);
        proof {
            assert(line@ =~= first_line(rest));
            assert(lines_view(out@) =~= lines_view(before) + seq![first_line(rest)]);
            if terminated {
                assert(after_first_line(rest) =~= v@.skip(end + 1));
            } else {
                assert(after_first_line(rest) =~= v@.skip(v@.len() as int));
            }
        }
        pos = if terminated {
            end + 1
        } else {
            end
        };
        assert(lines_of(v@) =~= lines_view(out@) + lines_of(v@.skip(pos as int)));
    }
    assert(lines_view(out@) + lines_of(v@.skip(pos as int)) =~= lines_view(out@));
    out
}

/// Shapes line `i` of `lines` for the result.
fn shape_line(lines: &Vec<Vec<char>>, i: usize) -> (out: Vec<char>)
    requires
        i < lines.len(),
    ensures
        out@ == shaped_line(lines_view(lines@), i as int),
{
    let line = &lines[i];
    let from: usize = if i != 0 && line.len() > 0 && line[0] == ' ' {
        1
    } else {
        0
    };
    let to: usize = if i != lines.len() - 1 && line.len() > from && line[line.len() - 1] == ' ' {
        line.len() - 1
    } else {
        line.len()
    };
    proof {
        let kept = line@.skip(from as int);
        assert(line@.skip(0) =~= line@);
        assert(line@.drop_first() =~= line@.skip(1)) by {
            if line@.len() > 0 {
            }
        }
        if kept.len() > 0 {
            assert(kept.last() == line@[line@.len() - 1]);
        }
        assert(kept.take(to - from) =~= line@.subrange(from as int, to as int));
        assert(kept.take(kept.len() as int) =~= kept);
        assert(kept.drop_last() =~= kept.take(kept.len() - 1)) by {
            if kept.len() > 0 {
            }
        }
    }
    slice_of(line, from, to)
}

/// Whether line `i` of `lines` stays in the result.
fn line_stays(lines: &Vec<Vec<char>>, i: usize) -> (out: bool)
    requires
        i < lines.len(),
    ensures
        out == stays(lines_view(lines@), i as int),
{
    let line = &lines[i];
    if lines.len() == 1 {
        return line.len() > 0;
    }
    let mut k: usize = 0;
    while k < line.len()
        invariant
            k <= line.len(),
            i < lines.len(),
            lines.len() != 1,
            line == lines@[i as int],
            forall|j: int| 0 <= j < k ==> line@[j] == ' ',
        decreases line.len() - k,
    {
        if line[k] != ' ' {
            assert(lines_view(lines@)[i as int][k as int] != ' ');
            return true;
        }
        k += 1;
    }
    false
}

/// The content of a JSX text (see [`trimmed`]): the lines of nothing but
/// spaces go, the line breaks go with a single space on either side of
/// each, and one space stands between two lines that are left.
pub fn trim_jsx_text(text: &str) -> (out: String)
    ensures
        out@ == trimmed(text@),
{
    let raw = chars_of(text);
    let chars = replace_tabs(&raw);
    let lines = split_lines(&chars);
    let mut buf: Vec<char> = Vec::new();
    let mut i: usize = 0;
    while i < lines.len()
        invariant
            i <= lines.len(),
            buf@ == spaced(kept(lines_view(lines@), i as int)),
        decreases lines.len() - i,
    {
        proof {
            lemma_spaced_kept(lines_view(lines@), i + 1);
        }
        if line_stays(&lines, i) {
            let line = shape_line(&lines, i);
            if buf.len() > 0 {
                buf.push(' ');
            }
            let ghost before = buf@;
            let mut k: usize = 0;
            while k < line.len()
                invariant
                    k <= line.len(),
                    buf@ == before + line@.take(k as int),
                decreases line.len() - k,
            {
                buf.push(line[k]);
                assert(line@.take(k + 1) =~= line@.take(k as int).push(line@[k as int]));
                k += 1;
            }
            assert(line@.take(line@.len() as int) =~= line@);
        }
        i += 1;
    }
    string_of(&buf)
}

} // verus!
