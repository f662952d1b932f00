//! Paths as the parts between their slashes.
//!
//! A path is a row of bytes. Everything this node decides about one is decided on its parts, so
//! two spellings of the same parts (`a//b`, `a/./b/`) are one path here.

use vstd::prelude::*;

use crate::text;

verus! {

/// One part of a path.
pub enum Part {
    /// The slash that an absolute path starts with.
    Root,
    /// A `.` that a relative path starts with.
    Current,
    /// A `..`.
    Parent,
    /// The name of a file or of a directory.
    Name(Vec<u8>),
}

/// What a [`Part`] stands for.
pub enum PartView {
    Root,
    Current,
    Parent,
    Name(Seq<u8>),
}

impl DeepView for Part {
    type V = PartView;

    open spec fn deep_view(&self) -> PartView {
        match self {
            Part::Root => PartView::Root,
            Part::Current => PartView::Current,
            Part::Parent => PartView::Parent,
            Part::Name(name) => PartView::Name(name@),
        }
    }
}

/// The byte that separates the parts of a path.
pub const SLASH: u8 = 0x2f;

/// The byte that `.` and `..` are made of.
pub const DOT: u8 = 0x2e;

/// The part that the bytes between two slashes name: nothing where they are empty or a single `.`.
pub open spec fn part_named(segment: Seq<u8>) -> Option<PartView> {
    if segment.len() == 0 || segment == seq![DOT] {
        None
    } else if segment == seq![DOT, DOT] {
        Some(PartView::Parent)
    } else {
        Some(PartView::Name(segment))
    }
}

/// The parts that a row of segments names.
pub open spec fn parts_named(segments: Seq<Seq<u8>>) -> Seq<PartView>
    decreases segments.len(),
{
    if segments.len() == 0 {
        Seq::empty()
    } else {
        let before = parts_named(segments.drop_last());
        match part_named(segments.last()) {
            Some(part) => before.push(part),
            None => before,
        }
    }
}

/// The part that only the start of a path can hold.
pub open spec fn leading_part(path: Seq<u8>) -> Seq<PartView> {
    if path.len() > 0 && path[0] == SLASH {
        seq![PartView::Root]
    } else if text::pieces(path, SLASH)[0] == seq![DOT] {
        seq![PartView::Current]
    } else {
        Seq::empty()
    }
}

/// The parts of a path: repeated and trailing slashes do not count, and neither does a `.` that is
/// not what a relative path starts with.
pub open spec fn parts_of(path: Seq<u8>) -> Seq<PartView> {
    leading_part(path) + parts_named(text::pieces(path, SLASH))
}

/// Whether a path starts at the root of the file system.
pub open spec fn has_root(path: Seq<PartView>) -> bool {
    path.len() > 0 && path[0] is Root
}

/// Whether a name can stand between two slashes and be read back as that name.
pub open spec fn is_name(name: Seq<u8>) -> bool {
    &&& name.len() > 0
    &&& !name.contains(SLASH)
    &&& name != seq![DOT]
    &&& name != seq![DOT, DOT]
}

/// Whether a row of parts is what some path is made of.
pub open spec fn valid(path: Seq<PartView>) -> bool {
    forall|i: int|
        0 <= i < path.len() ==> match #[trigger] path[i] {
            PartView::Root => i == 0,
            PartView::Current => i == 0,
            PartView::Parent => true,
            PartView::Name(name) => is_name(name),
        }
}

/// Whether a path is at or below another one, part by part.
pub open spec fn under(path: Seq<PartView>, base: Seq<PartView>) -> bool {
    text::begins_with(path, base)
}

/// The parts of every path are those of a valid one.
pub proof fn parts_are_valid(path: Seq<u8>)
    ensures
        valid(parts_of(path)),
{
    text::pieces_hold_no_separator(path, SLASH);
    lemma_parts_named_are_valid(text::pieces(path, SLASH));
    let named = parts_named(text::pieces(path, SLASH));
    let lead = leading_part(path);
    assert forall|i: int| 0 <= i < parts_of(path).len() implies match #[trigger] parts_of(path)[i] {
        PartView::Root => i == 0,
        PartView::Current => i == 0,
        PartView::Parent => true,
        PartView::Name(name) => is_name(name),
    } by {
        if i >= lead.len() {
            assert(parts_of(path)[i] == named[i - lead.len()]);
        }
    }
}

proof fn lemma_parts_named_are_valid(segments: Seq<Seq<u8>>)
    requires
        forall|i: int| 0 <= i < segments.len() ==> !(#[trigger] segments[i]).contains(SLASH),
    ensures
        forall|i: int|
            0 <= i < parts_named(segments).len() ==> match #[trigger] parts_named(segments)[i] {
                PartView::Root => false,
                PartView::Current => false,
                PartView::Parent => true,
                PartView::Name(name) => is_name(name),
            },
    decreases segments.len(),
{
    if segments.len() > 0 {
        let fewer = segments.drop_last();
        assert forall|i: int| 0 <= i < fewer.len() implies !(#[trigger] fewer[i]).contains(
            SLASH,
        ) by {
            assert(fewer[i] == segments[i]);
        }
        lemma_parts_named_are_valid(fewer);
        assert(!segments.last().contains(SLASH));
    }
}

/// The bytes that a part other than the root is written as.
pub open spec fn segment(part: PartView) -> Seq<u8> {
    match part {
        PartView::Root => Seq::empty(),
        PartView::Current => seq![DOT],
        PartView::Parent => seq![DOT, DOT],
        PartView::Name(name) => name,
    }
}

/// Bytes with a further segment behind them, parted by one slash.
pub open spec fn with_segment(before: Seq<u8>, next: Seq<u8>) -> Seq<u8> {
    if before.len() == 0 || before.last() == SLASH {
        before + next
    } else {
        before.push(SLASH) + next
    }
}

/// The bytes that a path is written as.
pub open spec fn spelled(path: Seq<PartView>) -> Seq<u8>
    decreases path.len(),
{
    if path.len() == 0 {
        Seq::empty()
    } else if path.last() is Root {
        seq![SLASH]
    } else {
        with_segment(spelled(path.drop_last()), segment(path.last()))
    }
}

/// A path that was written out reads back as the same parts.
pub proof fn a_written_path_reads_back(path: Seq<PartView>)
    requires
        valid(path),
    ensures
        parts_of(spelled(path)) == path,
    decreases path.len(),
{
    reveal_with_fuel(text::pieces, 3);
    reveal_with_fuel(parts_named, 3);
    if path.len() == 0 {
        assert(parts_of(spelled(path)) == path);
    } else if path.len() == 1 {
        lemma_one_part_reads_back(path[0]);
        assert(path == seq![path[0]]);
        assert(path.drop_last() == Seq::<PartView>::empty());
        assert(spelled(path.drop_last()) == Seq::<u8>::empty());
        assert(spelled(path) == if path[0] is Root {
            seq![SLASH]
        } else {
            segment(path[0])
        });
    } else {
        let shorter = path.drop_last();
        let next = segment(path.last());
        let before = spelled(shorter);
        assert(valid(shorter)) by {
            assert forall|i: int| 0 <= i < shorter.len() implies match #[trigger] shorter[i] {
                PartView::Root => i == 0,
                PartView::Current => i == 0,
                PartView::Parent => true,
                PartView::Name(name) => is_name(name),
            } by {
                assert(shorter[i] == path[i]);
            }
        }
        a_written_path_reads_back(shorter);
        lemma_spelled_end(shorter);
        assert(!(path.last() is Root) && !(path.last() is Current)) by {
            assert(path[path.len() - 1] == path.last());
        }
        assert(!next.contains(SLASH) && part_named(next) == Some(path.last())) by {
            assert(path[path.len() - 1] == path.last());
            if path.last() is Parent {
                assert forall|k: int| 0 <= k < next.len() implies next[k] != SLASH by {}
                assert(next != seq![DOT]) by {
                    assert(next.len() == 2);
                }
            }
        }
        lemma_one_more_segment(before, next, path.last());
        assert(shorter.push(path.last()) == path);
    }
}

/// A name put below a path adds one part to it.
pub proof fn a_name_lies_below_its_directory(directory: Seq<u8>, name: Seq<u8>)
    requires
        directory.len() > 0,
        is_name(name),
    ensures
        parts_of(with_segment(directory, name)) == parts_of(directory).push(PartView::Name(name)),
        under(parts_of(with_segment(directory, name)), parts_of(directory)),
{
    lemma_one_more_segment(directory, name, PartView::Name(name));
    let below = parts_of(with_segment(directory, name));
    assert(below.take(parts_of(directory).len() as int) == parts_of(directory));
}

proof fn lemma_one_more_segment(before: Seq<u8>, next: Seq<u8>, part: PartView)
    requires
        before.len() > 0,
        !next.contains(SLASH),
        part_named(next) == Some(part),
    ensures
        parts_of(with_segment(before, next)) == parts_of(before).push(part),
{
    text::pieces_hold_no_separator(before, SLASH);
    let old_pieces = text::pieces(before, SLASH);
    if before.last() == SLASH {
        lemma_pieces_of_longer(before, next);
        text::pieces_hold_no_separator(before.drop_last(), SLASH);
        assert(old_pieces.last() == Seq::<u8>::empty());
        assert(old_pieces.last() + next == next);
        let new_pieces = old_pieces.drop_last().push(next);
        assert(text::pieces(before + next, SLASH) == new_pieces);
        assert(new_pieces.drop_last() == old_pieces.drop_last());
        assert(parts_named(old_pieces) == parts_named(old_pieces.drop_last()));
        assert(parts_named(new_pieces) == parts_named(old_pieces).push(part));
        assert(old_pieces.len() >= 2);
        assert(new_pieces[0] == old_pieces[0]);
        assert((before + next)[0] == before[0]);
        assert(leading_part(before + next) == leading_part(before));
        assert(parts_of(before + next) == parts_of(before).push(part));
    } else {
        let slashed = before.push(SLASH);
        assert(slashed.drop_last() == before);
        lemma_pieces_of_longer(slashed, next);
        let new_pieces = old_pieces.push(next);
        assert(text::pieces(slashed, SLASH) == old_pieces.push(Seq::empty()));
        assert(text::pieces(slashed, SLASH).drop_last() == old_pieces);
        assert(Seq::<u8>::empty() + next == next);
        assert(text::pieces(slashed + next, SLASH) == new_pieces);
        assert(new_pieces.drop_last() == old_pieces);
        assert(parts_named(new_pieces) == parts_named(old_pieces).push(part));
        assert((slashed + next)[0] == before[0]);
        assert(new_pieces[0] == old_pieces[0]);
        assert(leading_part(slashed + next) == leading_part(before));
        assert(parts_of(slashed + next) == parts_of(before).push(part));
    }
}

proof fn lemma_one_part_reads_back(part: PartView)
    requires
        part matches PartView::Name(name) ==> is_name(name),
    ensures
        parts_of(
            if part is Root {
                seq![SLASH]
            } else {
                segment(part)
            },
        ) == seq![part],
{
    reveal_with_fuel(parts_named, 3);
    let none = Seq::<u8>::empty();
    assert(text::pieces(none, SLASH) == seq![none]);
    match part {
        PartView::Root => {
            let b = seq![SLASH];
            assert(b.drop_last() == none);
            assert(text::pieces(b, SLASH) == seq![none, none]);
            assert(seq![none, none].drop_last() == seq![none]);
            assert(seq![none].drop_last() == Seq::<Seq<u8>>::empty());
            assert(parts_of(b) == seq![part]);
        },
        _ => {
            let b = segment(part);
            assert(!b.contains(SLASH));
            lemma_pieces_of_longer(none, b);
            assert(none + b == b);
            assert(seq![none].drop_last().push(b) == seq![b]);
            assert(text::pieces(b, SLASH) == seq![b]);
            assert(seq![b].drop_last() == Seq::<Seq<u8>>::empty());
            assert(b.len() > 0);
            assert(b[0] != SLASH) by {
                assert(b.contains(b[0]));
            }
            if part is Parent {
                assert(b.len() == 2);
                assert(seq![DOT].len() == 1);
            }
            assert(parts_of(b) == seq![part]);
        },
    }
}

proof fn lemma_pieces_of_longer(s: Seq<u8>, more: Seq<u8>)
    requires
        !more.contains(SLASH),
    ensures
        text::pieces(s + more, SLASH) == text::pieces(s, SLASH).drop_last().push(
            text::pieces(s, SLASH).last() + more,
        ),
    decreases more.len(),
{
    text::pieces_hold_no_separator(s, SLASH);
    if more.len() == 0 {
        assert(s + more == s);
        assert(text::pieces(s, SLASH).last() + more == text::pieces(s, SLASH).last());
        assert(text::pieces(s, SLASH) == text::pieces(s, SLASH).drop_last().push(text::pieces(s, SLASH).last()));
    } else {
        let less = more.drop_last();
        assert(!less.contains(SLASH)) by {
            if less.contains(SLASH) {
                let k = choose|k: int| 0 <= k < less.len() && less[k] == SLASH;
                assert(more[k] == SLASH);
            }
        }
        lemma_pieces_of_longer(s, less);
        assert(more.contains(more.last()));
        assert((s + more).drop_last() == s + less);
        let before = text::pieces(s + less, SLASH);
        assert(before.drop_last() == text::pieces(s, SLASH).drop_last());
        assert((text::pieces(s, SLASH).last() + less).push(more.last()) == text::pieces(s, SLASH).last() + more);
    }
}

proof fn lemma_spelled_end(path: Seq<PartView>)
    requires
        valid(path),
        path.len() > 0,
    ensures
        spelled(path).len() > 0,
        spelled(path).last() == SLASH ==> path.len() == 1 && path[0] is Root,
        spelled(path).last() == SLASH ==> spelled(path) == seq![SLASH],
{
    let last = path[path.len() - 1];
    assert(path.last() == last);
    if !(last is Root) {
        let b = segment(last);
        assert(b.len() > 0);
        assert(b.last() != SLASH) by {
            assert(b.contains(b.last()));
        }
        assert(spelled(path).last() == b.last());
    }
}

impl Part {
    /// A part equal to this one.
    pub fn copy(&self) -> (out: Part)
        ensures
            out.deep_view() == self.deep_view(),
    {
        match self {
            Part::Root => Part::Root,
            Part::Current => Part::Current,
            Part::Parent => Part::Parent,
            Part::Name(name) => {
                let copied = name.clone();
                assert(copied@ == name@);
                Part::Name(copied)
            },
        }
    }
}

fn same_bytes(a: &Vec<u8>, b: &Vec<u8>) -> (yes: bool)
    ensures
        yes == (a@ == b@),
{
    if a.len() != b.len() {
        return false;
    }
    let mut i: usize = 0;
    while i < a.len()
        invariant
            i <= a@.len() == b@.len(),
            forall|k: int| 0 <= k < i ==> a@[k] == b@[k],
        decreases a@.len() - i,
    {
        if a[i] != b[i] {
            return false;
        }
        i += 1;
    }
    assert(a@ == b@);
    true
}

fn same_part(a: &Part, b: &Part) -> (yes: bool)
    ensures
        yes == (a.deep_view() == b.deep_view()),
{
    match (a, b) {
        (Part::Root, Part::Root) => true,
        (Part::Current, Part::Current) => true,
        (Part::Parent, Part::Parent) => true,
        (Part::Name(x), Part::Name(y)) => same_bytes(x, y),
        _ => false,
    }
}

/// Ends the bytes of a path with a slash, where a further segment needs one.
fn separate(out: &mut Vec<u8>)
    ensures
        final(out)@ == if old(out)@.len() == 0 || old(out)@.last() == SLASH {
            old(out)@
        } else {
            old(out)@.push(SLASH)
        },
{
    if out.len() > 0 && out[out.len() - 1] != SLASH {
        out.push(SLASH);
    }
}

/// A path, held as its parts.
pub struct NodePath {
    pub parts: Vec<Part>,
}

impl View for NodePath {
    type V = Seq<PartView>;

    open spec fn view(&self) -> Seq<PartView> {
        self.parts.deep_view()
    }
}

/// The part that a segment names.
fn read_segment(segment: Vec<u8>) -> (out: Option<Part>)
    ensures
        out.deep_view() == part_named(segment@),
{
    if segment.len() == 0 {
        return None;
    }
    if segment.len() == 1 && segment[0] == DOT {
        assert(segment@ == seq![DOT]);
        return None;
    }
    if segment.len() == 2 && segment[0] == DOT && segment[1] == DOT {
        assert(segment@ == seq![DOT, DOT]);
        return Some(Part::Parent);
    }
    proof {
        if segment@ == seq![DOT] {
            assert(segment@[0] == DOT);
        }
        if segment@ == seq![DOT, DOT] {
            assert(segment@[0] == DOT && segment@[1] == DOT);
        }
    }
    Some(Part::Name(segment))
}

impl NodePath {
    /// The path that a row of bytes spells.
    pub fn parse(path: &[u8]) -> (out: NodePath)
        ensures
            out@ == parts_of(path@),
            valid(out@),
    {
        let mut named: Vec<Part> = Vec::new();
        let mut segment: Vec<u8> = Vec::new();
        let mut first: Option<bool> = None;
        let mut i: usize = 0;
        let ghost mut done: Seq<Seq<u8>> = Seq::empty();
        assert(path@.take(0) == Seq::<u8>::empty());
        assert(done.push(segment@) == text::pieces(path@.take(0), SLASH));
        assert(named.deep_view() == parts_named(done));
        while i < path.len()
            invariant
                i <= path@.len(),
                done.push(segment@) == text::pieces(path@.take(i as int), SLASH),
                named.deep_view() == parts_named(done),
                first is None <==> done.len() == 0,
                first matches Some(dot) ==> dot == (done[0] == seq![DOT]),
            decreases path@.len() - i,
        {
            let b: u8 = path[i];
            let ghost before = done.push(segment@);
            assert(path@.take(i + 1).drop_last() == path@.take(i as int));
            if b == SLASH {
                if first.is_none() {
                    let dot = segment.len() == 1 && segment[0] == DOT;
                    proof {
                        if segment@ == seq![DOT] {
                            assert(segment@[0] == DOT);
                        }
                        if dot {
                            assert(segment@ == seq![DOT]);
                        }
                    }
                    first = Some(dot);
                }
                let ghost whole = segment@;
                let ghost held = named.deep_view();
                assert(before.drop_last() == done);
                match read_segment(segment) {
                    Some(part) => {
                        named.push(part);
                        assert(named.deep_view() == held.push(part.deep_view()));
                    },
                    None => {},
                }
                segment = Vec::new();
                proof {
                    done = before;
                    assert(done.drop_last().push(whole) == done);
                }
            } else {
                segment.push(b);
                assert(before.drop_last() == done);
            }
            i += 1;
        }
        assert(path@.take(path@.len() as int) == path@);
        let ghost all = done.push(segment@);
        assert(all == text::pieces(path@, SLASH));
        let current = match first {
            Some(dot) => dot,
            None => segment.len() == 1 && segment[0] == DOT,
        };
        proof {
            if done.len() == 0 {
                assert(all[0] == segment@);
                if segment@ == seq![DOT] {
                    assert(segment@[0] == DOT);
                }
                if segment@.len() == 1 && segment@[0] == DOT {
                    assert(segment@ == seq![DOT]);
                }
            } else {
                assert(all[0] == done[0]);
            }
        }
        let ghost whole = segment@;
        let ghost held = named.deep_view();
        assert(all.drop_last() == done);
        match read_segment(segment) {
            Some(part) => {
                named.push(part);
                assert(named.deep_view() == held.push(part.deep_view()));
            },
            None => {},
        }
        assert(named.deep_view() == parts_named(text::pieces(path@, SLASH)));
        let mut parts: Vec<Part> = Vec::new();
        if path.len() > 0 && path[0] == SLASH {
            parts.push(Part::Root);
        } else if current {
            parts.push(Part::Current);
        }
        assert(parts.deep_view() == leading_part(path@));
        let ghost lead = parts.deep_view();
        let ghost tail = named.deep_view();
        parts.append(&mut named);
        assert(parts.deep_view() == lead + tail);
        proof {
            parts_are_valid(path@);
        }
        NodePath { parts }
    }

    /// A path equal to this one.
    pub fn copy(&self) -> (out: NodePath)
        ensures
            out@ == self@,
    {
        self.prefix(self.parts.len())
    }

    /// The first `count` parts of this path.
    pub fn prefix(&self, count: usize) -> (out: NodePath)
        requires
            count <= self@.len(),
        ensures
            out@ == self@.take(count as int),
    {
        let mut parts: Vec<Part> = Vec::new();
        let mut i: usize = 0;
        assert(parts.deep_view() == self@.take(0));
        while i < count
            invariant
                i <= count <= self@.len(),
                parts.deep_view() == self@.take(i as int),
            decreases count - i,
        {
            let ghost held = parts.deep_view();
            let part = self.parts[i].copy();
            parts.push(part);
            assert(parts.deep_view() == held.push(part.deep_view()));
            i += 1;
            assert(self@.take(i as int) == self@.take(i - 1).push(self@[i - 1]));
        }
        NodePath { parts }
    }

    /// The bytes that this path is written as.
    pub fn spell(&self) -> (out: Vec<u8>)
        ensures
            out@ == spelled(self@),
    {
        let mut out: Vec<u8> = Vec::new();
        let mut i: usize = 0;
        assert(self@.take(0) == Seq::<PartView>::empty());
        while i < self.parts.len()
            invariant
                i <= self@.len(),
                out@ == spelled(self@.take(i as int)),
            decreases self@.len() - i,
        {
            assert(self@.take(i + 1).drop_last() == self@.take(i as int));
            assert(self@.take(i + 1).last() == self.parts@[i as int].deep_view());
            let ghost before = out@;
            match &self.parts[i] {
                Part::Root => {
                    out = Vec::new();
                    out.push(SLASH);
                    assert(out@ == seq![SLASH]);
                },
                Part::Current => {
                    separate(&mut out);
                    out.push(DOT);
                    assert(out@ == with_segment(before, seq![DOT]));
                },
                Part::Parent => {
                    separate(&mut out);
                    out.push(DOT);
                    out.push(DOT);
                    assert(out@ == with_segment(before, seq![DOT, DOT]));
                },
                Part::Name(name) => {
                    separate(&mut out);
                    let mut more = name.clone();
                    assert(more@ == name@);
                    out.append(&mut more);
                    assert(out@ == with_segment(before, name@));
                },
            }
            i += 1;
        }
        assert(self@.take(self@.len() as int) == self@);
        out
    }

    /// Whether this path is at or below `base`.
    pub fn is_under(&self, base: &NodePath) -> (yes: bool)
        ensures
            yes == under(self@, base@),
    {
        if base.parts.len() > self.parts.len() {
            return false;
        }
        let mut i: usize = 0;
        while i < base.parts.len()
            invariant
                i <= base@.len() <= self@.len(),
                self@.take(i as int) == base@.take(i as int),
            decreases base@.len() - i,
        {
            if !same_part(&self.parts[i], &base.parts[i]) {
                proof {
                    if self@.take(base@.len() as int) == base@ {
                        assert(self@.take(base@.len() as int)[i as int] == base@[i as int]);
                    }
                }
                return false;
            }
            i += 1;
            assert(self@.take(i as int) == self@.take(i - 1).push(self@[i - 1]));
            assert(base@.take(i as int) == base@.take(i - 1).push(base@[i - 1]));
        }
        assert(base@.take(base@.len() as int) == base@);
        true
    }
}

// ---------------------------------------------------------------------------------------------
// What reading a path keeps to
// ---------------------------------------------------------------------------------------------

/// A path is at or below another exactly where it is that one with further parts behind it. One with
/// fewer parts never is, so a directory is not below what lies in it.
pub proof fn what_lies_below_has_its_parts_behind(path: Seq<PartView>, base: Seq<PartView>)
    ensures
        under(path, base) <==> exists|rest: Seq<PartView>| path == #[trigger] (base + rest),
        under(path, base) <==> base.len() <= path.len() && forall|i: int|
            0 <= i < base.len() ==> #[trigger] path[i] == base[i],
        path.len() < base.len() ==> !under(path, base),
        under(path, path),
        under(path, base) && under(base, path) ==> path == base,
{
    text::a_prefix_has_a_rest(path, base);
    if base.len() <= path.len() && (forall|i: int|
        0 <= i < base.len() ==> #[trigger] path[i] == base[i]) {
        assert(path.take(base.len() as int) == base);
    }
    assert(path.take(path.len() as int) == path);
    if under(path, base) && under(base, path) {
        assert(path.take(base.len() as int) == path);
    }
}

/// A path is read segment by segment: behind a slash an empty segment and a `.` say nothing, a `..`
/// is the directory above, and whatever else is a name.
pub proof fn a_path_is_read_segment_by_segment(path: Seq<u8>, next: Seq<u8>)
    requires
        path.len() > 0,
        !next.contains(0x2f),
    ensures
        next.len() == 0 || next == seq![0x2eu8] ==> parts_of(path.push(0x2f) + next) == parts_of(
            path,
        ),
        next == seq![0x2eu8, 0x2eu8] ==> parts_of(path.push(0x2f) + next) == parts_of(path).push(
            PartView::Parent,
        ),
        next.len() > 0 && next != seq![0x2eu8] && next != seq![0x2eu8, 0x2eu8] ==> parts_of(
            path.push(0x2f) + next,
        ) == parts_of(path).push(PartView::Name(next)),
{
    text::splitting_goes_piece_by_piece(path, SLASH, next);
    text::splitting_goes_piece_by_piece(next, SLASH, next);
    text::pieces_hold_no_separator(path, SLASH);
    let whole = path.push(SLASH) + next;
    let before = text::pieces(path, SLASH);
    let after = before + seq![next];
    assert(text::pieces(whole, SLASH) == after);
    assert(after.drop_last() == before);
    assert(after.last() == next);
    assert(after[0] == before[0]);
    assert(whole[0] == path[0]);
    assert(leading_part(whole) == leading_part(path));
    assert(parts_of(path).push(PartView::Parent) == leading_part(path) + parts_named(before).push(
        PartView::Parent,
    ));
    assert(parts_of(path).push(PartView::Name(next)) == leading_part(path) + parts_named(
        before,
    ).push(PartView::Name(next)));
    if next == seq![DOT, DOT] {
        assert(next.len() == 2);
        assert(next != seq![DOT]) by {
            assert(seq![DOT].len() == 1);
        }
    }
}

/// How a path starts: with the root exactly where its first byte is a slash; a lone slash is the
/// root, and a lone segment is itself.
pub proof fn a_path_starts_with_the_root_or_a_segment(path: Seq<u8>, only: Seq<u8>)
    requires
        !only.contains(0x2f),
    ensures
        has_root(parts_of(path)) <==> path.len() > 0 && path[0] == 0x2f,
        parts_of(seq![0x2fu8]) == seq![PartView::Root],
        only.len() == 0 ==> parts_of(only) == Seq::<PartView>::empty(),
        only == seq![0x2eu8] ==> parts_of(only) == seq![PartView::Current],
        only == seq![0x2eu8, 0x2eu8] ==> parts_of(only) == seq![PartView::Parent],
        only.len() > 0 && only != seq![0x2eu8] && only != seq![0x2eu8, 0x2eu8] ==> parts_of(only)
            == seq![PartView::Name(only)],
{
    parts_are_valid(path);
    lemma_one_part_reads_back(PartView::Root);
    if only.len() == 0 {
        assert(only == Seq::<u8>::empty());
        reveal_with_fuel(text::pieces, 2);
        reveal_with_fuel(parts_named, 2);
        assert(text::pieces(only, SLASH) == seq![Seq::<u8>::empty()]);
        assert(seq![Seq::<u8>::empty()].drop_last() == Seq::<Seq<u8>>::empty());
        assert(Seq::<u8>::empty() != seq![DOT]) by {
            assert(seq![DOT].len() == 1);
        }
        assert(leading_part(only) == Seq::<PartView>::empty());
        assert(parts_named(text::pieces(only, SLASH)) == Seq::<PartView>::empty());
        assert(parts_of(only) == Seq::<PartView>::empty());
    } else if only == seq![DOT] {
        lemma_one_part_reads_back(PartView::Current);
    } else if only == seq![DOT, DOT] {
        lemma_one_part_reads_back(PartView::Parent);
        assert(only.len() == 2);
    } else {
        lemma_one_part_reads_back(PartView::Name(only));
    }
    if path.len() > 0 && path[0] == SLASH {
        assert(parts_of(path)[0] == PartView::Root);
    } else if parts_of(path).len() > 0 && parts_of(path)[0] is Root {
        text::pieces_hold_no_separator(path, SLASH);
        lemma_parts_named_are_valid(text::pieces(path, SLASH));
        if leading_part(path).len() > 0 {
            assert(parts_of(path)[0] == PartView::Current);
        } else {
            assert(parts_of(path)[0] == parts_named(text::pieces(path, SLASH))[0]);
        }
    }
}

/// A path is written with one slash between every two parts and one in front where it is absolute.
pub proof fn a_path_is_written_part_by_part(path: Seq<PartView>, name: Seq<u8>)
    ensures
        spelled(Seq::empty()) == Seq::<u8>::empty(),
        spelled(seq![PartView::Root]) == seq![0x2fu8],
        spelled(seq![PartView::Name(name)]) == name,
        path.len() > 0 && spelled(path).len() > 0 && spelled(path).last() != 0x2f ==> spelled(
            path.push(PartView::Name(name)),
        ) == spelled(path).push(0x2f) + name,
        path == seq![PartView::Root] ==> spelled(path.push(PartView::Name(name))) == seq![0x2fu8]
            + name,
{
    assert(path.push(PartView::Name(name)).drop_last() == path);
    assert(path.push(PartView::Name(name)).last() == PartView::Name(name));
    let one = seq![PartView::Name(name)];
    assert(one.drop_last() == Seq::<PartView>::empty());
    assert(spelled(one.drop_last()) == Seq::<u8>::empty());
    assert(Seq::<u8>::empty() + name == name);
}

} // verus!
