//! Identifiers, name paths and qualified operation names.
use vstd::prelude::*;
use crate::text::{append, join, owned, str_equal};

verus! {

/// A single name segment.
pub type Identifier = String;

/// The character views of a list of strings.
pub open spec fn views(parts: Seq<String>) -> Seq<Seq<char>> {
    parts.map_values(|p: String| p@)
}

/// A path of identifiers such as `core.Option.unwrap`.
#[derive(Debug, Clone, PartialEq, Eq, PartialOrd, Ord, Hash)]
pub struct NamePath {
    pub parts: Vec<Identifier>,
}

impl View for NamePath {
    type V = Seq<Seq<char>>;

    open spec fn view(&self) -> Seq<Seq<char>> {
        views(self.parts@)
    }
}

/// The name of an operation known to an executable provider.
#[derive(Debug, Clone, PartialEq, Eq, PartialOrd, Ord, Hash)]
pub struct QualifiedName {
    pub parts: Vec<Identifier>,
}

impl View for QualifiedName {
    type V = Seq<Seq<char>>;

    open spec fn view(&self) -> Seq<Seq<char>> {
        views(self.parts@)
    }
}

/// A copy of a list of strings with the same characters.
pub fn copy_strings(parts: &Vec<String>) -> (r: Vec<String>)
    ensures
        views(r@) == views(parts@),
        r@.len() == parts@.len(),
{
    let mut out: Vec<String> = Vec::new();
    let mut i: usize = 0;
    while i < parts.len()
        invariant
            i <= parts.len(),
            out@.len() == i,
            forall|j: int| 0 <= j < i ==> #[trigger] out@[j]@ == parts@[j]@,
        decreases parts.len() - i,
    {
        out.push(owned(parts[i].as_str()));
        i = i + 1;
    }
    assert(views(out@) =~= views(parts@));
    out
}

/// The parts joined by `sep`.
pub fn join_strings(parts: &Vec<String>, sep: &str) -> (r: String)
    ensures
        r@ == join(views(parts@), sep@),
{
    let ghost all = views(parts@);
    let mut out = String::new();
    let mut i: usize = 0;
    while i < parts.len()
        invariant
            i <= parts.len(),
            all == views(parts@),
            out@ == join(all.take(i as int), sep@),
        decreases parts.len() - i,
    {
        if i != 0 {
            append(&mut out, sep);
        }
        append(&mut out, parts[i].as_str());
        proof {
            assert(all.take(i + 1).drop_last() =~= all.take(i as int));
            if i == 0 {
                assert(all.take(0) =~= Seq::<Seq<char>>::empty());
                assert(out@ =~= all.take(1)[0]);
            }
        }
        i = i + 1;
    }
    assert(all.take(parts.len() as int) =~= all);
    out
}

impl NamePath {
    /// A path made of `parts`.
    pub fn new(parts: Vec<Identifier>) -> (r: NamePath)
        ensures
            r.parts@ == parts@,
    {
        NamePath { parts }
    }

    /// The segments of the path.
    pub fn parts(&self) -> (r: &Vec<Identifier>)
        ensures
            r@ == self.parts@,
    {
        &self.parts
    }

    /// The display form: segments joined by `.`.
    pub fn to_dotted(&self) -> (r: String)
        ensures
            r@ == join(self@, "."@),
    {
        join_strings(&self.parts, ".")
    }

    /// Segments joined by `::`.
    pub fn to_colon_joined(&self) -> (r: String)
        ensures
            r@ == join(self@, "::"@),
    {
        join_strings(&self.parts, "::")
    }

    /// A copy with the same segments.
    pub fn duplicate(&self) -> (r: NamePath)
        ensures
            r@ == self@,
            r.parts@.len() == self.parts@.len(),
    {
        NamePath { parts: copy_strings(&self.parts) }
    }
}

impl QualifiedName {
    /// A qualified name made of `parts`.
    pub fn new(parts: Vec<Identifier>) -> (r: QualifiedName)
        ensures
            r.parts@ == parts@,
    {
        QualifiedName { parts }
    }

    /// A copy with the same segments.
    pub fn duplicate(&self) -> (r: QualifiedName)
        ensures
            r@ == self@,
    {
        QualifiedName { parts: copy_strings(&self.parts) }
    }

    /// The display form: segments joined by `.`.
    pub fn to_dotted(&self) -> (r: String)
        ensures
            r@ == join(self@, "."@),
    {
        join_strings(&self.parts, ".")
    }

    /// Segment-wise equality.
    pub fn same_as(&self, other: &QualifiedName) -> (r: bool)
        ensures
            r == (self@ == other@),
    {
        parts_equal(&self.parts, &other.parts)
    }
}

/// Segment-wise equality of two lists of strings.
pub fn parts_equal(a: &Vec<String>, b: &Vec<String>) -> (r: bool)
    ensures
        r == (views(a@) == views(b@)),
{
    if a.len() != b.len() {
        assert(views(a@).len() != views(b@).len());
        return false;
    }
    let mut i: usize = 0;
    while i < a.len()
        invariant
            a.len() == b.len(),
            i <= a.len(),
            forall|j: int| 0 <= j < i ==> #[trigger] a@[j]@ == b@[j]@,
        decreases a.len() - i,
    {
        if !str_equal(a[i].as_str(), b[i].as_str()) {
            assert(views(a@)[i as int] != views(b@)[i as int]);
            return false;
        }
        i = i + 1;
    }
    assert(views(a@) =~= views(b@));
    true
}

/// Three-way comparison of character sequences by code point, as `str`'s `Ord`:
/// -1 when `a` sorts first, 0 when equal, 1 when `b` sorts first.
pub open spec fn chars_order(a: Seq<char>, b: Seq<char>) -> int
    decreases a.len(),
{
    if a.len() == 0 && b.len() == 0 {
        0
    } else if a.len() == 0 {
        -1
    } else if b.len() == 0 {
        1
    } else if (a[0] as int) < (b[0] as int) {
        -1
    } else if (a[0] as int) > (b[0] as int) {
        1
    } else {
        chars_order(a.subrange(1, a.len() as int), b.subrange(1, b.len() as int))
    }
}

/// Lexicographic three-way comparison of segment lists, segments compared by [`chars_order`].
pub open spec fn parts_order(a: Seq<Seq<char>>, b: Seq<Seq<char>>) -> int
    decreases a.len(),
{
    if a.len() == 0 && b.len() == 0 {
        0
    } else if a.len() == 0 {
        -1
    } else if b.len() == 0 {
        1
    } else if chars_order(a[0], b[0]) != 0 {
        chars_order(a[0], b[0])
    } else {
        parts_order(a.subrange(1, a.len() as int), b.subrange(1, b.len() as int))
    }
}

proof fn lemma_chars_order_props(a: Seq<char>, b: Seq<char>)
    ensures
        chars_order(a, b) == 0 <==> a == b,
        chars_order(a, b) == -chars_order(b, a),
        -1 <= chars_order(a, b) <= 1,
    decreases a.len(),
{
    if a.len() > 0 && b.len() > 0 && a[0] == b[0] {
        lemma_chars_order_props(a.subrange(1, a.len() as int), b.subrange(1, b.len() as int));
        if a.subrange(1, a.len() as int) == b.subrange(1, b.len() as int) {
            assert(a =~= seq![a[0]] + a.subrange(1, a.len() as int));
            assert(b =~= seq![b[0]] + b.subrange(1, b.len() as int));
        }
    } else if a.len() == 0 && b.len() == 0 {
        assert(a =~= b);
    }
}

proof fn lemma_chars_order_trans(a: Seq<char>, b: Seq<char>, c: Seq<char>)
    requires
        chars_order(a, b) < 0,
        chars_order(b, c) < 0,
    ensures
        chars_order(a, c) < 0,
    decreases a.len(),
{
    if a.len() > 0 && b.len() > 0 && c.len() > 0 && a[0] == b[0] && b[0] == c[0] {
        lemma_chars_order_trans(
            a.subrange(1, a.len() as int),
            b.subrange(1, b.len() as int),
            c.subrange(1, c.len() as int),
        );
    }
}

/// Segment-list comparison is a strict total order.
pub proof fn lemma_parts_order_props(a: Seq<Seq<char>>, b: Seq<Seq<char>>)
    ensures
        parts_order(a, b) == 0 <==> a == b,
        parts_order(a, b) == -parts_order(b, a),
        -1 <= parts_order(a, b) <= 1,
    decreases a.len(),
{
    if a.len() == 0 && b.len() == 0 {
        assert(a =~= b);
    }
    if a.len() > 0 && b.len() > 0 {
        lemma_chars_order_props(a[0], b[0]);
        if chars_order(a[0], b[0]) == 0 {
            lemma_parts_order_props(a.subrange(1, a.len() as int), b.subrange(1, b.len() as int));
            if a.subrange(1, a.len() as int) == b.subrange(1, b.len() as int) {
                assert(a =~= seq![a[0]] + a.subrange(1, a.len() as int));
                assert(b =~= seq![b[0]] + b.subrange(1, b.len() as int));
            }
        }
    }
}

/// Transitivity of the segment-list order.
pub proof fn lemma_parts_order_trans(a: Seq<Seq<char>>, b: Seq<Seq<char>>, c: Seq<Seq<char>>)
    requires
        parts_order(a, b) < 0,
        parts_order(b, c) < 0,
    ensures
        parts_order(a, c) < 0,
    decreases a.len(),
{
    if a.len() > 0 && b.len() > 0 && c.len() > 0 {
        lemma_chars_order_props(a[0], b[0]);
        lemma_chars_order_props(b[0], c[0]);
        lemma_chars_order_props(a[0], c[0]);
        if chars_order(a[0], b[0]) == 0 && chars_order(b[0], c[0]) == 0 {
            lemma_parts_order_trans(
                a.subrange(1, a.len() as int),
                b.subrange(1, b.len() as int),
                c.subrange(1, c.len() as int),
            );
        } else if chars_order(a[0], b[0]) == 0 {
        } else if chars_order(b[0], c[0]) == 0 {
        } else {
            lemma_chars_order_trans(a[0], b[0], c[0]);
        }
    }
}

/// Exec three-way comparison of character sequences.
fn chars_order_exec(a: &Vec<char>, b: &Vec<char>) -> (r: i8)
    ensures
        r as int == chars_order(a@, b@),
{
    let mut i: usize = 0;
    assert(a@.subrange(0, a@.len() as int) =~= a@);
    assert(b@.subrange(0, b@.len() as int) =~= b@);
    while i < a.len() && i < b.len()
        invariant
            i <= a.len(),
            i <= b.len(),
            chars_order(a@, b@) == chars_order(
                a@.subrange(i as int, a@.len() as int),
                b@.subrange(i as int, b@.len() as int),
            ),
        decreases a.len() - i,
    {
        let x = a[i];
        let y = b[i];
        let ghost sa = a@.subrange(i as int, a@.len() as int);
        let ghost sb = b@.subrange(i as int, b@.len() as int);
        assert(sa[0] == a@[i as int]);
        assert(sb[0] == b@[i as int]);
        if x < y {
            return -1;
        }
        if x > y {
            return 1;
        }
        assert(sa.subrange(1, sa.len() as int) =~= a@.subrange(i + 1, a@.len() as int));
        assert(sb.subrange(1, sb.len() as int) =~= b@.subrange(i + 1, b@.len() as int));
        i = i + 1;
    }
    if i == a.len() && i == b.len() {
        0
    } else if i == a.len() {
        -1
    } else {
        1
    }
}

/// Exec comparison of segment lists by [`parts_order`].
pub fn parts_order_exec(a: &Vec<String>, b: &Vec<String>) -> (r: i8)
    ensures
        r as int == parts_order(views(a@), views(b@)),
{
    let mut i: usize = 0;
    assert(views(a@).subrange(0, a@.len() as int) =~= views(a@));
    assert(views(b@).subrange(0, b@.len() as int) =~= views(b@));
    while i < a.len() && i < b.len()
        invariant
            i <= a.len(),
            i <= b.len(),
            parts_order(views(a@), views(b@)) == parts_order(
                views(a@).subrange(i as int, a@.len() as int),
                views(b@).subrange(i as int, b@.len() as int),
            ),
        decreases a.len() - i,
    {
        let ca = crate::text::chars_of(a[i].as_str());
        let cb = crate::text::chars_of(b[i].as_str());
        let c = chars_order_exec(&ca, &cb);
        let ghost sa = views(a@).subrange(i as int, a@.len() as int);
        let ghost sb = views(b@).subrange(i as int, b@.len() as int);
        assert(sa[0] == a@[i as int]@);
        assert(sb[0] == b@[i as int]@);
        if c != 0 {
            return c;
        }
        assert(sa.subrange(1, sa.len() as int) =~= views(a@).subrange(i + 1, a@.len() as int));
        assert(sb.subrange(1, sb.len() as int) =~= views(b@).subrange(i + 1, b@.len() as int));
        i = i + 1;
    }
    if i == a.len() && i == b.len() {
        0
    } else if i == a.len() {
        -1
    } else {
        1
    }
}

} // verus!
