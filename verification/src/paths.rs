//! File paths (Unix) as `std::path::Path` reads them: components and their order.
use crate::text::{
    chars_of, lemma_text_less_irreflexive, lemma_text_less_total, lemma_text_less_transitive,
    text_less, text_order,
};
use vstd::prelude::*;

verus! {

/// A path component: its kind (1 the root `/`, 2 a leading `.`, 3 `..`, 4 a name) and,
/// for a name, its text. Kinds are numbered in the order `std::path::Component` sorts them.
pub type PathComponent = (int, Seq<char>);

/// The pieces of `p` between `/` characters, as `str::split('/')` gives them.
pub open spec fn segments(p: Seq<char>) -> Seq<Seq<char>>
    decreases p.len(),
{
    if p.len() == 0 {
        seq![Seq::empty()]
    } else {
        let rest = segments(p.drop_last());
        if p.last() == '/' {
            rest.push(Seq::empty())
        } else {
            rest.update(rest.len() - 1, rest.last().push(p.last()))
        }
    }
}

/// The components that pieces after the first give: empty pieces and `.` are dropped,
/// `..` is the parent, anything else a name.
pub open spec fn body_components(segs: Seq<Seq<char>>) -> Seq<PathComponent>
    decreases segs.len(),
{
    if segs.len() == 0 {
        Seq::empty()
    } else {
        let rest = body_components(segs.drop_last());
        let s = segs.last();
        if s.len() == 0 || s == seq!['.'] {
            rest
        } else if s == seq!['.', '.'] {
            rest.push((3, Seq::empty()))
        } else {
            rest.push((4, s))
        }
    }
}

/// The components of a path, as `Path::components` gives them on Unix: the root where the
/// path starts with `/`, a leading `.` where it starts with one, then the names and `..`s.
pub open spec fn path_components(p: Seq<char>) -> Seq<PathComponent> {
    let segs = segments(p);
    if p.len() > 0 && p[0] == '/' {
        seq![(1int, Seq::<char>::empty())] + body_components(segs.drop_first())
    } else if segs[0] == seq!['.'] {
        seq![(2int, Seq::<char>::empty())] + body_components(segs.drop_first())
    } else {
        body_components(segs)
    }
}

/// A piece with no `/` splits into itself alone.
proof fn lemma_segments_plain(a: Seq<char>)
    requires
        forall|i: int| 0 <= i < a.len() ==> a[i] != '/',
    ensures
        segments(a) == seq![a],
    decreases a.len(),
{
    if a.len() > 0 {
        let d = a.drop_last();
        assert forall|i: int| 0 <= i < d.len() implies d[i] != '/' by {
            assert(d[i] == a[i]);
        }
        lemma_segments_plain(d);
        assert(a[a.len() - 1] != '/');
        assert(d.push(a.last()) =~= a);
        assert(seq![d].update(0, a) =~= seq![a]);
    } else {
        assert(a =~= Seq::<char>::empty());
    }
}

/// Appending `/` and a piece with no `/` appends that piece to the pieces.
proof fn lemma_segments_after(a: Seq<char>, b: Seq<char>)
    requires
        forall|i: int| 0 <= i < b.len() ==> b[i] != '/',
    ensures
        segments(a + seq!['/'] + b) == segments(a).push(b),
    decreases b.len(),
{
    let p = a + seq!['/'] + b;
    if b.len() == 0 {
        assert(p.drop_last() =~= a);
        assert(b =~= Seq::<char>::empty());
    } else {
        let d = b.drop_last();
        assert forall|i: int| 0 <= i < d.len() implies d[i] != '/' by {
            assert(d[i] == b[i]);
        }
        lemma_segments_after(a, d);
        assert(d.push(b.last()) =~= b);
        assert(p.drop_last() =~= a + seq!['/'] + b.drop_last());
        assert(p.last() == b.last());
        let rest = segments(a).push(b.drop_last());
        assert(rest.update(rest.len() - 1, rest.last().push(b.last())) =~= segments(a).push(b));
    }
}

/// A path of two names joined by `/` has those two names as its components.
pub proof fn lemma_two_names(a: Seq<char>, b: Seq<char>)
    requires
        a.len() > 0,
        b.len() > 0,
        forall|i: int| 0 <= i < a.len() ==> a[i] != '/',
        forall|i: int| 0 <= i < b.len() ==> b[i] != '/',
        a != seq!['.'],
        a != seq!['.', '.'],
        b != seq!['.'],
        b != seq!['.', '.'],
    ensures
        path_components(a + seq!['/'] + b) == seq![(4int, a), (4int, b)],
{
    let p = a + seq!['/'] + b;
    lemma_segments_plain(a);
    lemma_segments_after(a, b);
    let segs = segments(p);
    assert(segs =~= seq![a, b]);
    assert(p[0] == a[0]);
    assert(segs.drop_last() =~= seq![a]);
    assert(seq![a].drop_last() =~= Seq::<Seq<char>>::empty());
    assert(seq![a].last() == a);
    assert(body_components(Seq::<Seq<char>>::empty()) =~= Seq::<PathComponent>::empty());
    assert(segs.last() == b);
    assert(body_components(seq![a]) =~= seq![(4int, a)]);
    assert(body_components(segs) =~= seq![(4int, a), (4int, b)]);
}

/// Order of components: by kind, names by their text.
pub open spec fn component_less(a: PathComponent, b: PathComponent) -> bool {
    a.0 < b.0 || (a.0 == b.0 && text_less(a.1, b.1))
}

/// Lexicographic order of component sequences, a shorter prefix first.
pub open spec fn components_less(a: Seq<PathComponent>, b: Seq<PathComponent>) -> bool
    decreases a.len(),
{
    if b.len() == 0 {
        false
    } else if a.len() == 0 {
        true
    } else if component_less(a[0], b[0]) {
        true
    } else if component_less(b[0], a[0]) {
        false
    } else {
        components_less(a.drop_first(), b.drop_first())
    }
}

/// The order of paths: `Path`'s `<`, by their components.
pub open spec fn path_less(a: Seq<char>, b: Seq<char>) -> bool {
    components_less(path_components(a), path_components(b))
}

proof fn lemma_component_less(a: PathComponent, b: PathComponent, c: PathComponent)
    ensures
        !component_less(a, a),
        component_less(a, b) && component_less(b, c) ==> component_less(a, c),
        a == b || component_less(a, b) || component_less(b, a),
{
    lemma_text_less_irreflexive(a.1);
    if component_less(a, b) && component_less(b, c) && a.0 == b.0 && b.0 == c.0 {
        lemma_text_less_transitive(a.1, b.1, c.1);
    }
    lemma_text_less_total(a.1, b.1);
}

/// No path comes before itself.
pub proof fn lemma_components_less_irreflexive(a: Seq<PathComponent>)
    ensures
        !components_less(a, a),
    decreases a.len(),
{
    if a.len() > 0 {
        lemma_component_less(a[0], a[0], a[0]);
        lemma_components_less_irreflexive(a.drop_first());
    }
}

/// The order of component sequences is transitive.
pub proof fn lemma_components_less_transitive(
    a: Seq<PathComponent>,
    b: Seq<PathComponent>,
    c: Seq<PathComponent>,
)
    requires
        components_less(a, b),
        components_less(b, c),
    ensures
        components_less(a, c),
    decreases a.len(),
{
    if a.len() > 0 && b.len() > 0 && c.len() > 0 {
        lemma_component_less(a[0], b[0], c[0]);
        lemma_component_less(b[0], c[0], a[0]);
        lemma_component_less(c[0], a[0], b[0]);
        lemma_component_less(a[0], c[0], b[0]);
        lemma_component_less(b[0], a[0], c[0]);
        lemma_component_less(c[0], b[0], a[0]);
        if a[0] == b[0] && b[0] == c[0] {
            lemma_components_less_transitive(a.drop_first(), b.drop_first(), c.drop_first());
        }
    }
}

/// Any two different component sequences are ordered one way or the other.
pub proof fn lemma_components_less_total(a: Seq<PathComponent>, b: Seq<PathComponent>)
    ensures
        a == b || components_less(a, b) || components_less(b, a),
    decreases a.len(),
{
    if a.len() > 0 && b.len() > 0 {
        lemma_component_less(a[0], b[0], b[0]);
        if a[0] == b[0] {
            lemma_components_less_total(a.drop_first(), b.drop_first());
            if a.drop_first() == b.drop_first() {
                assert(a =~= seq![a[0]] + a.drop_first());
                assert(b =~= seq![b[0]] + b.drop_first());
            }
        }
    } else if a.len() == 0 && b.len() == 0 {
        assert(a =~= b);
    }
}

/// A component, executable: its kind and, for a name, its text.
struct Component {
    kind: u8,
    text: String,
}

spec fn component_view(c: Component) -> PathComponent {
    (c.kind as int, c.text@)
}

/// The pieces of `p` between `/` characters.
fn split_segments(p: &Vec<char>) -> (r: Vec<Vec<char>>)
    ensures
        r@.map_values(|v: Vec<char>| v@) == segments(p@),
{
    let mut r: Vec<Vec<char>> = Vec::new();
    let mut current: Vec<char> = Vec::new();
    let mut i: usize = 0;
    assert(p@.take(0) =~= Seq::<char>::empty());
    while i < p.len()
        invariant
            i <= p@.len(),
            segments(p@.take(i as int)) == r@.map_values(|v: Vec<char>| v@).push(current@),
        decreases p@.len() - i,
    {
        let ghost before = r@.map_values(|v: Vec<char>| v@);
        assert(p@.take(i as int + 1).drop_last() =~= p@.take(i as int));
        if p[i] == '/' {
            let done = current;
            r.push(done);
            current = Vec::new();
            assert(r@.map_values(|v: Vec<char>| v@) =~= before.push(done@));
        } else {
            let ghost old_current = current@;
            current.push(p[i]);
            assert(before.push(old_current).update(before.len() as int, old_current.push(p@[i as int]))
                =~= before.push(current@));
        }
        i = i + 1;
    }
    assert(p@.take(p@.len() as int) =~= p@);
    let ghost before = r@.map_values(|v: Vec<char>| v@);
    r.push(current);
    assert(r@.map_values(|v: Vec<char>| v@) =~= before.push(current@));
    r
}

fn is_dot(s: &Vec<char>) -> (r: bool)
    ensures
        r == (s@ == seq!['.']),
{
    if s.len() == 1 && s[0] == '.' {
        assert(s@ =~= seq!['.']);
        true
    } else {
        false
    }
}

fn is_dot_dot(s: &Vec<char>) -> (r: bool)
    ensures
        r == (s@ == seq!['.', '.']),
{
    if s.len() == 2 && s[0] == '.' && s[1] == '.' {
        assert(s@ =~= seq!['.', '.']);
        true
    } else {
        false
    }
}

/// The components of the pieces `segs[from..]`, appended to `out`.
fn push_body_components(segs: &Vec<Vec<char>>, from: usize, out: &mut Vec<Component>)
    requires
        from <= segs@.len(),
    ensures
        final(out)@.map_values(|c: Component| component_view(c)) == old(out)@.map_values(
            |c: Component| component_view(c),
        ) + body_components(segs@.map_values(|v: Vec<char>| v@).skip(from as int)),
{
    let ghost sv = segs@.map_values(|v: Vec<char>| v@).skip(from as int);
    let ghost start = out@.map_values(|c: Component| component_view(c));
    let mut i: usize = from;
    assert(sv.take(0) =~= Seq::<Seq<char>>::empty());
    while i < segs.len()
        invariant
            from <= i <= segs@.len(),
            sv == segs@.map_values(|v: Vec<char>| v@).skip(from as int),
            out@.map_values(|c: Component| component_view(c)) == start + body_components(
                sv.take(i - from),
            ),
        decreases segs@.len() - i,
    {
        let s = &segs[i];
        let ghost before = out@.map_values(|c: Component| component_view(c));
        assert(sv.take(i - from + 1).drop_last() =~= sv.take(i - from));
        assert(sv.take(i - from + 1).last() == s@);
        if s.len() == 0 || is_dot(s) {
        } else if is_dot_dot(s) {
            out.push(Component { kind: 3, text: String::new() });
            assert(out@.map_values(|c: Component| component_view(c)) =~= before.push(
                (3int, Seq::<char>::empty()),
            ));
        } else {
            let text = crate::text::string_of(s.as_slice());
            out.push(Component { kind: 4, text });
            assert(out@.map_values(|c: Component| component_view(c)) =~= before.push((4int, s@)));
        }
        i = i + 1;
    }
    assert(sv.take(i - from) =~= sv);
}

/// The components of the path `p`.
fn components(p: &String) -> (r: Vec<Component>)
    ensures
        r@.map_values(|c: Component| component_view(c)) == path_components(p@),
{
    let cs = chars_of(p.as_str());
    let segs = split_segments(&cs);
    let ghost sv = segs@.map_values(|v: Vec<char>| v@);
    let mut out: Vec<Component> = Vec::new();
    proof {
        lemma_segments_nonempty(p@);
    }
    if cs.len() > 0 && cs[0] == '/' {
        out.push(Component { kind: 1, text: String::new() });
        assert(out@.map_values(|c: Component| component_view(c)) =~= seq![(1int, Seq::<char>::empty())]);
        push_body_components(&segs, 1, &mut out);
        assert(sv.skip(1) =~= sv.drop_first());
    } else if is_dot(&segs[0]) {
        out.push(Component { kind: 2, text: String::new() });
        assert(out@.map_values(|c: Component| component_view(c)) =~= seq![(2int, Seq::<char>::empty())]);
        push_body_components(&segs, 1, &mut out);
        assert(sv.skip(1) =~= sv.drop_first());
    } else {
        push_body_components(&segs, 0, &mut out);
        assert(sv.skip(0) =~= sv);
        assert(Seq::<PathComponent>::empty() + body_components(sv) =~= body_components(sv));
    }
    out
}

proof fn lemma_segments_nonempty(p: Seq<char>)
    ensures
        segments(p).len() > 0,
    decreases p.len(),
{
    if p.len() > 0 {
        lemma_segments_nonempty(p.drop_last());
    }
}

fn component_order(a: &Component, b: &Component) -> (r: i8)
    ensures
        -1 <= r <= 1,
        r == -1 <==> component_less(component_view(*a), component_view(*b)),
        r == 0 <==> component_view(*a) == component_view(*b),
        r == 1 <==> component_less(component_view(*b), component_view(*a)),
{
    proof {
        lemma_text_less_irreflexive(a.text@);
        lemma_text_less_irreflexive(b.text@);
    }
    if a.kind < b.kind {
        -1
    } else if a.kind > b.kind {
        1
    } else {
        text_order(&a.text, &b.text)
    }
}

/// Three-way comparison of two paths by their components, as `Path`'s `cmp`:
/// -1 when `a` comes first, 0 when they have the same components, 1 when `b` comes first.
pub fn path_order(a: &String, b: &String) -> (r: i8)
    ensures
        -1 <= r <= 1,
        r == -1 <==> path_less(a@, b@),
        r == 0 <==> path_components(a@) == path_components(b@),
        r == 1 <==> path_less(b@, a@),
{
    let x = components(a);
    let y = components(b);
    let ghost xv = x@.map_values(|c: Component| component_view(c));
    let ghost yv = y@.map_values(|c: Component| component_view(c));
    let mut i: usize = 0;
    while i < x.len() && i < y.len()
        invariant
            i <= x@.len(),
            i <= y@.len(),
            xv == x@.map_values(|c: Component| component_view(c)),
            yv == y@.map_values(|c: Component| component_view(c)),
            xv.take(i as int) == yv.take(i as int),
            xv == path_components(a@),
            yv == path_components(b@),
        decreases x@.len() - i,
    {
        let o = component_order(&x[i], &y[i]);
        if o != 0 {
            proof {
                lemma_components_less_skip(xv, yv, i as int);
                lemma_components_less_skip(yv, xv, i as int);
                assert(xv.skip(i as int)[0] == xv[i as int]);
                assert(yv.skip(i as int)[0] == yv[i as int]);
                lemma_component_less(xv[i as int], yv[i as int], xv[i as int]);
                lemma_component_less(yv[i as int], xv[i as int], yv[i as int]);
                if xv == yv {
                    assert(xv[i as int] == yv[i as int]);
                }
            }
            return o;
        }
        assert(xv.take(i as int + 1) =~= xv.take(i as int).push(xv[i as int]));
        assert(yv.take(i as int + 1) =~= yv.take(i as int).push(yv[i as int]));
        i = i + 1;
    }
    proof {
        lemma_components_less_skip(xv, yv, i as int);
        lemma_components_less_skip(yv, xv, i as int);
        lemma_components_less_irreflexive(xv);
        if i == xv.len() && i == yv.len() {
            assert(xv =~= xv.take(i as int));
            assert(yv =~= yv.take(i as int));
        }
    }
    if i == x.len() && i == y.len() {
        0
    } else if i == x.len() {
        -1
    } else {
        proof {
            assert(xv.len() != yv.len());
        }
        1
    }
}

proof fn lemma_components_less_skip(a: Seq<PathComponent>, b: Seq<PathComponent>, i: int)
    requires
        0 <= i <= a.len(),
        i <= b.len(),
        a.take(i) == b.take(i),
    ensures
        components_less(a, b) == components_less(a.skip(i), b.skip(i)),
    decreases i,
{
    if i > 0 {
        assert(a[0] == a.take(i)[0]);
        assert(b[0] == b.take(i)[0]);
        lemma_component_less(a[0], a[0], a[0]);
        assert(a.drop_first().take(i - 1) =~= a.take(i).drop_first());
        assert(b.drop_first().take(i - 1) =~= b.take(i).drop_first());
        lemma_components_less_skip(a.drop_first(), b.drop_first(), i - 1);
        assert(a.drop_first().skip(i - 1) =~= a.skip(i));
        assert(b.drop_first().skip(i - 1) =~= b.skip(i));
    } else {
        assert(a.skip(0) =~= a);
        assert(b.skip(0) =~= b);
    }
}

} // verus!
