//! Paths, as the operating system sees them: sequences of bytes, compared component by component.
use crate::text;
use vstd::prelude::*;

verus! {

pub const SLASH: u8 = 47;

pub const DOT: u8 = 46;

/// A path. Any bytes are allowed, so a path need not be valid UTF-8.
#[derive(Debug)]
pub struct PathBuf {
    pub bytes: Vec<u8>,
}

impl View for PathBuf {
    type V = Seq<u8>;

    open spec fn view(&self) -> Seq<u8> {
        self.bytes@
    }
}

impl DeepView for PathBuf {
    type V = Seq<u8>;

    open spec fn deep_view(&self) -> Seq<u8> {
        self.bytes@
    }
}

/// What identifies a path: its components.
pub type PathKey = Seq<Seq<u8>>;

/// Whether a piece between slashes is a component on its own, rather than one that stands for
/// nothing.
pub open spec fn is_component(s: Seq<u8>) -> bool {
    s.len() > 0 && s != seq![DOT]
}

/// The components of a path: the root if the path is absolute, and then the names along it.
///
/// Empty names are skipped, and so is `.`, except at the start of a relative path.
pub open spec fn components(p: Seq<u8>) -> PathKey {
    let pieces = text::split(p, SLASH);
    let names = pieces.filter(|s: Seq<u8>| is_component(s));
    if is_absolute(p) {
        seq![seq![SLASH]] + names
    } else if pieces[0] == seq![DOT] {
        seq![seq![DOT]] + names
    } else {
        names
    }
}

/// Whether a path starts at the root.
pub open spec fn is_absolute(p: Seq<u8>) -> bool {
    p.len() > 0 && p[0] == SLASH
}

/// Whether `p` is `base` or lies below it.
pub open spec fn under(p: Seq<u8>, base: Seq<u8>) -> bool {
    components(base).is_prefix_of(components(p))
}

/// The path at which `rel` lies, seen from `base`. An absolute `rel` stands for itself.
pub open spec fn joined(base: Seq<u8>, rel: Seq<u8>) -> Seq<u8> {
    if is_absolute(rel) {
        rel
    } else if base.len() > 0 && base.last() != SLASH {
        base.push(SLASH) + rel
    } else {
        base + rel
    }
}

/// The last component, if it is a name.
pub open spec fn final_name(p: Seq<u8>) -> Option<Seq<u8>> {
    let c = components(p);
    if c.len() == 0 || c.last() == seq![SLASH] || c.last() == seq![DOT] || c.last() == seq![
        DOT,
        DOT,
    ] {
        None
    } else {
        Some(c.last())
    }
}

/// Whether two byte sequences are equal.
pub fn same_bytes(a: &[u8], b: &[u8]) -> (r: bool)
    ensures
        r == (a@ == b@),
{
    if a.len() != b.len() {
        return false;
    }
    let mut i: usize = 0;
    while i < a.len()
        invariant
            i <= a@.len() == b@.len(),
            forall|j: int| 0 <= j < i ==> a@[j] == b@[j],
        decreases a@.len() - i,
    {
        if a[i] != b[i] {
            return false;
        }
        i = i + 1;
    }
    assert(a@ =~= b@);
    true
}

/// A copy of `v[from..to]`.
pub fn slice_bytes(v: &[u8], from: usize, to: usize) -> (r: Vec<u8>)
    requires
        from <= to <= v@.len(),
    ensures
        r@ == v@.subrange(from as int, to as int),
{
    let mut r: Vec<u8> = Vec::new();
    let mut i: usize = from;
    while i < to
        invariant
            from <= i <= to <= v@.len(),
            r@ == v@.subrange(from as int, i as int),
        decreases to - i,
    {
        r.push(v[i]);
        i = i + 1;
    }
    r
}

/// The pieces of `v` between occurrences of `sep`.
fn split_bytes(v: &[u8], sep: u8) -> (r: Vec<Vec<u8>>)
    ensures
        r.deep_view() == text::split(v@, sep),
        r@.len() >= 1,
{
    let mut r: Vec<Vec<u8>> = Vec::new();
    let mut from: usize = 0;
    let mut i: usize = 0;
    assert(v@.skip(0) == v@);
    assert(r.deep_view() + text::split(v@, sep) == text::split(v@, sep));
    while i < v.len()
        invariant
            from <= i <= v@.len(),
            forall|j: int| from <= j < i ==> v@[j] != sep,
            r.deep_view() + text::split(v@.skip(from as int), sep) == text::split(v@, sep),
        decreases v@.len() - i,
    {
        if v[i] == sep {
            let piece = slice_bytes(v, from, i);
            let ghost rest = v@.skip(from as int);
            let ghost before = r.deep_view();
            proof {
                text::lemma_span_unique(rest, sep, i - from);
                text::lemma_split_step(rest, sep);
                assert(rest.take(i - from) == piece@);
                assert(rest.skip(i - from + 1) == v@.skip(i + 1));
                assert(piece.deep_view() =~= piece@);
            }
            r.push(piece);
            assert(r.deep_view() =~= before.push(piece@));
            assert(before + (seq![piece@] + text::split(v@.skip(i + 1), sep)) == before.push(piece@)
                + text::split(v@.skip(i + 1), sep));
            from = i + 1;
        }
        i = i + 1;
    }
    let piece = slice_bytes(v, from, v.len());
    let ghost rest = v@.skip(from as int);
    let ghost before = r.deep_view();
    proof {
        text::lemma_span_unique(rest, sep, rest.len() as int);
        text::lemma_split_step(rest, sep);
        assert(rest == piece@);
        assert(piece.deep_view() =~= piece@);
    }
    r.push(piece);
    assert(r.deep_view() =~= before.push(piece@));
    assert(before + seq![piece@] == before.push(piece@));
    r
}

proof fn lemma_filter_push<T>(s: Seq<T>, x: T, f: spec_fn(T) -> bool)
    ensures
        s.push(x).filter(f) == if f(x) {
            s.filter(f).push(x)
        } else {
            s.filter(f)
        },
{
    reveal(Seq::filter);
    assert(s.push(x).drop_last() == s);
}

/// The components of a path, as vectors.
fn to_components(p: &[u8]) -> (r: Vec<Vec<u8>>)
    ensures
        r.deep_view() == components(p@),
{
    let pieces = split_bytes(p, SLASH);
    let ghost want = text::split(p@, SLASH);
    let ghost f = |s: Seq<u8>| is_component(s);
    let mut r: Vec<Vec<u8>> = Vec::new();
    assert(pieces@[0].deep_view() =~= pieces@[0]@);
    assert(pieces.deep_view()[0] == pieces@[0].deep_view());
    if p.len() > 0 && p[0] == SLASH {
        let mut root: Vec<u8> = Vec::new();
        root.push(SLASH);
        assert(root.deep_view() =~= seq![SLASH]);
        r.push(root);
        assert(r.deep_view() =~= seq![seq![SLASH]]);
    } else if pieces[0].len() == 1 && pieces[0][0] == DOT {
        assert(pieces@[0]@ =~= seq![DOT]);
        let mut dot: Vec<u8> = Vec::new();
        dot.push(DOT);
        assert(dot.deep_view() =~= seq![DOT]);
        r.push(dot);
        assert(r.deep_view() =~= seq![seq![DOT]]);
    } else {
        assert(r.deep_view() =~= seq![]);
        assert(want[0] != seq![DOT]) by {
            if want[0] == seq![DOT] {
                assert(pieces@[0]@[0] == DOT);
            }
        }
    }
    let ghost head = r.deep_view();
    let mut i: usize = 0;
    proof {
        reveal(Seq::filter);
        assert(want.take(0).filter(f) =~= seq![]);
        assert(head + want.take(0).filter(f) =~= head);
    }
    while i < pieces.len()
        invariant
            i <= pieces@.len(),
            pieces.deep_view() == want,
            f == (|s: Seq<u8>| is_component(s)),
            r.deep_view() == head + want.take(i as int).filter(f),
        decreases pieces@.len() - i,
    {
        let piece = &pieces[i];
        let keep = !(piece.len() == 0 || (piece.len() == 1 && piece[0] == DOT));
        let ghost before = r.deep_view();
        proof {
            assert(pieces.deep_view()[i as int] == piece.deep_view());
            assert(piece.deep_view() =~= piece@);
            if piece@.len() == 1 && piece@[0] == DOT {
                assert(piece@ =~= seq![DOT]);
            }
            assert(keep == f(want[i as int]));
            assert(want.take(i + 1) == want.take(i as int).push(want[i as int]));
            lemma_filter_push(want.take(i as int), want[i as int], f);
        }
        if keep {
            let copy = slice_bytes(piece.as_slice(), 0, piece.len());
            assert(copy.deep_view() =~= piece@);
            r.push(copy);
            assert(r.deep_view() =~= before.push(piece@));
        }
        assert(r.deep_view() =~= head + want.take(i + 1).filter(f));
        i = i + 1;
    }
    assert(want.take(i as int) == want);
    assert(r.deep_view() =~= components(p@));
    r
}

/// The names along a path: its components without the root or a leading `.`.
pub open spec fn names(p: Seq<u8>) -> PathKey {
    text::split(p, SLASH).filter(|s: Seq<u8>| is_component(s))
}

proof fn lemma_filter_add<T>(a: Seq<T>, b: Seq<T>, f: spec_fn(T) -> bool)
    ensures
        (a + b).filter(f) == a.filter(f) + b.filter(f),
    decreases b.len(),
{
    reveal(Seq::filter);
    if b.len() == 0 {
        assert(a + b == a);
        assert(a.filter(f) + b.filter(f) == a.filter(f));
    } else {
        assert((a + b).drop_last() == a + b.drop_last());
        lemma_filter_add(a, b.drop_last(), f);
        assert(a.filter(f) + b.drop_last().filter(f).push(b.last()) == (a.filter(f)
            + b.drop_last().filter(f)).push(b.last()));
    }
}

proof fn lemma_filter_all<T>(s: Seq<T>, f: spec_fn(T) -> bool)
    ensures
        forall|i: int| 0 <= i < s.filter(f).len() ==> f(#[trigger] s.filter(f)[i]) && s.contains(
            s.filter(f)[i],
        ),
    decreases s.len(),
{
    reveal(Seq::filter);
    if s.len() > 0 {
        lemma_filter_all(s.drop_last(), f);
        assert forall|i: int| 0 <= i < s.filter(f).len() implies f(#[trigger] s.filter(f)[i])
            && s.contains(s.filter(f)[i]) by {
            let rest = s.drop_last().filter(f);
            if i < rest.len() {
                assert(s.filter(f)[i] == rest[i]);
                let k = choose|k: int| 0 <= k < s.drop_last().len() && s.drop_last()[k] == rest[i];
                assert(s[k] == rest[i]);
            } else {
                assert(s[s.len() - 1] == s.filter(f)[i]);
            }
        }
    }
}

/// Every path is under itself.
pub proof fn under_is_reflexive(p: Seq<u8>)
    ensures
        under(p, p),
{
    assert(components(p) == components(p).subrange(0, components(p).len() as int));
}

/// What lies under something that lies under `c` lies under `c`.
pub proof fn under_is_transitive(a: Seq<u8>, b: Seq<u8>, c: Seq<u8>)
    requires
        under(a, b),
        under(b, c),
    ensures
        under(a, c),
{
    let x = components(a);
    let y = components(b);
    let z = components(c);
    assert(z =~= x.subrange(0, z.len() as int)) by {
        assert forall|i: int| 0 <= i < z.len() implies z[i] == x[i] by {
            assert(z[i] == y.subrange(0, z.len() as int)[i]);
            assert(y[i] == x.subrange(0, y.len() as int)[i]);
        }
    }
}

/// Two paths that lie under each other are the same path.
pub proof fn under_is_antisymmetric(a: Seq<u8>, b: Seq<u8>)
    requires
        under(a, b),
        under(b, a),
    ensures
        components(a) == components(b),
{
    assert(components(a) =~= components(b));
}

/// Joining appends names: a relative path joined to `base` lies under `base`.
pub proof fn joined_is_under(base: Seq<u8>, rel: Seq<u8>)
    requires
        !is_absolute(rel),
        base.len() > 0,
    ensures
        components(joined(base, rel)) == components(base) + names(rel),
        under(joined(base, rel), base),
{
    let f = |s: Seq<u8>| is_component(s);
    let a = if base.last() != SLASH {
        base
    } else {
        base.drop_last()
    };
    let j = joined(base, rel);
    assert(j =~= a.push(SLASH) + rel);
    text::lemma_split_join(a, SLASH, rel);
    lemma_filter_add(text::split(a, SLASH), text::split(rel, SLASH), f);
    text::lemma_split_free(a, SLASH);
    let pieces = text::split(a, SLASH);
    if base.last() == SLASH {
        let none = Seq::<u8>::empty();
        assert(base =~= a.push(SLASH) + none);
        text::lemma_split_join(a, SLASH, none);
        lemma_filter_add(pieces, text::split(none, SLASH), f);
        assert(text::split(none, SLASH) =~= seq![none]);
        lemma_filter_push(Seq::<Seq<u8>>::empty(), none, f);
        reveal(Seq::filter);
        assert(Seq::<Seq<u8>>::empty().push(none) =~= seq![none]);
        assert(Seq::<Seq<u8>>::empty().filter(f) =~= Seq::empty());
        assert(seq![none].filter(f) =~= Seq::empty());
        assert(names(base) =~= names(a));
        assert(text::split(base, SLASH)[0] == pieces[0]);
    }
    assert(text::split(j, SLASH)[0] == pieces[0]);
    assert(is_absolute(j) == is_absolute(base));
    assert(components(j) =~= components(base) + names(rel));
    assert(components(base) =~= components(j).subrange(0, components(base).len() as int));
}

/// A path with the given components.
pub open spec fn path_of(c: PathKey) -> Seq<u8>
    decreases c.len(),
{
    if c.len() == 0 {
        seq![]
    } else if c.len() == 1 {
        c[0]
    } else {
        joined(path_of(c.drop_last()), c.last())
    }
}

/// The directory that holds `p`, if `p` names something in one.
pub open spec fn parent_of(p: Seq<u8>) -> Option<Seq<u8>> {
    let c = components(p);
    if c.len() == 0 || c.last() == seq![SLASH] {
        None
    } else {
        Some(path_of(c.drop_last()))
    }
}

/// Whether `s` is a component and holds no slash.
pub open spec fn is_name(s: Seq<u8>) -> bool {
    is_component(s) && forall|j: int| 0 <= j < s.len() ==> s[j] != SLASH
}

proof fn lemma_split_name(s: Seq<u8>)
    requires
        forall|j: int| 0 <= j < s.len() ==> s[j] != SLASH,
    ensures
        text::split(s, SLASH) == seq![s],
        names(s) == if is_component(s) {
            seq![s]
        } else {
            Seq::<Seq<u8>>::empty()
        },
{
    let f = |s: Seq<u8>| is_component(s);
    text::lemma_split_none(s, SLASH);
    lemma_filter_push(Seq::<Seq<u8>>::empty(), s, f);
    reveal(Seq::filter);
    assert(Seq::<Seq<u8>>::empty().push(s) =~= seq![s]);
    assert(Seq::<Seq<u8>>::empty().filter(f) =~= Seq::empty());
    assert(seq![s].filter(f) =~= names(s));
}

/// What the components of a path look like: names, but for the root or a leading `.`.
proof fn lemma_components_are_names(p: Seq<u8>)
    ensures
        forall|i: int| 0 < i < components(p).len() ==> is_name(#[trigger] components(p)[i]),
        components(p).len() > 0 ==> is_name(components(p)[0]) || components(p)[0] == seq![SLASH]
            || components(p)[0] == seq![DOT],
{
    let f = |s: Seq<u8>| is_component(s);
    let pieces = text::split(p, SLASH);
    text::lemma_split_free(p, SLASH);
    lemma_filter_all(pieces, f);
    let n = pieces.filter(f);
    assert forall|i: int| 0 <= i < n.len() implies is_name(#[trigger] n[i]) by {
        assert(f(n[i]) && pieces.contains(n[i]));
        let k = choose|k: int| 0 <= k < pieces.len() && pieces[k] == n[i];
        assert forall|j: int| 0 <= j < n[i].len() implies n[i][j] != SLASH by {
            assert(pieces[k][j] != SLASH);
        }
    }
    let c = components(p);
    let d = c.len() - n.len();
    assert forall|i: int| 0 < i < c.len() implies is_name(#[trigger] c[i]) by {
        assert(c[i] == n[i - d]);
    }
    if c.len() > 0 && d == 0 {
        assert(c[0] == n[0]);
    }
}

proof fn lemma_components_of_root()
    ensures
        components(seq![SLASH]) == seq![seq![SLASH]],
{
    let none = Seq::<u8>::empty();
    let root = seq![SLASH];
    let f = |s: Seq<u8>| is_component(s);
    let one = text::split(none, SLASH);
    assert(one.filter(f) == Seq::<Seq<u8>>::empty()) by {
        lemma_split_name(none);
    }
    assert(text::split(root, SLASH) == one + one) by {
        assert(none.push(SLASH) + none =~= root);
        text::lemma_split_join(none, SLASH, none);
    }
    assert(names(root) == Seq::<Seq<u8>>::empty()) by {
        lemma_filter_add(one, one, f);
        assert(Seq::<Seq<u8>>::empty() + Seq::<Seq<u8>>::empty() =~= Seq::<Seq<u8>>::empty());
    }
    assert(seq![root] + Seq::<Seq<u8>>::empty() =~= seq![root]);
    assert(components(root) == seq![root] + names(root));
}

proof fn lemma_components_of_name(s: Seq<u8>)
    requires
        is_name(s) || s == seq![DOT],
    ensures
        components(s) == seq![s],
{
    lemma_split_name(s);
    if s == seq![DOT] {
        assert(names(s) =~= seq![]);
    }
    assert(components(s) =~= seq![s]);
}

proof fn lemma_components_of_path_of(c: PathKey)
    requires
        forall|i: int| 0 < i < c.len() ==> is_name(#[trigger] c[i]),
        c.len() > 0 ==> is_name(c[0]) || c[0] == seq![SLASH] || c[0] == seq![DOT],
    ensures
        components(path_of(c)) == c,
        c.len() > 0 ==> path_of(c).len() > 0,
    decreases c.len(),
{
    if c.len() == 0 {
        lemma_split_name(seq![]);
        assert(components(path_of(c)) =~= c);
    } else if c.len() == 1 {
        if c[0] == seq![SLASH] {
            lemma_components_of_root();
        } else {
            lemma_components_of_name(c[0]);
        }
        assert(seq![c[0]] =~= c);
    } else {
        let front = c.drop_last();
        assert forall|i: int| 0 < i < front.len() implies is_name(#[trigger] front[i]) by {
            assert(front[i] == c[i]);
        }
        lemma_components_of_path_of(front);
        assert(is_name(c[c.len() - 1]));
        lemma_split_name(c.last());
        joined_is_under(path_of(front), c.last());
        assert(front + seq![c.last()] =~= c);
    }
}

/// Joining a name appends one component.
pub proof fn joined_name(base: Seq<u8>, name: Seq<u8>)
    requires
        base.len() > 0,
        is_name(name),
    ensures
        components(joined(base, name)) == components(base).push(name),
{
    lemma_split_name(name);
    joined_is_under(base, name);
    assert(components(base) + seq![name] =~= components(base).push(name));
}

/// The components of a path at the root: the root and the name.
pub proof fn root_and_name(name: Seq<u8>)
    requires
        is_name(name),
    ensures
        components(seq![SLASH] + name) == seq![seq![SLASH], name],
{
    lemma_components_of_root();
    joined_name(seq![SLASH], name);
    assert(joined(seq![SLASH], name) =~= seq![SLASH] + name);
    assert(seq![seq![SLASH]].push(name) =~= seq![seq![SLASH], name]);
}

/// The components of a path's parent are those of the path without the last.
pub proof fn parent_drops_one_component(p: Seq<u8>)
    requires
        parent_of(p) is Some,
    ensures
        components(parent_of(p)->0) == components(p).drop_last(),
        under(p, parent_of(p)->0),
{
    lemma_components_are_names(p);
    let c = components(p);
    let front = c.drop_last();
    assert forall|i: int| 0 < i < front.len() implies is_name(#[trigger] front[i]) by {
        assert(front[i] == c[i]);
    }
    lemma_components_of_path_of(front);
    assert(front =~= c.subrange(0, front.len() as int));
}

impl PathBuf {
    /// The path written as `s`.
    pub fn from_text(s: &str) -> (r: PathBuf)
        ensures
            r@ == vstd::utf8::encode_utf8(s@),
    {
        let b = s.as_bytes();
        PathBuf { bytes: slice_bytes(b, 0, b.len()) }
    }

    /// The path with the given bytes.
    pub fn from_bytes(bytes: Vec<u8>) -> (r: PathBuf)
        ensures
            r@ == bytes@,
    {
        PathBuf { bytes }
    }

    pub fn is_absolute(&self) -> (r: bool)
        ensures
            r == is_absolute(self@),
    {
        self.bytes.len() > 0 && self.bytes[0] == SLASH
    }

    /// Whether this path is `base` or lies below it.
    pub fn starts_with(&self, base: &PathBuf) -> (r: bool)
        ensures
            r == under(self@, base@),
    {
        let a = to_components(self.bytes.as_slice());
        let b = to_components(base.bytes.as_slice());
        let ghost x = components(self@);
        let ghost y = components(base@);
        assert(a@.len() == x.len() && b@.len() == y.len());
        if b.len() > a.len() {
            return false;
        }
        let mut i: usize = 0;
        while i < b.len()
            invariant
                i <= b@.len() <= a@.len(),
                a.deep_view() == x,
                b.deep_view() == y,
                x == components(self@),
                y == components(base@),
                forall|j: int| 0 <= j < i ==> x[j] == y[j],
            decreases b@.len() - i,
        {
            proof {
                assert(a.deep_view()[i as int] == a@[i as int].deep_view());
                assert(b.deep_view()[i as int] == b@[i as int].deep_view());
                assert(a@[i as int].deep_view() =~= a@[i as int]@);
                assert(b@[i as int].deep_view() =~= b@[i as int]@);
            }
            if !same_bytes(a[i].as_slice(), b[i].as_slice()) {
                assert(x.subrange(0, y.len() as int)[i as int] == x[i as int]);
                return false;
            }
            i = i + 1;
        }
        assert(y =~= x.subrange(0, y.len() as int));
        true
    }

    /// Whether two paths have the same components.
    pub fn same(&self, other: &PathBuf) -> (r: bool)
        ensures
            r == (components(self@) == components(other@)),
    {
        let r = self.starts_with(other) && other.starts_with(self);
        proof {
            if r {
                under_is_antisymmetric(self@, other@);
            } else if components(self@) == components(other@) {
                under_is_reflexive(self@);
                under_is_reflexive(other@);
            }
        }
        r
    }

    /// The path at which `rel` lies, seen from this one.
    pub fn join(&self, rel: &PathBuf) -> (r: PathBuf)
        ensures
            r@ == joined(self@, rel@),
    {
        let n: usize = self.bytes.len();
        if rel.is_absolute() {
            return rel.clone();
        }
        let mut bytes = slice_bytes(self.bytes.as_slice(), 0, n);
        if n > 0 && bytes[n - 1] != SLASH {
            bytes.push(SLASH);
        }
        let mut tail = slice_bytes(rel.bytes.as_slice(), 0, rel.bytes.len());
        bytes.append(&mut tail);
        assert(bytes@ =~= joined(self@, rel@));
        PathBuf { bytes }
    }

    /// The last component, if it is a name.
    pub fn file_name(&self) -> (r: Option<Vec<u8>>)
        ensures
            match (r, final_name(self@)) {
                (Some(n), Some(m)) => n@ == m,
                (None, None) => true,
                _ => false,
            },
    {
        let c = to_components(self.bytes.as_slice());
        let n: usize = c.len();
        assert(n == components(self@).len());
        if n == 0 {
            return None;
        }
        let last = &c[n - 1];
        proof {
            assert(c.deep_view()[n - 1] == last.deep_view());
            assert(last.deep_view() =~= last@);
        }
        let mut dots: Vec<u8> = Vec::new();
        dots.push(SLASH);
        assert(dots@ =~= seq![SLASH]);
        if same_bytes(last.as_slice(), dots.as_slice()) {
            return None;
        }
        dots.clear();
        dots.push(DOT);
        assert(dots@ =~= seq![DOT]);
        if same_bytes(last.as_slice(), dots.as_slice()) {
            return None;
        }
        dots.push(DOT);
        assert(dots@ =~= seq![DOT, DOT]);
        if same_bytes(last.as_slice(), dots.as_slice()) {
            return None;
        }
        let name = slice_bytes(last.as_slice(), 0, last.len());
        assert(name@ =~= last@);
        Some(name)
    }

    /// The directory that holds this path.
    pub fn parent(&self) -> (r: Option<PathBuf>)
        ensures
            match (r, parent_of(self@)) {
                (Some(q), Some(w)) => q@ == w,
                (None, None) => true,
                _ => false,
            },
    {
        let c = to_components(self.bytes.as_slice());
        let ghost want = components(self@);
        let n: usize = c.len();
        assert(n == want.len());
        if n == 0 {
            return None;
        }
        proof {
            assert forall|i: int| 0 <= i < n implies #[trigger] c@[i]@ == want[i] by {
                assert(c.deep_view()[i] == c@[i].deep_view());
                assert(c@[i].deep_view() =~= c@[i]@);
            }
        }
        if c[n - 1].len() == 1 && c[n - 1][0] == SLASH {
            assert(c@[n - 1]@ =~= seq![SLASH]);
            return None;
        }
        assert(want.last() != seq![SLASH]) by {
            if want.last() == seq![SLASH] {
                assert(c@[n - 1]@[0] == SLASH);
            }
        }
        let mut r = PathBuf { bytes: Vec::new() };
        let mut i: usize = 0;
        assert(r@ =~= path_of(want.take(0)));
        while i < n - 1
            invariant
                0 <= i <= n - 1,
                n == c@.len() == want.len(),
                forall|j: int| 0 <= j < n ==> #[trigger] c@[j]@ == want[j],
                r@ == path_of(want.take(i as int)),
            decreases n - i,
        {
            let name = PathBuf { bytes: slice_bytes(c[i].as_slice(), 0, c[i].len()) };
            assert(name@ =~= want[i as int]);
            let ghost next = want.take(i + 1);
            assert(next.drop_last() == want.take(i as int));
            assert(next.last() == want[i as int]);
            r = if i == 0 {
                name
            } else {
                r.join(&name)
            };
            i = i + 1;
        }
        assert(want.take(i as int) == want.drop_last());
        Some(r)
    }

    /// The text shown for the path.
    pub fn display(&self) -> (r: String)
        ensures
            r@ == text::displayed(self@),
    {
        text::from_utf8_lossy(&self.bytes)
    }
}

impl Clone for PathBuf {
    fn clone(&self) -> (r: Self)
        ensures
            r@ == self@,
    {
        let bytes = slice_bytes(self.bytes.as_slice(), 0, self.bytes.len());
        assert(bytes@ =~= self.bytes@);
        PathBuf { bytes }
    }
}

/// A path is absolute just if it starts with a slash, and then its first component is the root.
pub proof fn absolute_paths_start_at_the_root(p: Seq<u8>, rest: Seq<u8>)
    ensures
        is_absolute(seq![47u8] + rest),
        is_absolute(p) ==> p == seq![47u8] + p.skip(1),
        is_absolute(p) <==> components(p).len() > 0 && components(p)[0] == seq![47u8],
{
    if is_absolute(p) {
        assert(p =~= seq![47u8] + p.skip(1));
        assert(components(p)[0] == seq![SLASH]);
    } else if components(p).len() > 0 && components(p)[0] == seq![47u8] {
        let f = |s: Seq<u8>| is_component(s);
        let pieces = text::split(p, SLASH);
        text::lemma_split_free(p, SLASH);
        lemma_filter_all(pieces, f);
        if pieces[0] == seq![DOT] {
            assert(components(p)[0] == seq![DOT]);
            assert(seq![DOT][0] != seq![47u8][0]);
        } else {
            let n = pieces.filter(f);
            assert(components(p)[0] == n[0]);
            assert(pieces.contains(n[0]));
            let k = choose|k: int| 0 <= k < pieces.len() && pieces[k] == n[0];
            assert(pieces[k][0] == SLASH);
        }
    }
}

/// A path is under another just if it goes on, by whole components, where the other ends.
pub proof fn under_goes_by_whole_components(p: Seq<u8>, base: Seq<u8>, rest: PathKey)
    ensures
        components(p) == components(base) + rest ==> under(p, base),
        under(p, base) ==> components(p) == components(base) + components(p).skip(
            components(base).len() as int,
        ),
{
    let x = components(p);
    let y = components(base);
    if x == y + rest {
        assert(y =~= x.subrange(0, y.len() as int));
    }
    if under(p, base) {
        assert(y =~= x.subrange(0, y.len() as int));
        assert(x =~= y + x.skip(y.len() as int));
    }
}

/// The names along a path are those along its two halves, wherever it is cut at a slash. A piece
/// without a slash is a name, unless there is nothing to it or it is a dot.
pub proof fn slashes_separate_names(a: Seq<u8>, b: Seq<u8>, piece: Seq<u8>)
    requires
        !piece.contains(47u8),
    ensures
        names(a + seq![47u8] + b) == names(a) + names(b),
        names(piece) == if piece.len() == 0 || piece == seq![46u8] {
            Seq::<Seq<u8>>::empty()
        } else {
            seq![piece]
        },
{
    assert(a + seq![47u8] + b =~= a.push(SLASH) + b);
    text::lemma_split_join(a, SLASH, b);
    lemma_filter_add(text::split(a, SLASH), text::split(b, SLASH), |s: Seq<u8>| is_component(s));
    assert forall|j: int| 0 <= j < piece.len() implies piece[j] != SLASH by {
        if piece[j] == SLASH {
            assert(piece.contains(47u8));
        }
    }
    lemma_split_name(piece);
}

/// The components of a path are the names along it, behind the root if it is absolute, and behind a
/// dot if it starts with one.
pub proof fn components_are_root_and_names(p: Seq<u8>, name: Seq<u8>)
    requires
        name.len() > 0,
        !name.contains(47u8),
    ensures
        components(seq![47u8] + p) == seq![seq![47u8]] + names(p),
        components(name) == seq![name],
        name != seq![46u8] ==> components(name + seq![47u8] + p) == seq![name] + names(p),
        components(seq![46u8, 47u8] + p) == seq![seq![46u8]] + names(p),
        components(Seq::<u8>::empty()) == Seq::<Seq<u8>>::empty(),
{
    let none = Seq::<u8>::empty();
    assert forall|j: int| 0 <= j < name.len() implies name[j] != SLASH by {
        if name[j] == SLASH {
            assert(name.contains(47u8));
        }
    }
    assert(seq![47u8] + p =~= none + seq![47u8] + p);
    slashes_separate_names(none, p, none);
    assert(names(none) + names(p) =~= names(p));
    lemma_split_name(none);
    assert(components(none) =~= Seq::<Seq<u8>>::empty());
    assert(components(seq![47u8] + p) =~= seq![seq![47u8]] + names(p));
    lemma_components_of_name(name);
    let q = name + seq![47u8] + p;
    assert(q =~= name.push(SLASH) + p);
    text::lemma_split_join(name, SLASH, p);
    text::lemma_split_none(name, SLASH);
    slashes_separate_names(name, p, name);
    assert(text::split(q, SLASH)[0] == name);
    assert(q[0] == name[0]);
    let dot = seq![46u8];
    let r = seq![46u8, 47u8] + p;
    assert(r =~= dot.push(SLASH) + p);
    assert(r =~= dot + seq![47u8] + p);
    assert(!dot.contains(47u8));
    text::lemma_split_join(dot, SLASH, p);
    text::lemma_split_none(dot, SLASH);
    slashes_separate_names(dot, p, dot);
    assert(text::split(r, SLASH)[0] == dot);
    assert(names(dot) + names(p) =~= names(p));
    assert(components(r) =~= seq![dot] + names(p));
}

/// A slash at the end of a path, or one more slash in the middle of it, does not matter. Neither does
/// a dot between slashes.
pub proof fn more_slashes_do_not_matter(a: Seq<u8>, b: Seq<u8>)
    requires
        a.len() > 0,
    ensures
        components(a + seq![47u8]) == components(a),
        components(a + seq![47u8, 47u8] + b) == components(a + seq![47u8] + b),
        components(a + seq![47u8, 46u8, 47u8] + b) == components(a + seq![47u8] + b),
{
    let none = Seq::<u8>::empty();
    let dot = seq![46u8];
    let f = |s: Seq<u8>| is_component(s);
    assert(!none.contains(47u8));
    assert(!dot.contains(47u8));
    text::lemma_split_free(a, SLASH);
    assert forall|c: Seq<u8>| #[trigger] text::split(a.push(SLASH) + c, SLASH)[0] == text::split(
        a,
        SLASH,
    )[0] by {
        text::lemma_split_join(a, SLASH, c);
    }
    assert forall|c: Seq<u8>| is_absolute(#[trigger] (a.push(SLASH) + c)) == is_absolute(a) by {
        assert((a.push(SLASH) + c)[0] == a[0]);
    }
    let one = a + seq![47u8];
    assert(one =~= a.push(SLASH) + none);
    assert(one =~= a + seq![47u8] + none);
    slashes_separate_names(a, none, none);
    assert(names(a) + names(none) =~= names(a));
    assert(components(one) =~= components(a));

    let plain = a + seq![47u8] + b;
    assert(plain =~= a.push(SLASH) + b);
    slashes_separate_names(a, b, none);

    let two = a + seq![47u8, 47u8] + b;
    let c = seq![47u8] + b;
    assert(two =~= a.push(SLASH) + c);
    assert(two =~= a + seq![47u8] + c);
    slashes_separate_names(a, c, none);
    assert(c =~= none + seq![47u8] + b);
    slashes_separate_names(none, b, none);
    assert(names(none) + names(b) =~= names(b));
    assert(names(two) == names(plain));
    assert(components(two) =~= components(plain));

    let dotted = a + seq![47u8, 46u8, 47u8] + b;
    let d = seq![46u8, 47u8] + b;
    assert(dotted =~= a.push(SLASH) + d);
    assert(dotted =~= a + seq![47u8] + d);
    slashes_separate_names(a, d, none);
    assert(d =~= dot + seq![47u8] + b);
    slashes_separate_names(dot, b, dot);
    assert(names(dot) + names(b) =~= names(b));
    assert(names(dotted) == names(plain));
    assert(components(dotted) =~= components(plain));
}

/// Joining an absolute path gives that path, and joining any other appends it.
pub proof fn joining_appends_or_replaces(base: Seq<u8>, rel: Seq<u8>)
    ensures
        rel.len() > 0 && rel[0] == 47u8 ==> joined(base, rel) == rel,
        base.len() == 0 ==> joined(base, rel) == rel,
        base.len() > 0 && !(rel.len() > 0 && rel[0] == 47u8) ==> {
            ||| joined(base, rel) == base + seq![47u8] + rel && base.last() != 47u8
            ||| joined(base, rel) == base + rel && base.last() == 47u8
        },
{
    assert(base.len() == 0 ==> base + rel =~= rel);
    assert(base.push(SLASH) + rel =~= base + seq![47u8] + rel);
}

/// The name of a file in a directory is its file name, and the directory is its parent. The root has
/// neither, and the directory above has no name.
pub proof fn names_and_parents_of_files(base: Seq<u8>, name: Seq<u8>)
    requires
        base.len() > 0,
        is_name(name),
    ensures
        final_name(joined(base, name)) == if name == seq![46u8, 46u8] {
            None
        } else {
            Some(name)
        },
        parent_of(joined(base, name)) is Some,
        components(parent_of(joined(base, name))->0) == components(base),
        final_name(seq![47u8]) is None,
        parent_of(seq![47u8]) is None,
        final_name(Seq::<u8>::empty()) is None,
        parent_of(Seq::<u8>::empty()) is None,
{
    let p = joined(base, name);
    joined_name(base, name);
    lemma_components_of_root();
    assert(name != seq![SLASH]) by {
        if name == seq![SLASH] {
            assert(name[0] == SLASH);
        }
    }
    assert(components(p).last() == name);
    parent_drops_one_component(p);
    assert(components(p).drop_last() =~= components(base));
    lemma_split_name(Seq::<u8>::empty());
    assert(components(Seq::<u8>::empty()) =~= Seq::<Seq<u8>>::empty());
    assert(seq![seq![SLASH]].last() == seq![SLASH]);
}

/// The file name of a path is its last component, unless that is the root, the directory itself or the
/// one above. Every path but the root and the empty one has a parent.
pub proof fn file_names_are_last_components(p: Seq<u8>, name: Seq<u8>)
    ensures
        final_name(p) == Some(name) <==> {
            &&& components(p).len() > 0
            &&& components(p).last() == name
            &&& name != seq![47u8]
            &&& name != seq![46u8]
            &&& name != seq![46u8, 46u8]
        },
        parent_of(p) is Some <==> components(p).len() > 0 && components(p) != seq![seq![47u8]],
{
    lemma_components_are_names(p);
    let c = components(p);
    if c.len() > 0 && c.last() == seq![SLASH] {
        if c.len() > 1 {
            assert(is_name(c[c.len() - 1]));
            assert(c.last()[0] == SLASH);
        } else {
            assert(c =~= seq![seq![47u8]]);
        }
    }
    if c == seq![seq![47u8]] {
        assert(c.last() == seq![SLASH]);
    }
}

} // verus!
