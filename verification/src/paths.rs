//! Unix paths as byte strings, read the way `std::path::Path` reads them:
//! components, prefix tests, equality, file name and extension.
use vstd::prelude::*;

verus! {

/// One component of a path.
pub enum Comp {
    /// The leading `/`.
    Root,
    /// A leading `.` of a relative path.
    Cur,
    /// A `..`.
    Parent,
    /// Any other non-empty segment other than `.`.
    Normal(Seq<u8>),
}

/// The component that one `/`-delimited segment contributes: none for an
/// empty segment or `.`, `Parent` for `..`, else the segment itself.
pub open spec fn piece(s: Seq<u8>) -> Seq<Comp> {
    if s.len() == 0 || s == seq![46u8] {
        Seq::empty()
    } else if s == seq![46u8, 46u8] {
        seq![Comp::Parent]
    } else {
        seq![Comp::Normal(s)]
    }
}

/// The index of the last `/` in `p`.
pub open spec fn last_slash(p: Seq<u8>) -> Option<nat>
    decreases p.len(),
{
    if p.len() == 0 {
        None
    } else if p.last() == 47u8 {
        Some((p.len() - 1) as nat)
    } else {
        last_slash(p.drop_last())
    }
}

/// The components of the `/`-delimited segments of `p`.
pub open spec fn seg_comps(p: Seq<u8>) -> Seq<Comp>
    decreases p.len(),
{
    match last_slash(p) {
        None => piece(p),
        Some(i) => if i < p.len() {
            seg_comps(p.subrange(0, i as int)) + piece(p.subrange(i as int + 1, p.len() as int))
        } else {
            Seq::empty()
        },
    }
}

/// Whether a relative path begins with a `.` segment.
pub open spec fn cur_prefix(p: Seq<u8>) -> bool {
    p.len() > 0 && p[0] == 46u8 && (p.len() == 1 || p[1] == 47u8)
}

/// The components of `p` (`Path::components`): a root for a leading `/`, a
/// current-directory marker for a leading `./` or a bare `.`, then the
/// segments, without empty ones or inner `.`.
pub open spec fn comps(p: Seq<u8>) -> Seq<Comp> {
    (if p.len() > 0 && p[0] == 47u8 {
        seq![Comp::Root]
    } else if cur_prefix(p) {
        seq![Comp::Cur]
    } else {
        Seq::empty()
    }) + seg_comps(p)
}

/// `Path::starts_with`: the components of `base` begin those of `p`.
pub open spec fn path_starts_with(p: Seq<u8>, base: Seq<u8>) -> bool {
    let a = comps(p);
    let b = comps(base);
    b.len() <= a.len() && a.subrange(0, b.len() as int) == b
}

/// `Path` equality: the same components.
pub open spec fn path_eq(p: Seq<u8>, q: Seq<u8>) -> bool {
    comps(p) == comps(q)
}

/// `Path::file_name`: the last component, where it is a normal one.
pub open spec fn file_name(p: Seq<u8>) -> Option<Seq<u8>> {
    let c = comps(p);
    if c.len() > 0 && c.last() is Normal {
        Some(c.last()->Normal_0)
    } else {
        None
    }
}

/// The index of the last `.` in `s`.
pub open spec fn last_dot(s: Seq<u8>) -> Option<nat>
    decreases s.len(),
{
    if s.len() == 0 {
        None
    } else if s.last() == 46u8 {
        Some((s.len() - 1) as nat)
    } else {
        last_dot(s.drop_last())
    }
}

/// `Path::extension`: what follows the last `.` of the file name, unless the
/// name is `..`, has no `.`, or its only `.` is the first byte.
pub open spec fn extension(p: Seq<u8>) -> Option<Seq<u8>> {
    match file_name(p) {
        None => None,
        Some(n) => if n == seq![46u8, 46u8] {
            None
        } else {
            match last_dot(n) {
                None => None,
                Some(i) => if i == 0 {
                    None
                } else {
                    Some(n.subrange(i as int + 1, n.len() as int))
                },
            }
        },
    }
}

/// An executable path component.
pub enum PathComp {
    Root,
    Cur,
    Parent,
    Normal(Vec<u8>),
}

impl View for PathComp {
    type V = Comp;

    open spec fn view(&self) -> Comp {
        match self {
            PathComp::Root => Comp::Root,
            PathComp::Cur => Comp::Cur,
            PathComp::Parent => Comp::Parent,
            PathComp::Normal(v) => Comp::Normal(v@),
        }
    }
}

/// The views of a list of components.
pub open spec fn comps_view(v: Seq<PathComp>) -> Seq<Comp> {
    Seq::new(v.len(), |i: int| v[i]@)
}

proof fn lemma_last_slash(p: Seq<u8>, j: int)
    requires
        0 <= j <= p.len(),
        forall|k: int| j <= k < p.len() ==> p[k] != 47u8,
    ensures
        j > 0 && p[j - 1] == 47u8 ==> last_slash(p) == Some((j - 1) as nat),
        j == 0 ==> last_slash(p) is None,
    decreases p.len() - j,
{
    if j < p.len() {
        let t = p.drop_last();
        assert forall|k: int| j <= k < t.len() implies t[k] != 47u8 by {
            assert(t[k] == p[k]);
        }
        lemma_last_slash(t, j);
    }
}

proof fn lemma_last_dot(p: Seq<u8>, j: int)
    requires
        0 <= j <= p.len(),
        forall|k: int| j <= k < p.len() ==> p[k] != 46u8,
    ensures
        j > 0 && p[j - 1] == 46u8 ==> last_dot(p) == Some((j - 1) as nat),
        j == 0 ==> last_dot(p) is None,
    decreases p.len() - j,
{
    if j < p.len() {
        let t = p.drop_last();
        assert forall|k: int| j <= k < t.len() implies t[k] != 46u8 by {
            assert(t[k] == p[k]);
        }
        lemma_last_dot(t, j);
    }
}

fn bytes_range(s: &[u8], from: usize, to: usize) -> (r: Vec<u8>)
    requires
        from <= to <= s@.len(),
    ensures
        r@ == s@.subrange(from as int, to as int),
{
    let mut r: Vec<u8> = Vec::new();
    let mut k: usize = from;
    while k < to
        invariant
            from <= k <= to <= s@.len(),
            r@ == s@.subrange(from as int, k as int),
        decreases to - k,
    {
        r.push(s[k]);
        k = k + 1;
        proof {
            assert(s@.subrange(from as int, k as int) == s@.subrange(from as int, k - 1).push(
                s@[k - 1],
            ));
        }
    }
    r
}

fn push_piece(out: &mut Vec<PathComp>, s: Vec<u8>)
    ensures
        comps_view(final(out)@) == comps_view(old(out)@) + piece(s@),
{
    let ghost before = comps_view(out@);
    if s.len() == 0 || (s.len() == 1 && s[0] == 46u8) {
        proof {
            if s@.len() == 1 {
                assert(s@ == seq![46u8]);
            }
            assert(comps_view(out@) == before + Seq::<Comp>::empty());
        }
    } else if s.len() == 2 && s[0] == 46u8 && s[1] == 46u8 {
        proof {
            assert(s@ == seq![46u8, 46u8]);
        }
        out.push(PathComp::Parent);
        proof {
            assert(comps_view(out@) == before + seq![Comp::Parent]);
        }
    } else {
        proof {
            assert(s@ != seq![46u8]);
            assert(s@ != seq![46u8, 46u8]);
        }
        let ghost sv = s@;
        out.push(PathComp::Normal(s));
        proof {
            assert(comps_view(out@) == before + seq![Comp::Normal(sv)]);
        }
    }
}

/// The components of the path `p`.
pub fn components(p: &[u8]) -> (r: Vec<PathComp>)
    ensures
        comps_view(r@) == comps(p@),
{
    let mut out: Vec<PathComp> = Vec::new();
    let n = p.len();
    if n > 0 && p[0] == 47u8 {
        out.push(PathComp::Root);
    } else if n > 0 && p[0] == 46u8 && (n == 1 || p[1] == 47u8) {
        out.push(PathComp::Cur);
    }
    let ghost head = comps_view(out@);
    proof {
        assert(head == (if p@.len() > 0 && p@[0] == 47u8 {
            seq![Comp::Root]
        } else if cur_prefix(p@) {
            seq![Comp::Cur]
        } else {
            Seq::<Comp>::empty()
        }));
    }
    // `start` is where the current segment begins; the segments before it
    // are already in `out`.
    let mut start: usize = 0;
    let mut i: usize = 0;
    proof {
        lemma_last_slash(p@.subrange(0, 0), 0);
        assert(seg_comps(p@.subrange(0, 0)) == Seq::<Comp>::empty()) by {
            assert(piece(p@.subrange(0, 0)) == Seq::<Comp>::empty());
        }
    }
    while i < n
        invariant
            n == p@.len(),
            start <= i <= n,
            forall|k: int| start <= k < i ==> p@[k] != 47u8,
            start > 0 ==> p@[start - 1] == 47u8,
            start == 0 ==> comps_view(out@) == head,
            start > 0 ==> comps_view(out@) == head + seg_comps(p@.subrange(0, start - 1)),
        decreases n - i,
    {
        if p[i] == 47u8 {
            let seg = bytes_range(p, start, i);
            proof {
                let q = p@.subrange(0, i as int);
                assert forall|k: int| start <= k < q.len() implies q[k] != 47u8 by {
                    assert(q[k] == p@[k]);
                }
                lemma_last_slash(q, start as int);
                if start > 0 {
                    assert(q[start - 1] == p@[start - 1]);
                    assert(q.subrange(0, start - 1) == p@.subrange(0, start - 1));
                    assert(q.subrange(start as int, q.len() as int) == seg@);
                } else {
                    assert(q == seg@);
                }
            }
            push_piece(&mut out, seg);
            proof {
                let q = p@.subrange(0, i as int);
                if start > 0 {
                    assert(comps_view(out@) == head + seg_comps(q)) by {
                        assert(seg_comps(q) == seg_comps(p@.subrange(0, start - 1)) + piece(
                            p@.subrange(start as int, i as int),
                        )) by {
                            assert(q.subrange(0, start - 1) == p@.subrange(0, start - 1));
                            assert(q.subrange(start as int, q.len() as int) == p@.subrange(
                                start as int,
                                i as int,
                            ));
                        }
                    }
                } else {
                    assert(seg_comps(q) == piece(q));
                    assert(comps_view(out@) == head + seg_comps(q));
                }
            }
            start = i + 1;
        }
        i = i + 1;
    }
    let last = bytes_range(p, start, n);
    proof {
        assert forall|k: int| start <= k < p@.len() implies p@[k] != 47u8 by {}
        lemma_last_slash(p@, start as int);
        if start > 0 {
            assert(p@.subrange(start as int, p@.len() as int) == last@);
        } else {
            assert(p@ == last@);
        }
    }
    push_piece(&mut out, last);
    proof {
        if start > 0 {
            assert(seg_comps(p@) == seg_comps(p@.subrange(0, start - 1)) + piece(last@));
        } else {
            assert(seg_comps(p@) == piece(p@));
        }
    }
    out
}

fn comp_eq(a: &PathComp, b: &PathComp) -> (r: bool)
    ensures
        r == (a@ == b@),
{
    match (a, b) {
        (PathComp::Root, PathComp::Root) => true,
        (PathComp::Cur, PathComp::Cur) => true,
        (PathComp::Parent, PathComp::Parent) => true,
        (PathComp::Normal(x), PathComp::Normal(y)) => {
            if x.len() != y.len() {
                proof {
                    assert(x@.len() != y@.len());
                    assert(x@ != y@);
                }
                return false;
            }
            let mut i: usize = 0;
            while i < x.len()
                invariant
                    x@.len() == y@.len(),
                    a@ == Comp::Normal(x@),
                    b@ == Comp::Normal(y@),
                    i <= x@.len(),
                    forall|k: int| 0 <= k < i ==> x@[k] == y@[k],
                decreases x.len() - i,
            {
                if x[i] != y[i] {
                    proof {
                        assert(x@[i as int] != y@[i as int]);
                        assert(x@ != y@);
                    }
                    return false;
                }
                i = i + 1;
            }
            proof {
                assert(x@ == y@);
            }
            true
        },
        _ => false,
    }
}

fn comps_prefix(a: &Vec<PathComp>, b: &Vec<PathComp>) -> (r: bool)
    ensures
        r == (comps_view(b@).len() <= comps_view(a@).len() && comps_view(a@).subrange(
            0,
            comps_view(b@).len() as int,
        ) == comps_view(b@)),
{
    let ghost av = comps_view(a@);
    let ghost bv = comps_view(b@);
    if b.len() > a.len() {
        return false;
    }
    let mut i: usize = 0;
    while i < b.len()
        invariant
            b@.len() <= a@.len(),
            av == comps_view(a@),
            bv == comps_view(b@),
            i <= b@.len(),
            forall|k: int| 0 <= k < i ==> av[k] == bv[k],
        decreases b.len() - i,
    {
        if !comp_eq(&a[i], &b[i]) {
            proof {
                assert(av.subrange(0, bv.len() as int)[i as int] == av[i as int]);
            }
            return false;
        }
        i = i + 1;
    }
    proof {
        assert(av.subrange(0, bv.len() as int) == bv);
    }
    true
}

/// `Path::new(p).starts_with(base)`.
pub fn starts_with_path(p: &[u8], base: &[u8]) -> (r: bool)
    ensures
        r == path_starts_with(p@, base@),
{
    let a = components(p);
    let b = components(base);
    comps_prefix(&a, &b)
}

/// `Path::new(p) == Path::new(q)`.
pub fn same_path(p: &[u8], q: &[u8]) -> (r: bool)
    ensures
        r == path_eq(p@, q@),
{
    let a = components(p);
    let b = components(q);
    let r = a.len() == b.len() && comps_prefix(&a, &b);
    proof {
        assert(comps_view(a@).len() == a@.len());
        assert(comps_view(b@).len() == b@.len());
        if a@.len() == b@.len() {
            assert(comps_view(a@).subrange(0, comps_view(b@).len() as int) == comps_view(a@));
        }
    }
    r
}

/// `Path::new(p).file_name()`.
pub fn path_file_name(p: &[u8]) -> (r: Option<Vec<u8>>)
    ensures
        match r {
            Some(v) => file_name(p@) == Some(v@),
            None => file_name(p@) is None,
        },
{
    let mut c = components(p);
    let ghost cv = comps_view(c@);
    if c.len() == 0 {
        return None;
    }
    proof {
        assert(cv.last() == c@.last()@);
    }
    match c.pop() {
        Some(PathComp::Normal(v)) => Some(v),
        _ => None,
    }
}

/// `Path::new(p).extension()`.
pub fn path_extension(p: &[u8]) -> (r: Option<Vec<u8>>)
    ensures
        match r {
            Some(v) => extension(p@) == Some(v@),
            None => extension(p@) is None,
        },
{
    let name = match path_file_name(p) {
        None => return None,
        Some(n) => n,
    };
    if name.len() == 2 && name[0] == 46u8 && name[1] == 46u8 {
        proof {
            assert(name@ == seq![46u8, 46u8]);
        }
        return None;
    }
    proof {
        assert(name@ != seq![46u8, 46u8]);
    }
    let mut j: usize = name.len();
    while j > 0 && name[j - 1] != 46u8
        invariant
            j <= name@.len(),
            forall|k: int| j <= k < name@.len() ==> name@[k] != 46u8,
        decreases j,
    {
        j = j - 1;
    }
    proof {
        lemma_last_dot(name@, j as int);
    }
    if j <= 1 {
        None
    } else {
        Some(bytes_range(name.as_slice(), j, name.len()))
    }
}

} // verus!
