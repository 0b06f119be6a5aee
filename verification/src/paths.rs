//! Unix path operations on paths held as text: joining (`PathBuf::push`),
//! component parsing (`Path::components`), prefix tests (`Path::starts_with`).

use vstd::prelude::*;
use crate::text::{chars_eq, chars_of, copy_range, push_char, push_str, string_of};

verus! {

/// `base` extended by `p` as `PathBuf::push` does on Unix: an absolute `p`
/// replaces `base`; otherwise a `'/'` is inserted unless `base` is empty or
/// already ends with one.
pub open spec fn path_join(base: Seq<char>, p: Seq<char>) -> Seq<char> {
    if p.len() > 0 && p[0] == '/' {
        p
    } else if base.len() == 0 || base.last() == '/' {
        base + p
    } else {
        base + seq!['/'] + p
    }
}

/// Joins `p` onto `base` (`Path::join`).
pub fn join_path(base: &str, p: &str) -> (r: String)
    ensures
        r@ == path_join(base@, p@),
{
    let bv = chars_of(base);
    let pv = chars_of(p);
    if pv.len() > 0 && pv[0] == '/' {
        return string_of(&pv);
    }
    let mut out = string_of(&bv);
    if !(bv.len() == 0 || bv[bv.len() - 1] == '/') {
        push_char(&mut out, '/');
    }
    push_str(&mut out, p);
    out
}

/// One component of a path (`std::path::Component`, Unix).
pub enum Component {
    RootDir,
    CurDir,
    ParentDir,
    Normal(Seq<char>),
}

/// Index of the first `'/'` in `s`, or `s.len()`.
pub open spec fn slash_index(s: Seq<char>) -> nat
    decreases s.len(),
{
    if s.len() == 0 {
        0
    } else if s[0] == '/' {
        0
    } else {
        1 + slash_index(s.drop_first())
    }
}

pub proof fn lemma_slash_index(s: Seq<char>)
    ensures
        slash_index(s) <= s.len(),
        slash_index(s) < s.len() ==> s[slash_index(s) as int] == '/',
        forall|j: int| 0 <= j < slash_index(s) ==> #[trigger] s[j] != '/',
    decreases s.len(),
{
    if s.len() > 0 && s[0] != '/' {
        lemma_slash_index(s.drop_first());
        assert forall|j: int| 0 <= j < slash_index(s) implies #[trigger] s[j] != '/' by {
            if j > 0 {
                assert(s[j] == s.drop_first()[j - 1]);
            }
        }
    }
}

/// The pieces of `s` between slashes, empty pieces included.
pub open spec fn pieces(s: Seq<char>) -> Seq<Seq<char>>
    decreases s.len(),
{
    let k = slash_index(s);
    if k >= s.len() {
        seq![s]
    } else {
        proof {
            lemma_slash_index(s);
        }
        seq![s.take(k as int)] + pieces(s.skip((k + 1) as int))
    }
}

/// The components named by path pieces: empty and `.` pieces vanish, `..`
/// is the parent directory, anything else a normal name.
pub open spec fn normal_comps(ps: Seq<Seq<char>>) -> Seq<Component>
    decreases ps.len(),
{
    if ps.len() == 0 {
        seq![]
    } else {
        let rest = normal_comps(ps.drop_first());
        let p = ps[0];
        if p.len() == 0 || p == seq!['.'] {
            rest
        } else if p == seq!['.', '.'] {
            seq![Component::ParentDir] + rest
        } else {
            seq![Component::Normal(p)] + rest
        }
    }
}

/// The components of a Unix path (`Path::components`): a root for a leading
/// `/`, a current-directory marker for a leading `.` piece of a relative path,
/// then the named pieces (repeated slashes and inner `.` pieces normalized
/// away).
pub open spec fn components(s: Seq<char>) -> Seq<Component> {
    let ps = pieces(s);
    let lead: Seq<Component> = if s.len() > 0 && s[0] == '/' {
        seq![Component::RootDir]
    } else if ps[0] == seq!['.'] {
        seq![Component::CurDir]
    } else {
        seq![]
    };
    lead + normal_comps(ps)
}

/// Whether `a` is a prefix of `b`.
pub open spec fn is_prefix<T>(a: Seq<T>, b: Seq<T>) -> bool {
    a.len() <= b.len() && b.take(a.len() as int) == a
}

/// Whether `path` starts with `base` component-wise (`Path::starts_with`).
pub open spec fn path_starts_with(path: Seq<char>, base: Seq<char>) -> bool {
    is_prefix(components(base), components(path))
}

/// Whether two paths have the same components (`PathBuf` equality).
pub open spec fn same_path(a: Seq<char>, b: Seq<char>) -> bool {
    components(a) == components(b)
}

/// The final component's name when it is a normal name (`Path::file_name`).
pub open spec fn file_name(s: Seq<char>) -> Option<Seq<char>> {
    let cs = components(s);
    if cs.len() > 0 && cs.last() is Normal {
        Some(cs.last()->Normal_0)
    } else {
        None
    }
}

/// The text for one component.
pub open spec fn comp_text(c: Component) -> Seq<char> {
    match c {
        Component::RootDir => seq!['/'],
        Component::CurDir => seq!['.'],
        Component::ParentDir => seq!['.', '.'],
        Component::Normal(n) => n,
    }
}

/// A path built from components, each joined onto the previous ones.
pub open spec fn render(cs: Seq<Component>) -> Seq<char>
    decreases cs.len(),
{
    if cs.len() == 0 {
        seq![]
    } else {
        path_join(render(cs.drop_last()), comp_text(cs.last()))
    }
}

/// The parent of a path (`Path::parent`): the path of all but its final
/// component, when the final component is not the root.
pub open spec fn parent_path(s: Seq<char>) -> Option<Seq<char>> {
    let cs = components(s);
    if cs.len() > 0 && !(cs.last() is RootDir) {
        Some(render(cs.drop_last()))
    } else {
        None
    }
}

/// A path component held as text.
#[derive(Debug, PartialEq)]
pub enum PathComponent {
    RootDir,
    CurDir,
    ParentDir,
    Normal(String),
}

/// The component a held component stands for.
pub open spec fn comp_view(c: PathComponent) -> Component {
    match c {
        PathComponent::RootDir => Component::RootDir,
        PathComponent::CurDir => Component::CurDir,
        PathComponent::ParentDir => Component::ParentDir,
        PathComponent::Normal(n) => Component::Normal(n@),
    }
}

/// The components held components stand for.
pub open spec fn comps_view(cs: Seq<PathComponent>) -> Seq<Component> {
    cs.map_values(|c: PathComponent| comp_view(c))
}

fn slash_from(v: &[char], from: usize) -> (i: usize)
    requires
        from <= v@.len(),
    ensures
        i == from + slash_index(v@.skip(from as int)),
        i <= v@.len(),
{
    let mut i = from;
    proof {
        lemma_slash_index(v@.skip(from as int));
    }
    while i < v.len() && v[i] != '/'
        invariant
            from <= i <= v@.len(),
            slash_index(v@.skip(from as int)) == (i - from) + slash_index(v@.skip(i as int)),
        decreases v.len() - i,
    {
        assert(v@.skip(i as int).drop_first() =~= v@.skip(i + 1));
        i = i + 1;
    }
    proof {
        if i < v.len() {
            assert(v@.skip(i as int)[0] == v@[i as int]);
        }
    }
    i
}

/// The pieces of `v` between slashes.
pub fn pieces_of(v: &[char]) -> (r: Vec<Vec<char>>)
    ensures
        r@.map_values(|w: Vec<char>| w@) == pieces(v@),
        r@.len() >= 1,
{
    let mut r: Vec<Vec<char>> = Vec::new();
    let mut i: usize = 0;
    assert(v@.skip(0) =~= v@);
    loop
        invariant
            i <= v@.len(),
            pieces(v@) == r@.map_values(|w: Vec<char>| w@) + pieces(v@.skip(i as int)),
        decreases v@.len() - i,
    {
        let ghost rest = v@.skip(i as int);
        let k = slash_from(v, i);
        proof {
            lemma_slash_index(rest);
        }
        let ghost before = r@.map_values(|w: Vec<char>| w@);
        if k >= v.len() {
            let w = copy_range(v, i, v.len());
            assert(w@ =~= rest);
            r.push(w);
            assert(r@.map_values(|w: Vec<char>| w@) =~= before.push(rest));
            assert(pieces(v@) =~= r@.map_values(|w: Vec<char>| w@));
            return r;
        }
        let w = copy_range(v, i, k);
        assert(w@ =~= rest.take((k - i) as int));
        assert(rest.skip((k - i + 1) as int) =~= v@.skip(k + 1));
        r.push(w);
        assert(r@.map_values(|w: Vec<char>| w@) =~= before.push(w@));
        assert(before + pieces(rest) =~= r@.map_values(|w: Vec<char>| w@) + pieces(v@.skip(k + 1)));
        i = k + 1;
    }
}

/// The components of a path (`Path::components`).
pub fn components_of(s: &str) -> (r: Vec<PathComponent>)
    ensures
        comps_view(r@) == components(s@),
{
    let v = chars_of(s);
    let ps = pieces_of(&v);
    let ghost pv = ps@.map_values(|w: Vec<char>| w@);
    let mut r: Vec<PathComponent> = Vec::new();
    let dot: Vec<char> = vec!['.'];
    let dotdot: Vec<char> = vec!['.', '.'];
    assert(dot@ =~= seq!['.']);
    assert(dotdot@ =~= seq!['.', '.']);
    assert(pv[0] == ps@[0]@);
    if v.len() > 0 && v[0] == '/' {
        r.push(PathComponent::RootDir);
    } else if chars_eq(&ps[0], &dot) {
        r.push(PathComponent::CurDir);
    }
    let ghost lead = comps_view(r@);
    assert(pv.skip(0) =~= pv);
    let mut i: usize = 0;
    while i < ps.len()
        invariant
            i <= ps@.len() == pv.len(),
            pv == ps@.map_values(|w: Vec<char>| w@),
            dot@ == seq!['.'],
            dotdot@ == seq!['.', '.'],
            comps_view(r@) + normal_comps(pv.skip(i as int)) == lead + normal_comps(pv),
        decreases ps.len() - i,
    {
        let p = &ps[i];
        assert(pv[i as int] == p@);
        assert(pv.skip(i as int).drop_first() =~= pv.skip(i + 1));
        assert(pv.skip(i as int)[0] == p@);
        let ghost before = comps_view(r@);
        if p.len() == 0 || chars_eq(p, &dot) {
        } else if chars_eq(p, &dotdot) {
            r.push(PathComponent::ParentDir);
            assert(comps_view(r@) =~= before.push(Component::ParentDir));
        } else {
            let name = string_of(p);
            r.push(PathComponent::Normal(name));
            assert(comps_view(r@) =~= before.push(Component::Normal(p@)));
        }
        i = i + 1;
    }
    assert(pv.skip(ps@.len() as int) =~= Seq::<Seq<char>>::empty());
    assert(comps_view(r@) =~= lead + normal_comps(pv));
    r
}

fn comp_eq(a: &PathComponent, b: &PathComponent) -> (r: bool)
    ensures
        r == (comp_view(*a) == comp_view(*b)),
{
    match (a, b) {
        (PathComponent::RootDir, PathComponent::RootDir) => true,
        (PathComponent::CurDir, PathComponent::CurDir) => true,
        (PathComponent::ParentDir, PathComponent::ParentDir) => true,
        (PathComponent::Normal(x), PathComponent::Normal(y)) => {
            let xv = chars_of(x.as_str());
            let yv = chars_of(y.as_str());
            chars_eq(&xv, &yv)
        },
        _ => false,
    }
}

fn comps_prefix(a: &[PathComponent], b: &[PathComponent], exact: bool) -> (r: bool)
    ensures
        r == if exact {
            comps_view(a@) == comps_view(b@)
        } else {
            is_prefix(comps_view(a@), comps_view(b@))
        },
{
    let ghost av = comps_view(a@);
    let ghost bv = comps_view(b@);
    assert(av.len() == a@.len() && bv.len() == b@.len());
    if a.len() > b.len() || (exact && a.len() != b.len()) {
        assert(av.len() != bv.len());
        return false;
    }
    let mut i: usize = 0;
    while i < a.len()
        invariant
            a@.len() <= b@.len(),
            exact ==> a@.len() == b@.len(),
            i <= a@.len(),
            av == comps_view(a@),
            bv == comps_view(b@),
            forall|j: int| 0 <= j < i ==> av[j] == #[trigger] bv[j],
        decreases a.len() - i,
    {
        if !comp_eq(&a[i], &b[i]) {
            assert(av[i as int] != bv[i as int]);
            assert(bv.take(av.len() as int)[i as int] != av[i as int]);
            return false;
        }
        i = i + 1;
    }
    assert(bv.take(av.len() as int) =~= av);
    if exact {
        assert(av =~= bv);
    }
    true
}

/// Whether `path` starts with `base` component-wise (`Path::starts_with`).
pub fn starts_with_path(path: &str, base: &str) -> (r: bool)
    ensures
        r == path_starts_with(path@, base@),
{
    let pc = components_of(path);
    let bc = components_of(base);
    comps_prefix(&bc, &pc, false)
}

/// Whether two paths have the same components (`PathBuf` equality).
pub fn paths_equal(a: &str, b: &str) -> (r: bool)
    ensures
        r == same_path(a@, b@),
{
    let ac = components_of(a);
    let bc = components_of(b);
    comps_prefix(&ac, &bc, true)
}

fn comp_str(c: &PathComponent) -> (r: &str)
    ensures
        r@ == comp_text(comp_view(*c)),
{
    match c {
        PathComponent::RootDir => {
            proof {
                reveal_strlit("/");
            }
            "/"
        },
        PathComponent::CurDir => {
            proof {
                reveal_strlit(".");
            }
            "."
        },
        PathComponent::ParentDir => {
            proof {
                reveal_strlit("..");
            }
            ".."
        },
        PathComponent::Normal(n) => n.as_str(),
    }
}

/// The path built from the first `n` components of `cs`.
fn render_prefix(cs: &[PathComponent], n: usize) -> (r: String)
    requires
        n <= cs@.len(),
    ensures
        r@ == render(comps_view(cs@).take(n as int)),
{
    let mut out = String::new();
    let mut i: usize = 0;
    assert(comps_view(cs@).take(0) =~= Seq::<Component>::empty());
    while i < n
        invariant
            i <= n <= cs@.len(),
            out@ == render(comps_view(cs@).take(i as int)),
        decreases n - i,
    {
        let ghost t = comps_view(cs@).take(i + 1);
        assert(t.drop_last() =~= comps_view(cs@).take(i as int));
        assert(t.last() == comp_view(cs@[i as int]));
        out = join_path(out.as_str(), comp_str(&cs[i]));
        i = i + 1;
    }
    out
}

/// The parent of a path (`Path::parent`), rendered from its components.
pub fn parent_of(s: &str) -> (r: Option<String>)
    ensures
        match parent_path(s@) {
            Some(p) => r matches Some(x) && x@ == p,
            None => r is None,
        },
{
    let cs = components_of(s);
    if cs.len() == 0 {
        return None;
    }
    if let PathComponent::RootDir = &cs[cs.len() - 1] {
        return None;
    }
    let p = render_prefix(&cs, cs.len() - 1);
    assert(comps_view(cs@).take(cs@.len() - 1) =~= comps_view(cs@).drop_last());
    Some(p)
}

/// The final component's name when it is a normal name (`Path::file_name`).
pub fn file_name_of(s: &str) -> (r: Option<String>)
    ensures
        match file_name(s@) {
            Some(n) => r matches Some(x) && x@ == n,
            None => r is None,
        },
{
    let cs = components_of(s);
    if cs.len() == 0 {
        return None;
    }
    match &cs[cs.len() - 1] {
        PathComponent::Normal(n) => Some(n.clone()),
        _ => None,
    }
}

// ---------------------------------------------------------------------------
// Lemmas on components
// ---------------------------------------------------------------------------

/// No piece contains a slash.
pub proof fn lemma_pieces_no_slash(s: Seq<char>)
    ensures
        forall|i: int, j: int|
            0 <= i < pieces(s).len() && 0 <= j < pieces(s)[i].len() ==> #[trigger] pieces(s)[i][j]
                != '/',
        pieces(s).len() >= 1,
    decreases s.len(),
{
    lemma_slash_index(s);
    let k = slash_index(s);
    if k < s.len() {
        lemma_pieces_no_slash(s.skip((k + 1) as int));
        let ps = pieces(s);
        assert forall|i: int, j: int| 0 <= i < ps.len() && 0 <= j < ps[i].len() implies #[trigger] ps[i][j] != '/' by {
            if i == 0 {
                assert(ps[0] == s.take(k as int));
                assert(s.take(k as int)[j] == s[j]);
            } else {
                assert(ps[i] == pieces(s.skip((k + 1) as int))[i - 1]);
            }
        }
    } else {
        let ps = pieces(s);
        assert forall|i: int, j: int| 0 <= i < ps.len() && 0 <= j < ps[i].len() implies #[trigger] ps[i][j] != '/' by {
            assert(ps[i] == s);
        }
    }
}

/// A text without slashes is one piece.
pub proof fn lemma_pieces_single(n: Seq<char>)
    requires
        forall|j: int| 0 <= j < n.len() ==> #[trigger] n[j] != '/',
    ensures
        pieces(n) == seq![n],
{
    lemma_slash_index(n);
    if slash_index(n) < n.len() {
        assert(n[slash_index(n) as int] == '/');
    }
}

/// Joining two texts with a slash concatenates their pieces.
pub proof fn lemma_pieces_concat(a: Seq<char>, b: Seq<char>)
    ensures
        pieces(a + seq!['/'] + b) == pieces(a) + pieces(b),
    decreases a.len(),
{
    let s = a + seq!['/'] + b;
    lemma_slash_index(a);
    lemma_slash_index(s);
    let k = slash_index(a);
    if k < a.len() {
        assert(s[k as int] == '/');
        if slash_index(s) < k {
            assert(s[slash_index(s) as int] == a[slash_index(s) as int]);
        }
        assert(slash_index(s) == k);
        assert(s.take(k as int) =~= a.take(k as int));
        assert(s.skip((k + 1) as int) =~= a.skip((k + 1) as int) + seq!['/'] + b);
        lemma_pieces_concat(a.skip((k + 1) as int), b);
        assert(pieces(s) =~= pieces(a) + pieces(b));
    } else {
        assert(s[a.len() as int] == '/');
        if slash_index(s) < a.len() {
            assert(s[slash_index(s) as int] == a[slash_index(s) as int]);
        }
        assert(slash_index(s) == a.len());
        assert(s.take(a.len() as int) =~= a);
        assert(s.skip((a.len() + 1) as int) =~= b);
        assert(pieces(a) == seq![a]);
        assert(pieces(s) =~= pieces(a) + pieces(b));
    }
}

/// The components named by concatenated pieces.
pub proof fn lemma_normal_comps_concat(x: Seq<Seq<char>>, y: Seq<Seq<char>>)
    ensures
        normal_comps(x + y) == normal_comps(x) + normal_comps(y),
    decreases x.len(),
{
    if x.len() == 0 {
        assert(x + y =~= y);
    } else {
        assert((x + y).drop_first() =~= x.drop_first() + y);
        assert((x + y)[0] == x[0]);
        lemma_normal_comps_concat(x.drop_first(), y);
        assert(normal_comps(x + y) =~= normal_comps(x) + normal_comps(y));
    }
}

/// Joining a relative path onto an absolute one appends the relative path's
/// named components.
pub proof fn lemma_components_join(a: Seq<char>, b: Seq<char>)
    requires
        a.len() > 0,
        a[0] == '/',
        !(b.len() > 0 && b[0] == '/'),
    ensures
        components(path_join(a, b)) == components(a) + normal_comps(pieces(b)),
{
    let j = path_join(a, b);
    if a.last() == '/' {
        let a1 = a.drop_last();
        assert(a1 + seq!['/'] =~= a);
        assert(j =~= a1 + seq!['/'] + b);
        lemma_pieces_concat(a1, b);
        assert(a1 + seq!['/'] + Seq::<char>::empty() =~= a);
        lemma_pieces_concat(a1, Seq::<char>::empty());
        assert(pieces(Seq::<char>::empty()) == seq![Seq::<char>::empty()]) by {
            lemma_slash_index(Seq::<char>::empty());
        }
        lemma_normal_comps_concat(pieces(a1), pieces(b));
        lemma_normal_comps_concat(pieces(a1), seq![Seq::<char>::empty()]);
        assert(normal_comps(seq![Seq::<char>::empty()]) =~= Seq::<Component>::empty()) by {
            assert(seq![Seq::<char>::empty()].drop_first() =~= Seq::<Seq<char>>::empty());
            assert(normal_comps(Seq::<Seq<char>>::empty()) =~= Seq::<Component>::empty());
            assert(seq![Seq::<char>::empty()][0].len() == 0);
        }
        assert(j[0] == '/');
        assert(components(j) =~= components(a) + normal_comps(pieces(b)));
    } else {
        assert(j =~= a + seq!['/'] + b);
        lemma_pieces_concat(a, b);
        lemma_normal_comps_concat(pieces(a), pieces(b));
        assert(j[0] == '/');
        assert(components(j) =~= components(a) + normal_comps(pieces(b)));
    }
}

/// Every normal name among the components of a path is a non-empty piece
/// without slashes, other than `.` and `..`.
pub open spec fn plain_name(n: Seq<char>) -> bool {
    &&& n.len() > 0
    &&& n != seq!['.']
    &&& n != seq!['.', '.']
    &&& forall|j: int| 0 <= j < n.len() ==> #[trigger] n[j] != '/'
}

proof fn lemma_normal_comps_plain(ps: Seq<Seq<char>>)
    requires
        forall|i: int, j: int| 0 <= i < ps.len() && 0 <= j < ps[i].len() ==> #[trigger] ps[i][j] != '/',
    ensures
        forall|i: int| 0 <= i < normal_comps(ps).len() && (#[trigger] normal_comps(ps)[i]) is Normal
            ==> plain_name(normal_comps(ps)[i]->Normal_0),
    decreases ps.len(),
{
    if ps.len() > 0 {
        let t = ps.drop_first();
        assert forall|i: int, j: int| 0 <= i < t.len() && 0 <= j < t[i].len() implies #[trigger] t[i][j] != '/' by {
            assert(t[i] == ps[i + 1]);
        }
        lemma_normal_comps_plain(t);
        let p = ps[0];
        assert forall|j: int| 0 <= j < p.len() implies #[trigger] p[j] != '/' by {
            assert(ps[0][j] != '/');
        }
    }
}

/// The components of a path name its pieces.
pub proof fn lemma_components_plain(s: Seq<char>)
    ensures
        forall|i: int| 0 <= i < components(s).len() && (#[trigger] components(s)[i]) is Normal
            ==> plain_name(components(s)[i]->Normal_0),
{
    lemma_pieces_no_slash(s);
    lemma_normal_comps_plain(pieces(s));
    let ps = pieces(s);
    let lead: Seq<Component> = if s.len() > 0 && s[0] == '/' {
        seq![Component::RootDir]
    } else if ps[0] == seq!['.'] {
        seq![Component::CurDir]
    } else {
        seq![]
    };
    assert forall|i: int| 0 <= i < components(s).len() && (#[trigger] components(s)[i]) is Normal implies plain_name(
        components(s)[i]->Normal_0,
    ) by {
        if i >= lead.len() {
            assert(components(s)[i] == normal_comps(ps)[i - lead.len()]);
        }
    }
}

/// Joining a plain name onto an absolute path appends one normal component.
pub proof fn lemma_components_join_name(a: Seq<char>, n: Seq<char>)
    requires
        a.len() > 0,
        a[0] == '/',
        plain_name(n),
    ensures
        components(path_join(a, n)) == components(a).push(Component::Normal(n)),
{
    lemma_components_join(a, n);
    lemma_pieces_single(n);
    assert(seq![n].drop_first() =~= Seq::<Seq<char>>::empty());
    assert(normal_comps(Seq::<Seq<char>>::empty()) =~= Seq::<Component>::empty());
    assert(seq![n][0] == n);
    assert(normal_comps(seq![n]) =~= seq![Component::Normal(n)]);
    assert(components(a) + seq![Component::Normal(n)] =~= components(a).push(Component::Normal(n)));
}

/// A path whose components begin with the root component is absolute.
pub proof fn lemma_rooted_is_absolute(s: Seq<char>)
    requires
        components(s).len() > 0,
        components(s)[0] is RootDir,
    ensures
        s.len() > 0 && s[0] == '/',
{
    let ps = pieces(s);
    lemma_pieces_no_slash(s);
    if !(s.len() > 0 && s[0] == '/') {
        lemma_normal_comps_never_root(ps);
        if ps[0] == seq!['.'] {
            assert(components(s)[0] is CurDir);
        } else {
            assert(components(s)[0] == normal_comps(ps)[0]);
        }
    }
}

proof fn lemma_normal_comps_never_root(ps: Seq<Seq<char>>)
    ensures
        forall|i: int| 0 <= i < normal_comps(ps).len() ==> !(#[trigger] normal_comps(ps)[i] is RootDir),
    decreases ps.len(),
{
    if ps.len() > 0 {
        lemma_normal_comps_never_root(ps.drop_first());
    }
}

} // verus!
