//! The tree of mounted controllers. The controller at the deepest mount on the
//! way of a path takes the request.

use crate::controller::RouteDef;
use crate::routing::sub_strings;
use crate::text::chars_of;
use crate::text::join;
use crate::text::join_strings;
use crate::text::lemma_text_less_irreflexive;
use crate::text::lemma_text_less_total;
use crate::text::lemma_text_less_transitive;
use crate::text::split;
use crate::text::split_str;
use crate::text::str_eq;
use crate::text::str_less;
use crate::text::string_of;
use crate::text::text_less;
use crate::text::trim_char;
use crate::text::trim_char_chars;
use crate::text::trim_char_end;
use crate::text::trim_char_start;
use crate::text::views;
use vstd::prelude::*;

verus! {

/// The segments of a mount or of a request.
pub type Path = Seq<Seq<char>>;

/// A controller as the router knows it: the handle by which it is called, and
/// what it declares.
#[derive(Debug)]
pub struct Mounted<C> {
    /// The handle by which the controller is called.
    pub handle: C,
    /// The name of the controller.
    pub name: &'static str,
    /// The routes that it declares, in order.
    pub routes: Vec<RouteDef>,
    /// The largest body that it takes, in bytes, if it says so.
    pub max_body_bytes: Option<usize>,
    /// The rate-limit class that it declares.
    pub rate_limit: Option<&'static str>,
}

/// A node of the tree: a controller, where one is mounted, and the nodes one
/// segment further down, in the order of their segments.
struct RouteNode<C> {
    children: Vec<(String, RouteNode<C>)>,
    controller: Option<Mounted<C>>,
}

/// The node below `children` for a segment.
spec fn child<C>(children: Seq<(String, RouteNode<C>)>, segment: Seq<char>) -> Option<RouteNode<C>> {
    if exists|i: int| 0 <= i < children.len() && (#[trigger] children[i]).0@ == segment {
        let i = choose|i: int| 0 <= i < children.len() && (#[trigger] children[i]).0@ == segment;
        Some(children[i].1)
    } else {
        None
    }
}

/// The controller that is mounted exactly at a path.
spec fn lookup<C>(node: RouteNode<C>, path: Path) -> Option<Mounted<C>>
    decreases path.len(),
{
    if path.len() == 0 {
        node.controller
    } else {
        match child(node.children@, path[0]) {
            Some(c) => lookup(c, path.skip(1)),
            None => None,
        }
    }
}

/// The segments of the children, each before the next.
spec fn children_ascend<C>(children: Seq<(String, RouteNode<C>)>) -> bool {
    forall|i: int, j: int|
        0 <= i < j < children.len() ==> text_less(
            (#[trigger] children[i]).0@,
            (#[trigger] children[j]).0@,
        )
}

impl<C> RouteNode<C> {
    spec fn well_formed(self) -> bool
        decreases self,
    {
        &&& children_ascend(self.children@)
        &&& forall|i: int|
            0 <= i < self.children@.len() ==> (#[trigger] self.children@[i]).1.well_formed()
    }

    /// The controllers of the tree by the path of their mount.
    spec fn mounts(self) -> Map<Path, Mounted<C>> {
        Map::new(|p: Path| lookup(self, p) is Some, |p: Path| lookup(self, p)->0)
    }
}

/// Where a segment stands among the children.
proof fn lemma_child_at<C>(children: Seq<(String, RouteNode<C>)>, i: int)
    requires
        children_ascend(children),
        0 <= i < children.len(),
    ensures
        child(children, children[i].0@) == Some(children[i].1),
{
    let segment = children[i].0@;
    let j = choose|j: int| 0 <= j < children.len() && (#[trigger] children[j]).0@ == segment;
    lemma_text_less_irreflexive(segment);
    assert(children[i].0@ == segment);
    if i < j {
        assert(text_less(children[i].0@, children[j].0@));
    }
    if j < i {
        assert(text_less(children[j].0@, children[i].0@));
    }
}

/// The first child whose segment is not before `segment`, and whether it is
/// that of `segment`.
fn position<C>(children: &Vec<(String, RouteNode<C>)>, segment: &str) -> (r: (usize, bool))
    requires
        children_ascend(children@),
    ensures
        r.0 <= children@.len(),
        r.1 ==> r.0 < children@.len() && children@[r.0 as int].0@ == segment@,
        !r.1 ==> forall|j: int| 0 <= j < children@.len() ==> (#[trigger] children@[j]).0@ != segment@,
        forall|j: int| 0 <= j < r.0 ==> text_less((#[trigger] children@[j]).0@, segment@),
        !r.1 ==> forall|j: int|
            r.0 <= j < children@.len() ==> text_less(segment@, (#[trigger] children@[j]).0@),
{
    let mut i: usize = 0;
    while i < children.len() && str_less(children[i].0.as_str(), segment)
        invariant
            i <= children@.len(),
            forall|j: int| 0 <= j < i ==> text_less((#[trigger] children@[j]).0@, segment@),
        decreases children.len() - i,
    {
        i = i + 1;
    }
    proof {
        assert forall|j: int| 0 <= j < i implies (#[trigger] children@[j]).0@ != segment@ by {
            lemma_text_less_irreflexive(segment@);
        }
        if i < children@.len() {
            lemma_text_less_total(children@[i as int].0@, segment@);
            assert forall|j: int| i < j < children@.len() implies text_less(
                children@[i as int].0@,
                (#[trigger] children@[j]).0@,
            ) by {}
            if children@[i as int].0@ != segment@ {
                assert forall|j: int| i <= j < children@.len() implies text_less(
                    segment@,
                    (#[trigger] children@[j]).0@,
                ) by {
                    if i < j {
                        lemma_text_less_transitive(
                            segment@,
                            children@[i as int].0@,
                            children@[j].0@,
                        );
                    }
                }
                assert forall|j: int| i <= j < children@.len() implies (#[trigger] children@[j]).0@
                    != segment@ by {
                    lemma_text_less_irreflexive(segment@);
                }
            }
        }
    }
    if i < children.len() && str_eq(children[i].0.as_str(), segment) {
        (i, true)
    } else {
        (i, false)
    }
}

/// Mounts a controller below a node, at the segments from `at` on.
fn mount_below<C>(
    node: RouteNode<C>,
    segments: &[String],
    at: usize,
    controller: Mounted<C>,
) -> (r: RouteNode<C>)
    requires
        at <= segments@.len(),
        node.well_formed(),
    ensures
        r.well_formed(),
        forall|p: Path|
            #[trigger] lookup(r, p) == if p == views(segments@).skip(at as int) {
                Some(controller)
            } else {
                lookup(node, p)
            },
    decreases segments@.len() - at,
{
    let ghost goal = views(segments@).skip(at as int);
    let ghost before = node.children@;
    let RouteNode { children, controller: own } = node;
    if at == segments.len() {
        let r = RouteNode { children, controller: Some(controller) };
        assert(goal =~= Seq::<Seq<char>>::empty());
        assert forall|p: Path|
            #[trigger] lookup(r, p) == if p == goal {
                Some(controller)
            } else {
                lookup(node, p)
            } by {
            if p.len() == 0 {
                assert(p =~= goal);
            }
        }
        return r;
    }
    let ghost segment = segments@[at as int]@;
    assert(goal[0] == segment);
    assert(goal.skip(1) == views(segments@).skip(at as int + 1));
    let mut children = children;
    let (i, found) = position(&children, segments[at].as_str());
    let ghost below: RouteNode<C>;
    let inner = if found {
        let (_, inner) = children.remove(i);
        proof {
            lemma_child_at(before, i as int);
            below = inner;
        }
        inner
    } else {
        let inner = RouteNode { children: Vec::new(), controller: None };
        proof {
            below = inner;
            assert forall|p: Path| (#[trigger] lookup(below, p)) is None by {}
            assert(child(before, segment) is None);
        }
        inner
    };
    assert(below.well_formed());
    let inner = mount_below(inner, segments, at + 1, controller);
    let name = segments[at].clone();
    children.insert(i, (name, inner));
    let r = RouteNode { children, controller: own };
    proof {
        let after = r.children@;
        if found {
            assert(after =~= before.update(i as int, (name, inner)));
            assert forall|x: int, y: int| 0 <= x < y < after.len() implies text_less(
                (#[trigger] after[x]).0@,
                (#[trigger] after[y]).0@,
            ) by {
                assert(after[x].0@ == before[x].0@ && after[y].0@ == before[y].0@);
                assert(text_less(before[x].0@, before[y].0@));
            }
            assert forall|j: int| 0 <= j < after.len() implies (
            #[trigger] after[j]).1.well_formed() by {
                assert(before[j].1.well_formed());
            }
        } else {
            assert(after =~= before.insert(i as int, (name, inner)));
            assert forall|x: int, y: int| 0 <= x < y < after.len() implies text_less(
                (#[trigger] after[x]).0@,
                (#[trigger] after[y]).0@,
            ) by {
                let bx = if x < i { x } else { x - 1 };
                let by = if y < i { y } else { y - 1 };
                if x != i {
                    assert(after[x] == before[bx]);
                }
                if y != i {
                    assert(after[y] == before[by]);
                }
                if x != i && y != i {
                    assert(text_less(before[bx].0@, before[by].0@));
                }
            }
            assert forall|j: int| 0 <= j < after.len() implies (
            #[trigger] after[j]).1.well_formed() by {
                if j < i {
                    assert(after[j] == before[j]);
                    assert(before[j].1.well_formed());
                } else if j > i {
                    assert(after[j] == before[j - 1]);
                    assert(before[j - 1].1.well_formed());
                }
            }
        }
        lemma_child_at(after, i as int);
        assert forall|s: Seq<char>| s != segment implies #[trigger] child(after, s) == child(
            before,
            s,
        ) by {
            if exists|j: int| 0 <= j < before.len() && (#[trigger] before[j]).0@ == s {
                let j = choose|j: int| 0 <= j < before.len() && (#[trigger] before[j]).0@ == s;
                lemma_child_at(before, j);
                let k = if found || j < i { j } else { j + 1 };
                assert(after[k] == before[j]);
                lemma_child_at(after, k);
            } else {
                assert forall|j: int| 0 <= j < after.len() implies (#[trigger] after[j]).0@
                    != s by {
                    if found {
                        assert(before[j].0@ != s);
                    } else if j < i {
                        assert(after[j] == before[j]);
                    } else if j > i {
                        assert(after[j] == before[j - 1]);
                    }
                }
            }
        }
        assert forall|p: Path|
            #[trigger] lookup(r, p) == if p == goal {
                Some(controller)
            } else {
                lookup(node, p)
            } by {
            if p.len() > 0 {
                if p[0] == segment {
                    assert(lookup(r, p) == lookup(inner, p.skip(1)));
                    assert(p =~= seq![p[0]] + p.skip(1));
                    assert(goal =~= seq![goal[0]] + goal.skip(1));
                    if !found {
                        assert(lookup(below, p.skip(1)) is None);
                    }
                } else {
                    assert(p != goal);
                }
            }
        }
    }
    r
}

// ---------------------------------------------------------------------------
// Where a controller is mounted
// ---------------------------------------------------------------------------

/// The segments at which a route mounts its controller. A last segment `*`
/// stands for the mount in front of it; a `*` elsewhere mounts nothing.
pub open spec fn mount_segments(path: Seq<char>) -> Option<Path> {
    let trimmed = trim_char(path, '/');
    let parts = if trimmed.len() == 0 {
        Seq::<Seq<char>>::empty()
    } else {
        split(trimmed, '/')
    };
    let head = if parts.len() > 0 && parts.last() == "*"@ {
        parts.drop_last()
    } else {
        parts
    };
    if head.contains("*"@) {
        None
    } else {
        Some(head)
    }
}

/// Whether `text` is one of the strings.
fn has_text(v: &[String], text: &str) -> (r: bool)
    ensures
        r == views(v@).contains(text@),
{
    let mut i: usize = 0;
    while i < v.len()
        invariant
            i <= v@.len(),
            forall|j: int| 0 <= j < i ==> (#[trigger] views(v@)[j]) != text@,
        decreases v.len() - i,
    {
        if str_eq(v[i].as_str(), text) {
            assert(views(v@)[i as int] == text@);
            return true;
        }
        i = i + 1;
    }
    false
}

/// The segments at which a route mounts its controller, if it does.
pub fn mount_point(path: &str) -> (r: Option<Vec<String>>)
    ensures
        match r {
            Some(v) => mount_segments(path@) == Some(views(v@)),
            None => mount_segments(path@) is None,
        },
{
    let trimmed = trim_char_chars(&chars_of(path), '/');
    let mut parts: Vec<String> = Vec::new();
    if trimmed.len() > 0 {
        parts = split_str(string_of(&trimmed).as_str(), '/');
    } else {
        assert(views(parts@) =~= Seq::<Seq<char>>::empty());
    }
    let n: usize = parts.len();
    if n > 0 && str_eq(parts[n - 1].as_str(), "*") {
        let ghost all = parts@;
        parts.pop();
        assert(views(parts@) =~= views(all).drop_last());
    }
    if has_text(&parts, "*") {
        None
    } else {
        Some(parts)
    }
}

/// Builds a router, mount by mount.
pub struct RouterBuilder<C> {
    root: RouteNode<C>,
}

impl<C> View for RouterBuilder<C> {
    type V = Map<Path, Mounted<C>>;

    closed spec fn view(&self) -> Map<Path, Mounted<C>> {
        self.root.mounts()
    }
}

impl<C> RouterBuilder<C> {
    #[verifier::type_invariant]
    spec fn tree_is_well_formed(self) -> bool {
        self.root.well_formed()
    }

    /// A builder without mounts.
    pub fn new() -> (r: Self)
        ensures
            r@ == Map::<Path, Mounted<C>>::empty(),
    {
        let r = RouterBuilder { root: RouteNode { children: Vec::new(), controller: None } };
        assert(r@ =~= Map::<Path, Mounted<C>>::empty());
        r
    }

    /// Mounts a controller. A controller that was mounted at the same segments
    /// is replaced.
    pub fn add_route(self, path: &str, controller: Mounted<C>) -> (r: Self)
        ensures
            r@ == match mount_segments(path@) {
                Some(segments) => self@.insert(segments, controller),
                None => self@,
            },
    {
        proof {
            use_type_invariant(&self);
        }
        match mount_point(path) {
            Some(segments) => {
                let ghost at = views(segments@);
                assert(at.skip(0) =~= at);
                let ghost before = self.root;
                let root = mount_below(self.root, &segments, 0, controller);
                assert(root.mounts() =~= before.mounts().insert(at, controller));
                RouterBuilder { root }
            },
            None => self,
        }
    }

    /// The router with these mounts.
    pub fn build(self) -> (r: Router<C>)
        ensures
            r@ == self@,
    {
        proof {
            use_type_invariant(&self);
        }
        Router { root: self.root }
    }
}

impl<C> Default for RouterBuilder<C> {
    fn default() -> (r: Self)
        ensures
            r@ == Map::<Path, Mounted<C>>::empty(),
    {
        Self::new()
    }
}

/// A router: controllers by the path at which they are mounted.
pub struct Router<C> {
    root: RouteNode<C>,
}

impl<C> View for Router<C> {
    type V = Map<Path, Mounted<C>>;

    closed spec fn view(&self) -> Map<Path, Mounted<C>> {
        self.root.mounts()
    }
}

/// What a path comes to: the controller, and the path below its mount.
pub struct RouteMatch<'a, C> {
    /// The controller at the deepest mount.
    pub controller: &'a Mounted<C>,
    /// The segments below the mount, joined with slashes.
    pub action: String,
}

/// How many of the first `k` segments of a path the deepest mount among them
/// takes.
pub open spec fn deepest<C>(mounts: Map<Path, Mounted<C>>, path: Path, k: int) -> Option<int>
    decreases k + 1,
{
    if k < 0 {
        None
    } else if mounts.contains_key(path.take(k)) {
        Some(k)
    } else {
        deepest(mounts, path, k - 1)
    }
}

/// What a path comes to: the controller at the deepest mount on its way, and
/// the rest of the path.
pub open spec fn routed<C>(mounts: Map<Path, Mounted<C>>, path: Path) -> Option<
    (Mounted<C>, Seq<char>),
> {
    match deepest(mounts, path, path.len() as int) {
        Some(k) => Some((mounts[path.take(k)], join(path.skip(k), "/"@))),
        None => None,
    }
}

impl<C> Router<C> {
    #[verifier::type_invariant]
    spec fn tree_is_well_formed(self) -> bool {
        self.root.well_formed()
    }

    /// The controller of a path, and the path below its mount. None where no
    /// mount lies on the way.
    pub fn match_controller(&self, path_parts: &[String]) -> (r: Option<RouteMatch<'_, C>>)
        ensures
            match r {
                Some(m) => routed(self@, views(path_parts@)) == Some((*m.controller, m.action@)),
                None => routed(self@, views(path_parts@)) is None,
            },
    {
        proof {
            use_type_invariant(self);
        }
        let ghost path = views(path_parts@);
        let ghost mounts = self@;
        let mut node: &RouteNode<C> = &self.root;
        let mut best: Option<(&Mounted<C>, usize)> = None;
        assert(path.take(0) =~= Seq::<Seq<char>>::empty());
        if let Some(controller) = &node.controller {
            best = Some((controller, 0));
        }
        assert forall|q: Path| #[trigger]
            lookup(self.root, path.take(0) + q) == lookup(*node, q) by {
            assert(path.take(0) + q =~= q);
        }
        let mut i: usize = 0;
        proof {
            assert(deepest(mounts, path, -1) is None);
            assert(mounts.contains_key(path.take(0)) <==> node.controller is Some);
        }
        while i < path_parts.len()
            invariant_except_break
                i <= path_parts@.len(),
                path == views(path_parts@),
                mounts == self.root.mounts(),
                node.well_formed(),
                forall|q: Path| #[trigger]
                    lookup(self.root, path.take(i as int) + q) == lookup(*node, q),
                found(mounts, path, best, i as int),
            ensures
                path == views(path_parts@),
                mounts == self.root.mounts(),
                found(mounts, path, best, path.len() as int),
            decreases path_parts.len() - i,
        {
            let ghost segment = path[i as int];
            let (at, here) = position(&node.children, path_parts[i].as_str());
            if !here {
                proof {
                    assert(child(node.children@, segment) is None);
                    assert forall|k: int| i < k <= path.len() implies !mounts.contains_key(
                        #[trigger] path.take(k),
                    ) by {
                        let q = path.subrange(i as int, k);
                        assert(path.take(k) =~= path.take(i as int) + q);
                        assert(q[0] == segment);
                        assert(lookup(*node, q) is None);
                    }
                    lemma_deepest_stays(mounts, path, i as int, path.len() as int);
                }
                break;
            }
            proof {
                lemma_child_at(node.children@, at as int);
                assert(node.children@[at as int].1.well_formed());
                let next = node.children@[at as int].1;
                assert forall|q: Path| #[trigger]
                    lookup(self.root, path.take(i as int + 1) + q) == lookup(next, q) by {
                    let longer = seq![segment] + q;
                    assert(path.take(i as int + 1) + q =~= path.take(i as int) + longer);
                    assert(lookup(*node, longer) == lookup(next, longer.skip(1)));
                    assert(longer.skip(1) =~= q);
                }
                let none = Seq::<Seq<char>>::empty();
                assert(path.take(i as int + 1) + none =~= path.take(i as int + 1));
                assert(lookup(self.root, path.take(i as int + 1)) == next.controller);
            }
            node = &node.children[at].1;
            if let Some(controller) = &node.controller {
                best = Some((controller, i + 1));
            }
            i = i + 1;
        }
        match best {
            Some((controller, k)) => {
                let rest = sub_strings(path_parts, k);
                let action = join_strings(&rest, "/");
                Some(RouteMatch { controller, action })
            },
            None => None,
        }
    }
}

/// Whether `best` is the deepest mount among the first `k` segments.
spec fn found<C>(
    mounts: Map<Path, Mounted<C>>,
    path: Path,
    best: Option<(&Mounted<C>, usize)>,
    k: int,
) -> bool {
    match best {
        Some((controller, n)) => {
            &&& deepest(mounts, path, k) == Some(n as int)
            &&& n <= path.len()
            &&& mounts[path.take(n as int)] == *controller
        },
        None => deepest(mounts, path, k) is None,
    }
}

proof fn lemma_deepest_stays<C>(mounts: Map<Path, Mounted<C>>, path: Path, i: int, k: int)
    requires
        0 <= i <= k <= path.len(),
        forall|j: int| i < j <= path.len() ==> !mounts.contains_key(#[trigger] path.take(j)),
    ensures
        deepest(mounts, path, k) == deepest(mounts, path, i),
    decreases k,
{
    if i < k {
        lemma_deepest_stays(mounts, path, i, k - 1);
    }
}

// ---------------------------------------------------------------------------
// Walking the tree
// ---------------------------------------------------------------------------

/// Whether `a` stands before `b`: segment by segment, a path before those that
/// go on below it.
pub open spec fn path_less(a: Path, b: Path) -> bool
    decreases a.len(),
{
    if b.len() == 0 {
        false
    } else if a.len() == 0 {
        true
    } else if a[0] != b[0] {
        text_less(a[0], b[0])
    } else {
        path_less(a.skip(1), b.skip(1))
    }
}

/// Whether each path stands before the next ones.
pub open spec fn paths_ascend(paths: Seq<Path>) -> bool {
    forall|i: int, j: int|
        0 <= i < j < paths.len() ==> path_less(#[trigger] paths[i], #[trigger] paths[j])
}

/// Whether `paths` are the keys of `mounts`, in order.
pub open spec fn lists_mounts<C>(paths: Seq<Path>, mounts: Map<Path, Mounted<C>>) -> bool {
    &&& paths_ascend(paths)
    &&& forall|p: Path| paths.contains(p) <==> #[trigger] mounts.contains_key(p)
}

proof fn lemma_path_less_behind(front: Path, a: Path, b: Path)
    ensures
        path_less(front + a, front + b) == path_less(a, b),
    decreases front.len(),
{
    if front.len() == 0 {
        assert(front + a =~= a);
        assert(front + b =~= b);
    } else {
        lemma_path_less_behind(front.skip(1), a, b);
        assert((front + a).skip(1) =~= front.skip(1) + a);
        assert((front + b).skip(1) =~= front.skip(1) + b);
    }
}

/// The row of the controller that is mounted at a node.
spec fn own_row<C>(node: RouteNode<C>, prefix: Path) -> Seq<(Path, Mounted<C>)> {
    match node.controller {
        Some(c) => seq![(prefix, c)],
        None => Seq::empty(),
    }
}

/// The mounts of a tree by a walk: the node itself, then what lies below it,
/// child by child.
spec fn walk<C>(node: RouteNode<C>, prefix: Path) -> Seq<(Path, Mounted<C>)>
    decreases node, node.children@.len() + 1,
{
    own_row(node, prefix) + walk_children(node, prefix, node.children@.len())
}

spec fn walk_children<C>(node: RouteNode<C>, prefix: Path, n: nat) -> Seq<(Path, Mounted<C>)>
    decreases node, n,
{
    if n == 0 || n > node.children@.len() {
        Seq::empty()
    } else {
        walk_children(node, prefix, (n - 1) as nat) + walk(
            node.children@[n - 1].1,
            prefix.push(node.children@[n - 1].0@),
        )
    }
}

/// Whether a row of a walk comes from the path `below` under the node.
spec fn row_from<C>(row: (Path, Mounted<C>), node: RouteNode<C>, prefix: Path, below: Path) -> bool {
    row.0 == prefix + below && lookup(node, below) == Some(row.1)
}

/// Whether a row comes from somewhere in the tree.
spec fn row_of_tree<C>(row: (Path, Mounted<C>), node: RouteNode<C>, prefix: Path) -> bool {
    exists|below: Path| row_from(row, node, prefix, below)
}

/// Whether a row comes from below the child `c`.
spec fn row_below<C>(
    row: (Path, Mounted<C>),
    node: RouteNode<C>,
    prefix: Path,
    c: int,
    below: Path,
) -> bool {
    row_from(row, node, prefix, below) && below.len() > 0 && below[0] == node.children@[c].0@
}

/// Whether a row comes from below one of the first `n` children.
spec fn row_of_children<C>(row: (Path, Mounted<C>), node: RouteNode<C>, prefix: Path, n: nat) -> bool {
    exists|c: int, below: Path| 0 <= c < n && row_below(row, node, prefix, c, below)
}

/// Whether a list of rows holds the mount at a path under the node.
spec fn has_row<C>(
    rows: Seq<(Path, Mounted<C>)>,
    node: RouteNode<C>,
    prefix: Path,
    below: Path,
) -> bool {
    exists|i: int| 0 <= i < rows.len() && row_from(#[trigger] rows[i], node, prefix, below)
}

/// Whether the path of each row stands before those of the next ones.
spec fn rows_ascend<C>(rows: Seq<(Path, Mounted<C>)>) -> bool {
    forall|i: int, j: int|
        0 <= i < j < rows.len() ==> path_less((#[trigger] rows[i]).0, (#[trigger] rows[j]).0)
}

/// The rows of a walk are the mounts of the tree, in order.
proof fn lemma_walk<C>(node: RouteNode<C>, prefix: Path)
    requires
        node.well_formed(),
    ensures
        forall|i: int|
            0 <= i < walk(node, prefix).len() ==> row_of_tree(
                #[trigger] walk(node, prefix)[i],
                node,
                prefix,
            ),
        forall|below: Path|
            (#[trigger] lookup(node, below)) is Some ==> has_row(
                walk(node, prefix),
                node,
                prefix,
                below,
            ),
        rows_ascend(walk(node, prefix)),
    decreases node, node.children@.len() + 1,
{
    let n = node.children@.len();
    let rest = walk_children(node, prefix, n);
    let rows = walk(node, prefix);
    let none = Seq::<Seq<char>>::empty();
    lemma_walk_children(node, prefix, n);
    let k: int = if node.controller is Some {
        1
    } else {
        0
    };
    assert(rows.len() == rest.len() + k);
    assert forall|i: int| k <= i < rows.len() implies #[trigger] rows[i] == rest[i - k] by {}
    assert(prefix + none =~= prefix);
    assert forall|i: int| 0 <= i < rows.len() implies row_of_tree(
        #[trigger] rows[i],
        node,
        prefix,
    ) by {
        if i < k {
            assert(row_from(rows[i], node, prefix, none));
        } else {
            assert(row_of_children(rest[i - k], node, prefix, n));
            let row = rows[i];
            let (c, below) = choose|c: int, below: Path|
                0 <= c < n && row_below(row, node, prefix, c, below);
            assert(row_from(row, node, prefix, below));
        }
    }
    assert forall|below: Path| (#[trigger] lookup(node, below)) is Some implies has_row(
        rows,
        node,
        prefix,
        below,
    ) by {
        if below.len() == 0 {
            assert(below =~= none);
            assert(row_from(rows[0], node, prefix, below));
        } else {
            let c = choose|c: int|
                0 <= c < n && (#[trigger] node.children@[c]).0@ == below[0];
            assert(has_row(rest, node, prefix, below));
            let i = choose|i: int|
                0 <= i < rest.len() && row_from(#[trigger] rest[i], node, prefix, below);
            assert(rows[i + k] == rest[i]);
        }
    }
    assert forall|i: int, j: int| 0 <= i < j < rows.len() implies path_less(
        (#[trigger] rows[i]).0,
        (#[trigger] rows[j]).0,
    ) by {
        assert(rows[j] == rest[j - k]);
        if i < k {
            assert(row_of_children(rest[j - k], node, prefix, n));
            let row = rows[j];
            let (c, below) = choose|c: int, below: Path|
                0 <= c < n && row_below(row, node, prefix, c, below);
            lemma_path_less_behind(prefix, none, below);
        } else {
            assert(rows[i] == rest[i - k]);
        }
    }
}

/// The rows of the walk of one child, seen from its parent.
proof fn lemma_walk_child<C>(node: RouteNode<C>, prefix: Path, m: int)
    requires
        node.well_formed(),
        0 <= m < node.children@.len(),
        forall|i: int|
            0 <= i < walk(node.children@[m].1, prefix.push(node.children@[m].0@)).len()
                ==> row_of_tree(
                #[trigger] walk(node.children@[m].1, prefix.push(node.children@[m].0@))[i],
                node.children@[m].1,
                prefix.push(node.children@[m].0@),
            ),
        forall|below: Path|
            (#[trigger] lookup(node.children@[m].1, below)) is Some ==> has_row(
                walk(node.children@[m].1, prefix.push(node.children@[m].0@)),
                node.children@[m].1,
                prefix.push(node.children@[m].0@),
                below,
            ),
    ensures
        forall|i: int|
            0 <= i < walk(node.children@[m].1, prefix.push(node.children@[m].0@)).len()
                ==> row_of_one_child(
                #[trigger] walk(node.children@[m].1, prefix.push(node.children@[m].0@))[i],
                node,
                prefix,
                m,
            ),
        forall|below: Path|
            below.len() > 0 && below[0] == node.children@[m].0@ && (#[trigger] lookup(
                node,
                below,
            )) is Some ==> has_row(
                walk(node.children@[m].1, prefix.push(node.children@[m].0@)),
                node,
                prefix,
                below,
            ),
{
    let last = node.children@[m];
    let segment = last.0@;
    let deeper = prefix.push(segment);
    let back = walk(last.1, deeper);
    lemma_child_at(node.children@, m);
    assert forall|i: int| 0 <= i < back.len() implies row_of_one_child(
        #[trigger] back[i],
        node,
        prefix,
        m,
    ) by {
        let row = back[i];
        assert(row_of_tree(row, last.1, deeper));
        let q = choose|q: Path| row_from(row, last.1, deeper, q);
        let below = seq![segment] + q;
        assert(below.skip(1) =~= q);
        assert(deeper + q =~= prefix + below);
        assert(row_below(row, node, prefix, m, below));
    }
    assert forall|below: Path|
        below.len() > 0 && below[0] == segment && (#[trigger] lookup(
            node,
            below,
        )) is Some implies has_row(back, node, prefix, below) by {
        let q = below.skip(1);
        assert(below =~= seq![segment] + q);
        assert(lookup(node, below) == lookup(last.1, q));
        assert(has_row(back, last.1, deeper, q));
        let j = choose|j: int|
            0 <= j < back.len() && row_from(#[trigger] back[j], last.1, deeper, q);
        assert(deeper + q =~= prefix + below);
        assert(row_from(back[j], node, prefix, below));
    }
}

/// Whether a row comes from below the child `c`, at some path.
spec fn row_of_one_child<C>(row: (Path, Mounted<C>), node: RouteNode<C>, prefix: Path, c: int) -> bool {
    exists|below: Path| row_below(row, node, prefix, c, below)
}

#[verifier::rlimit(50)]
proof fn lemma_walk_children<C>(node: RouteNode<C>, prefix: Path, n: nat)
    requires
        node.well_formed(),
        n <= node.children@.len(),
    ensures
        forall|i: int|
            0 <= i < walk_children(node, prefix, n).len() ==> row_of_children(
                #[trigger] walk_children(node, prefix, n)[i],
                node,
                prefix,
                n,
            ),
        forall|c: int, below: Path|
            0 <= c < n && below.len() > 0 && below[0] == (#[trigger] node.children@[c]).0@ && (
            #[trigger] lookup(node, below)) is Some ==> has_row(
                walk_children(node, prefix, n),
                node,
                prefix,
                below,
            ),
        rows_ascend(walk_children(node, prefix, n)),
    decreases node, n,
{
    if n > 0 {
        let m = (n - 1) as nat;
        let last = node.children@[m as int];
        let deeper = prefix.push(last.0@);
        assert(last.1.well_formed());
        lemma_walk_children(node, prefix, m);
        lemma_walk(last.1, deeper);
        lemma_walk_child(node, prefix, m as int);
        let front = walk_children(node, prefix, m);
        let back = walk(last.1, deeper);
        let all = walk_children(node, prefix, n);
        assert(all == front + back);
        assert forall|i: int| 0 <= i < all.len() implies row_of_children(
            #[trigger] all[i],
            node,
            prefix,
            n,
        ) by {
            let row = all[i];
            if i < front.len() {
                assert(row == front[i]);
                let (c, below) = choose|c: int, below: Path|
                    0 <= c < m && row_below(row, node, prefix, c, below);
                assert(0 <= c < n && row_below(row, node, prefix, c, below));
            } else {
                assert(row == back[i - front.len()]);
                assert(row_of_one_child(row, node, prefix, m as int));
                let below = choose|below: Path| row_below(row, node, prefix, m as int, below);
                assert(0 <= m < n && row_below(row, node, prefix, m as int, below));
            }
        }
        assert forall|c: int, below: Path|
            0 <= c < n && below.len() > 0 && below[0] == (#[trigger] node.children@[c]).0@ && (
            #[trigger] lookup(node, below)) is Some implies has_row(all, node, prefix, below) by {
            if c < m {
                assert(has_row(front, node, prefix, below));
                let i = choose|i: int|
                    0 <= i < front.len() && row_from(#[trigger] front[i], node, prefix, below);
                assert(all[i] == front[i]);
            } else {
                assert(has_row(back, node, prefix, below));
                let j = choose|j: int|
                    0 <= j < back.len() && row_from(#[trigger] back[j], node, prefix, below);
                assert(all[front.len() + j] == back[j]);
            }
        }
        assert forall|i: int, j: int| 0 <= i < j < all.len() implies path_less(
            (#[trigger] all[i]).0,
            (#[trigger] all[j]).0,
        ) by {
            if j < front.len() {
                assert(all[i] == front[i] && all[j] == front[j]);
            } else if i >= front.len() {
                assert(all[i] == back[i - front.len()] && all[j] == back[j - front.len()]);
            } else {
                let low = all[i];
                let high = all[j];
                assert(low == front[i] && high == back[j - front.len()]);
                assert(row_of_children(low, node, prefix, m));
                assert(row_of_one_child(high, node, prefix, m as int));
                let (c, a) = choose|c: int, a: Path|
                    0 <= c < m && row_below(low, node, prefix, c, a);
                let b = choose|b: Path| row_below(high, node, prefix, m as int, b);
                assert(text_less(node.children@[c].0@, node.children@[m as int].0@));
                lemma_text_less_irreflexive(a[0]);
                lemma_path_less_behind(prefix, a, b);
            }
        }
    }
}

/// What a list of mounts shows.
pub open spec fn mount_rows<C>(rows: Seq<(String, &Mounted<C>)>) -> Seq<(Seq<char>, Mounted<C>)> {
    Seq::new(rows.len(), |i: int| (rows[i].0@, *rows[i].1))
}

spec fn joined<C>(rows: Seq<(Path, Mounted<C>)>) -> Seq<(Seq<char>, Mounted<C>)> {
    Seq::new(rows.len(), |i: int| (join(rows[i].0, "/"@), rows[i].1))
}

/// Notes the mounts of a tree in the order of a walk.
fn collect<'a, C>(node: &'a RouteNode<C>, prefix: &[String], out: &mut Vec<(String, &'a Mounted<C>)>)
    ensures
        mount_rows(final(out)@) == mount_rows(old(out)@) + joined(walk(*node, views(prefix@))),
    decreases node,
{
    let ghost start = mount_rows(out@);
    let ghost path = views(prefix@);
    if let Some(controller) = &node.controller {
        let mount = join_strings(prefix, "/");
        let ghost prev = out@;
        out.push((mount, controller));
        assert(mount_rows(out@) =~= mount_rows(prev).push((mount@, *controller)));
        assert(mount_rows(out@) =~= start + joined(seq![(path, *controller)]));
    } else {
        assert(mount_rows(out@) =~= start + joined(Seq::<(Path, Mounted<C>)>::empty()));
    }
    let ghost own = own_row(*node, path);
    let mut i: usize = 0;
    assert(own + walk_children(*node, path, 0) =~= own);
    while i < node.children.len()
        invariant
            i <= node.children@.len(),
            path == views(prefix@),
            mount_rows(out@) == start + joined(own + walk_children(*node, path, i as nat)),
        decreases node.children.len() - i,
    {
        let ghost before = own + walk_children(*node, path, i as nat);
        let mut deeper: Vec<String> = crate::strmap::clone_strings(prefix);
        deeper.push(node.children[i].0.clone());
        assert(views(deeper@) =~= path.push(node.children@[i as int].0@));
        collect(&node.children[i].1, &deeper, out);
        proof {
            let next = walk(node.children@[i as int].1, views(deeper@));
            assert(own + walk_children(*node, path, (i + 1) as nat) =~= before + next);
            assert(joined(before + next) =~= joined(before) + joined(next));
            assert(start + joined(before) + joined(next) =~= start + (joined(before) + joined(
                next,
            )));
        }
        i = i + 1;
    }
}

/// The rows that the routes of one controller give.
pub open spec fn rows_of_mount(mount: Seq<char>, routes: Seq<RouteDef>) -> Seq<
    (Seq<char>, RouteDef),
> {
    Seq::new(routes.len(), |i: int| (mount, routes[i]))
}

/// The routes of the controllers at `paths`, path by path and each in the
/// order of its declaration.
pub open spec fn route_rows<C>(paths: Seq<Path>, mounts: Map<Path, Mounted<C>>) -> Seq<
    (Seq<char>, RouteDef),
>
    decreases paths.len(),
{
    if paths.len() == 0 {
        Seq::empty()
    } else {
        route_rows(paths.drop_last(), mounts) + rows_of_mount(
            join(paths.last(), "/"@),
            mounts[paths.last()].routes@,
        )
    }
}

/// The classes that the controllers at `paths` declare, path by path.
pub open spec fn class_rows<C>(paths: Seq<Path>, mounts: Map<Path, Mounted<C>>) -> Seq<
    (Seq<char>, Seq<char>),
>
    decreases paths.len(),
{
    if paths.len() == 0 {
        Seq::empty()
    } else {
        let before = class_rows(paths.drop_last(), mounts);
        match mounts[paths.last()].rate_limit {
            Some(class) => before.push((join(paths.last(), "/"@), class@)),
            None => before,
        }
    }
}

/// What a list of routes shows.
pub open spec fn route_row_views(rows: Seq<(String, RouteDef)>) -> Seq<(Seq<char>, RouteDef)> {
    Seq::new(rows.len(), |i: int| (rows[i].0@, rows[i].1))
}

/// The rate-limit class of one mounted controller.
#[derive(Clone, Debug, PartialEq, Eq)]
pub struct RateLimitClass {
    /// The path of the mount.
    pub mount: String,
    /// The class that the controller declares.
    pub class: &'static str,
}

/// What a list of classes shows.
pub open spec fn class_row_views(rows: Seq<RateLimitClass>) -> Seq<(Seq<char>, Seq<char>)> {
    Seq::new(rows.len(), |i: int| (rows[i].mount@, rows[i].class@))
}

impl<C> Router<C> {
    /// The paths of the mounts, in order.
    pub closed spec fn mount_order(&self) -> Seq<Path> {
        walk(self.root, Seq::empty()).map_values(|row: (Path, Mounted<C>)| row.0)
    }

    /// The mounts of the router with their controllers, in order.
    pub fn mounts(&self) -> (r: Vec<(String, &Mounted<C>)>)
        ensures
            lists_mounts(self.mount_order(), self@),
            r@.len() == self.mount_order().len(),
            forall|i: int|
                0 <= i < r@.len() ==> (#[trigger] r@[i]).0@ == join(self.mount_order()[i], "/"@)
                    && *r@[i].1 == self@[self.mount_order()[i]],
    {
        proof {
            use_type_invariant(self);
        }
        let ghost none = Seq::<Seq<char>>::empty();
        let ghost rows = walk(self.root, none);
        let prefix: Vec<String> = Vec::new();
        let mut out: Vec<(String, &Mounted<C>)> = Vec::new();
        let ghost start = mount_rows(out@);
        assert(views(prefix@) =~= none);
        collect(&self.root, &prefix, &mut out);
        proof {
            lemma_walk(self.root, none);
            let order = self.mount_order();
            assert(mount_rows(out@) =~= joined(rows));
            assert(mount_rows(out@).len() == out@.len());
            assert forall|i: int| 0 <= i < rows.len() implies (#[trigger] order[i]) == rows[i].0
                && self@.contains_key(order[i]) && self@[order[i]] == rows[i].1 by {
                let row = rows[i];
                assert(row_of_tree(row, self.root, none));
                let below = choose|below: Path| row_from(row, self.root, none, below);
                assert(none + below =~= below);
            }
            assert forall|p: Path| order.contains(p) <==> #[trigger] self@.contains_key(p) by {
                if self@.contains_key(p) {
                    assert(lookup(self.root, p) is Some);
                    assert(has_row(rows, self.root, none, p));
                    let i = choose|i: int|
                        0 <= i < rows.len() && row_from(#[trigger] rows[i], self.root, none, p);
                    assert(none + p =~= p);
                    assert(order[i] == p);
                }
            }
            assert forall|i: int, j: int| 0 <= i < j < order.len() implies path_less(
                #[trigger] order[i],
                #[trigger] order[j],
            ) by {
                assert(path_less(rows[i].0, rows[j].0));
            }
            assert forall|i: int| 0 <= i < out@.len() implies (#[trigger] out@[i]).0@ == join(
                order[i],
                "/"@,
            ) && *out@[i].1 == self@[order[i]] by {
                assert(mount_rows(out@)[i] == joined(rows)[i]);
                assert(order[i] == rows[i].0);
            }
        }
        out
    }

    /// Every route of every controller, with the path of its mount. The mounts
    /// come in order, and the routes of one controller as it declares them.
    pub fn routes(&self) -> (r: Vec<(String, RouteDef)>)
        ensures
            lists_mounts(self.mount_order(), self@),
            route_row_views(r@) == route_rows(self.mount_order(), self@),
    {
        let mounts = self.mounts();
        let ghost order = self.mount_order();
        let mut out: Vec<(String, RouteDef)> = Vec::new();
        let mut i: usize = 0;
        assert(order.take(0) =~= Seq::<Path>::empty());
        assert(route_row_views(out@) =~= Seq::<(Seq<char>, RouteDef)>::empty());
        while i < mounts.len()
            invariant
                i <= mounts@.len(),
                order == self.mount_order(),
                mounts@.len() == order.len(),
                forall|k: int|
                    0 <= k < mounts@.len() ==> (#[trigger] mounts@[k]).0@ == join(order[k], "/"@)
                        && *mounts@[k].1 == self@[order[k]],
                route_row_views(out@) == route_rows(order.take(i as int), self@),
            decreases mounts.len() - i,
        {
            let ghost before = route_rows(order.take(i as int), self@);
            let mount = &mounts[i].0;
            let routes = &mounts[i].1.routes;
            let mut j: usize = 0;
            assert(before + rows_of_mount(mount@, routes@).take(0) =~= before);
            while j < routes.len()
                invariant
                    j <= routes@.len(),
                    route_row_views(out@) == before + rows_of_mount(mount@, routes@).take(j as int),
                decreases routes.len() - j,
            {
                let ghost prev = out@;
                out.push((mount.clone(), routes[j]));
                proof {
                    let rows = rows_of_mount(mount@, routes@);
                    assert(route_row_views(out@) =~= route_row_views(prev).push(rows[j as int]));
                    assert(before + rows.take(j as int + 1) =~= (before + rows.take(j as int)).push(
                        rows[j as int],
                    ));
                }
                j = j + 1;
            }
            proof {
                let rows = rows_of_mount(mount@, routes@);
                assert(rows.take(rows.len() as int) =~= rows);
                assert(order.take(i as int + 1).drop_last() =~= order.take(i as int));
            }
            i = i + 1;
        }
        assert(order.take(order.len() as int) =~= order);
        out
    }

    /// The rate-limit classes that the controllers declare, with the paths of
    /// their mounts, in order. A controller that declares none is left out.
    pub fn rate_limit_classes(&self) -> (r: Vec<RateLimitClass>)
        ensures
            lists_mounts(self.mount_order(), self@),
            class_row_views(r@) == class_rows(self.mount_order(), self@),
    {
        let mounts = self.mounts();
        let ghost order = self.mount_order();
        let mut out: Vec<RateLimitClass> = Vec::new();
        let mut i: usize = 0;
        assert(order.take(0) =~= Seq::<Path>::empty());
        assert(class_row_views(out@) =~= Seq::<(Seq<char>, Seq<char>)>::empty());
        while i < mounts.len()
            invariant
                i <= mounts@.len(),
                order == self.mount_order(),
                mounts@.len() == order.len(),
                forall|k: int|
                    0 <= k < mounts@.len() ==> (#[trigger] mounts@[k]).0@ == join(order[k], "/"@)
                        && *mounts@[k].1 == self@[order[k]],
                class_row_views(out@) == class_rows(order.take(i as int), self@),
            decreases mounts.len() - i,
        {
            assert(order.take(i as int + 1).drop_last() =~= order.take(i as int));
            if let Some(class) = mounts[i].1.rate_limit {
                let ghost prev = out@;
                out.push(RateLimitClass { mount: mounts[i].0.clone(), class });
                assert(class_row_views(out@) =~= class_row_views(prev).push(
                    (mounts@[i as int].0@, class@),
                ));
            }
            i = i + 1;
        }
        assert(order.take(order.len() as int) =~= order);
        out
    }
}

// ---------------------------------------------------------------------------
// Laws
// ---------------------------------------------------------------------------

/// The deepest mount wins: the number that `deepest` gives is that of a mount
/// on the way, and none lies further down; it gives none exactly where no
/// mount lies on the way.
pub proof fn law_deepest_mount_wins<C>(mounts: Map<Path, Mounted<C>>, path: Path, k: int)
    requires
        0 <= k <= path.len(),
    ensures
        match deepest(mounts, path, k) {
            Some(n) => 0 <= n <= k && mounts.contains_key(path.take(n)) && forall|j: int|
                n < j <= k ==> !mounts.contains_key(#[trigger] path.take(j)),
            None => forall|j: int| 0 <= j <= k ==> !mounts.contains_key(#[trigger] path.take(j)),
        },
    decreases k,
{
    if !mounts.contains_key(path.take(k)) && k > 0 {
        law_deepest_mount_wins(mounts, path, k - 1);
    }
    if k == 0 {
        assert(deepest(mounts, path, -1) is None);
    }
}

/// A mount takes every path below it that no deeper mount claims, and hands
/// its controller the rest of the path.
pub proof fn law_mount_takes_what_lies_below<C>(
    mounts: Map<Path, Mounted<C>>,
    mount: Path,
    rest: Path,
)
    requires
        mounts.contains_key(mount),
        forall|j: int|
            0 < j <= rest.len() ==> !mounts.contains_key(mount + #[trigger] rest.take(j)),
    ensures
        routed(mounts, mount + rest) == Some((mounts[mount], join(rest, "/"@))),
{
    let path = mount + rest;
    let n = mount.len() as int;
    law_deepest_mount_wins(mounts, path, path.len() as int);
    assert(path.take(n) =~= mount);
    assert(path.skip(n) =~= rest);
    assert forall|j: int| n < j <= path.len() implies !mounts.contains_key(
        #[trigger] path.take(j),
    ) by {
        assert(path.take(j) =~= mount + rest.take(j - n));
    }
    if let Some(k) = deepest(mounts, path, path.len() as int) {
        if k < n {
            assert(!mounts.contains_key(path.take(n)));
        }
    }
}

proof fn lemma_trim_char_keeps(s: Seq<char>, c: char)
    requires
        s.len() > 0,
        s[0] != c,
        s.last() != c,
    ensures
        trim_char(s, c) == s,
{
}

proof fn lemma_trim_before(s: Seq<char>, more: Seq<char>, c: char)
    requires
        more.len() > 0,
        more[0] != c,
    ensures
        trim_char_start(s + more, c) == trim_char_start(s, c) + more,
    decreases s.len(),
{
    if s.len() > 0 && s[0] == c {
        assert((s + more).skip(1) =~= s.skip(1) + more);
        lemma_trim_before(s.skip(1), more, c);
    } else {
        assert(s.len() == 0 ==> s + more =~= more);
    }
}

proof fn lemma_trim_push(s: Seq<char>, c: char)
    ensures
        trim_char_start(s, c).len() == 0 ==> trim_char_start(s.push(c), c).len() == 0,
        trim_char_start(s, c).len() > 0 ==> trim_char_start(s.push(c), c) == trim_char_start(
            s,
            c,
        ).push(c) && trim_char_start(s, c)[0] != c && trim_char_start(s, c).last() == s.last(),
    decreases s.len(),
{
    if s.len() == 0 {
        assert(s.push(c).skip(1) =~= s);
    } else if s[0] == c {
        assert(s.push(c).skip(1) =~= s.skip(1).push(c));
        lemma_trim_push(s.skip(1), c);
    }
}

proof fn lemma_trim_end_keeps_first(s: Seq<char>, c: char)
    requires
        s.len() > 0,
        s[0] != c,
    ensures
        trim_char_end(s, c).len() > 0,
    decreases s.len(),
{
    if s.last() == c {
        lemma_trim_end_keeps_first(s.drop_last(), c);
    }
}

/// The trim of a path with a last segment `*` behind it.
proof fn lemma_trim_star(path: Seq<char>)
    requires
        trim_char(path, '/').len() > 0 ==> path.last() != '/',
    ensures
        trim_char(path, '/').len() == 0 ==> trim_char(path + "/*"@, '/') == "*"@,
        trim_char(path, '/').len() > 0 ==> trim_char(path + "/*"@, '/') == trim_char(path, '/')
            + "/*"@,
{
    reveal_strlit("/*");
    reveal_strlit("*");
    let star = seq!['*'];
    assert("*"@ =~= star);
    let slashed = path.push('/');
    assert(path + "/*"@ =~= slashed + star);
    lemma_trim_before(slashed, star, '/');
    lemma_trim_push(path, '/');
    let t = trim_char_start(path, '/');
    if t.len() == 0 {
        assert(trim_char_start(slashed, '/') + star =~= star);
    } else {
        lemma_trim_end_keeps_first(t, '/');
        assert(trim_char(path, '/') == t);
        assert(trim_char_start(slashed, '/') + star =~= t + "/*"@);
    }
}

/// A last segment `*` is sugar: the mount is that of the path in front of it.
/// The path is empty, all slashes, or does not end in a slash, and has no `*`
/// as its last segment itself.
pub proof fn law_trailing_star(path: Seq<char>)
    requires
        trim_char(path, '/').len() > 0 ==> path.last() != '/' && split(
            trim_char(path, '/'),
            '/',
        ).last() != "*"@,
    ensures
        mount_segments(path + "/*"@) == mount_segments(path),
{
    reveal_strlit("/*");
    reveal_strlit("*");
    let star = seq!['*'];
    assert("*"@ =~= star);
    lemma_trim_star(path);
    crate::text::lemma_split_without(star, '/');
    let t = trim_char(path, '/');
    if t.len() == 0 {
        assert(seq![star].drop_last() =~= Seq::<Seq<char>>::empty());
    } else {
        let whole = t + "/*"@;
        assert(whole =~= t.push('/') + star);
        crate::text::lemma_split_concat(t, star, '/');
        crate::text::lemma_split_non_empty(t, '/');
        assert(split(whole, '/') =~= split(t, '/').push(star));
        assert(split(whole, '/').drop_last() =~= split(t, '/'));
    }
}

/// `*` alone mounts at the root, as the empty path does.
pub proof fn law_root_star()
    ensures
        mount_segments("*"@) == Some(Seq::<Seq<char>>::empty()),
        mount_segments(""@) == Some(Seq::<Seq<char>>::empty()),
{
    reveal_strlit("*");
    reveal_strlit("");
    let star = seq!['*'];
    assert("*"@ =~= star);
    lemma_trim_char_keeps(star, '/');
    crate::text::lemma_split_without(star, '/');
    assert(seq![star].drop_last() =~= Seq::<Seq<char>>::empty());
    assert(""@ =~= Seq::<char>::empty());
    assert(trim_char(""@, '/') =~= Seq::<char>::empty());
}

/// A request goes to the controller at the longest mount that begins its path,
/// which is handed what is left of the path, with one slash between two
/// segments; and to none exactly where no mount begins it.
pub proof fn law_where_a_request_goes<C>(mounts: Map<Path, Mounted<C>>, path: Path)
    ensures
        match routed(mounts, path) {
            Some((controller, action)) => exists|k: int|
                {
                    &&& 0 <= k <= path.len()
                    &&& mounts.contains_key(#[trigger] path.take(k))
                    &&& mounts[path.take(k)] == controller
                    &&& action == join(path.skip(k), seq!['/'])
                    &&& forall|j: int|
                        k < j <= path.len() ==> !mounts.contains_key(#[trigger] path.take(j))
                },
            None => forall|j: int|
                0 <= j <= path.len() ==> !mounts.contains_key(#[trigger] path.take(j)),
        },
{
    reveal_strlit("/");
    assert("/"@ =~= seq!['/']);
    law_deepest_mount_wins(mounts, path, path.len() as int);
    if let Some(k) = deepest(mounts, path, path.len() as int) {
        assert(mounts.contains_key(path.take(k)));
    }
}

/// A controller is mounted at the segments of its path, whatever slashes stand
/// around them; a `*` that is not the last segment mounts nothing.
pub proof fn law_mounts_are_segments(parts: Path, k: int)
    requires
        parts.len() > 0,
        crate::text::are_segments(parts),
    ensures
        (forall|i: int| 0 <= i < parts.len() ==> #[trigger] parts[i] != seq!['*'])
            ==> mount_segments(join(parts, seq!['/'])) == Some(parts) && mount_segments(
            seq!['/'] + join(parts, seq!['/']),
        ) == Some(parts) && mount_segments(join(parts, seq!['/']).push('/')) == Some(parts),
        0 <= k < parts.len() - 1 && parts[k] == seq!['*'] ==> mount_segments(
            join(parts, seq!['/']),
        ) is None,
{
    reveal_strlit("*");
    assert("*"@ =~= seq!['*']);
    let text = join(parts, seq!['/']);
    assert forall|i: int| 0 <= i < parts.len() implies !(#[trigger] parts[i]).contains('/') by {
        assert(parts[i].len() > 0);
    }
    crate::text::law_split_of_join(parts, '/');
    lemma_joined_ends(parts);
    lemma_trim_char_keeps(text, '/');
    let front = seq!['/'] + text;
    assert(front.skip(1) =~= text);
    assert(trim_char_start(front, '/') == trim_char_start(text, '/'));
    let behind = text.push('/');
    assert(behind.drop_last() =~= text);
    assert(trim_char_start(behind, '/') == behind);
    assert(trim_char_end(behind, '/') == trim_char_end(text, '/'));
    if forall|i: int| 0 <= i < parts.len() ==> #[trigger] parts[i] != seq!['*'] {
        assert(parts.last() == parts[parts.len() - 1]);
        assert(!parts.contains("*"@));
    }
    if 0 <= k < parts.len() - 1 && parts[k] == seq!['*'] {
        assert(parts.drop_last()[k] == seq!['*']);
        assert(parts.contains(parts[k]));
        assert(parts.drop_last().contains(parts.drop_last()[k]));
    }
}

proof fn lemma_joined_ends(parts: Path)
    requires
        parts.len() > 0,
        forall|i: int|
            0 <= i < parts.len() ==> (#[trigger] parts[i]).len() > 0 && !parts[i].contains('/'),
    ensures
        join(parts, seq!['/']).len() > 0,
        join(parts, seq!['/'])[0] != '/',
        join(parts, seq!['/']).last() != '/',
    decreases parts.len(),
{
    let last = parts[parts.len() - 1];
    assert(last.contains(last[last.len() - 1]));
    assert(last.contains(last[0]));
    if parts.len() > 1 {
        let front = parts.drop_last();
        assert forall|i: int| 0 <= i < front.len() implies (#[trigger] front[i]).len() > 0
            && !front[i].contains('/') by {
            assert(front[i] == parts[i]);
        }
        lemma_joined_ends(front);
        assert(join(parts, seq!['/'])[0] == join(front, seq!['/'])[0]);
    }
}

/// The order of mounts: at the first segment where two differ that one decides
/// which comes first, and a mount comes before those below it.
pub proof fn law_order_of_mounts(p: Path, a: Path, b: Path)
    ensures
        a.len() > 0 && b.len() > 0 && a[0] != b[0] ==> (path_less(p + a, p + b) <==> text_less(
            a[0],
            b[0],
        )),
        b.len() > 0 ==> path_less(p, p + b),
        !path_less(p + b, p),
    decreases p.len(),
{
    if p.len() == 0 {
        assert(p + a =~= a);
        assert(p + b =~= b);
    } else {
        assert((p + a).skip(1) =~= p.skip(1) + a);
        assert((p + b).skip(1) =~= p.skip(1) + b);
        law_order_of_mounts(p.skip(1), a, b);
    }
}

/// Every route of every mount is listed under the path of the mount, and
/// nothing else is; mount by mount, and each mount's routes in their order.
pub proof fn law_every_route_is_listed<C>(
    paths: Seq<Path>,
    mounts: Map<Path, Mounted<C>>,
    more: Seq<Path>,
)
    ensures
        forall|k: int, i: int|
            #![trigger mounts[paths[k]].routes@[i]]
            0 <= k < paths.len() && 0 <= i < mounts[paths[k]].routes@.len() ==> route_rows(
                paths,
                mounts,
            ).contains((join(paths[k], seq!['/']), mounts[paths[k]].routes@[i])),
        route_rows(paths + more, mounts) == route_rows(paths, mounts) + route_rows(more, mounts),
        paths.len() == 1 ==> route_rows(paths, mounts) == mounts[paths[0]].routes@.map_values(
            |r: RouteDef| (join(paths[0], seq!['/']), r),
        ),
    decreases paths.len() + more.len(),
{
    reveal_strlit("/");
    assert("/"@ =~= seq!['/']);
    let all = route_rows(paths, mounts);
    if more.len() > 0 {
        law_every_route_is_listed(paths, mounts, more.drop_last());
        assert((paths + more).drop_last() =~= paths + more.drop_last());
        assert(route_rows(paths + more, mounts) =~= all + route_rows(more, mounts));
    } else {
        assert(paths + more =~= paths);
        assert(all + route_rows(more, mounts) =~= all);
        if paths.len() > 0 {
            let front = paths.drop_last();
            law_every_route_is_listed(front, mounts, more);
            let before = route_rows(front, mounts);
            let last = paths.last();
            let own = rows_of_mount(join(last, "/"@), mounts[last].routes@);
            assert forall|k: int, i: int|
                #![trigger mounts[paths[k]].routes@[i]]
                0 <= k < paths.len() && 0 <= i < mounts[paths[k]].routes@.len() implies all.contains(
                (join(paths[k], seq!['/']), mounts[paths[k]].routes@[i]),
            ) by {
                let row = (join(paths[k], seq!['/']), mounts[paths[k]].routes@[i]);
                if k < front.len() {
                    assert(front[k] == paths[k]);
                    assert(mounts[front[k]].routes@[i] == row.1);
                    assert(before.contains(row));
                    assert(all[before.index_of(row)] == row);
                } else {
                    assert(all[before.len() + i] == own[i]);
                }
            }
            if paths.len() == 1 {
                assert(before =~= Seq::<(Seq<char>, RouteDef)>::empty());
                assert(all =~= mounts[paths[0]].routes@.map_values(
                    |r: RouteDef| (join(paths[0], seq!['/']), r),
                ));
            }
        }
    }
}

/// The classes are listed of the mounts that declare one, in order.
pub proof fn law_classes_are_listed<C>(paths: Seq<Path>, mounts: Map<Path, Mounted<C>>)
    ensures
        class_rows(paths, mounts) == paths.filter(
            |p: Path| mounts[p].rate_limit is Some,
        ).map_values(|p: Path| (join(p, seq!['/']), mounts[p].rate_limit->0@)),
    decreases paths.len(),
{
    reveal_strlit("/");
    assert("/"@ =~= seq!['/']);
    reveal(Seq::filter);
    let classed = |p: Path| mounts[p].rate_limit is Some;
    let row = |p: Path| (join(p, seq!['/']), mounts[p].rate_limit->0@);
    if paths.len() > 0 {
        law_classes_are_listed(paths.drop_last(), mounts);
    }
    assert(class_rows(paths, mounts) =~= paths.filter(classed).map_values(row));
}

/// A list of the mounts has each of them once and nothing else. A mount stands
/// before those below it, and before those whose first other segment comes
/// later in the alphabet.
pub proof fn law_mounts_are_listed_in_order<C>(
    paths: Seq<Path>,
    mounts: Map<Path, Mounted<C>>,
    front: Path,
    a: Path,
    b: Path,
    i: int,
    j: int,
)
    requires
        lists_mounts(paths, mounts),
        0 <= i < paths.len(),
        0 <= j < paths.len(),
    ensures
        mounts.contains_key(paths[i]),
        forall|p: Path| #[trigger] mounts.contains_key(p) ==> paths.contains(p),
        paths[i] == paths[j] ==> i == j,
        paths[i] == front && paths[j] == front + b && b.len() > 0 ==> i < j,
        paths[i] == front + a && paths[j] == front + b && a.len() > 0 && b.len() > 0 && text_less(
            a[0],
            b[0],
        ) && a[0] != b[0] ==> i < j,
{
    law_order_of_mounts(front, a, b);
    law_order_of_mounts(front, b, a);
    law_order_of_mounts(paths[i], a, Seq::empty());
    assert(paths[i] + Seq::<Seq<char>>::empty() =~= paths[i]);
    assert(paths.contains(paths[i]));
    if j < i {
        assert(path_less(paths[j], paths[i]));
    }
    if i < j {
        assert(path_less(paths[i], paths[j]));
    }
    if a.len() > 0 && b.len() > 0 && text_less(a[0], b[0]) && text_less(b[0], a[0]) {
        lemma_text_less_one_way(a[0], b[0]);
    }
}

proof fn lemma_text_less_one_way(a: Seq<char>, b: Seq<char>)
    requires
        text_less(a, b),
    ensures
        !text_less(b, a),
    decreases a.len(),
{
    if a.len() > 0 && b.len() > 0 && a[0] == b[0] {
        lemma_text_less_one_way(a.skip(1), b.skip(1));
    }
}

/// A listed row shows its path and what is listed under it.
pub proof fn law_rows_show_what_they_hold(
    rows: Seq<(String, RouteDef)>,
    classes: Seq<RateLimitClass>,
    i: int,
)
    ensures
        route_row_views(rows).len() == rows.len(),
        class_row_views(classes).len() == classes.len(),
        0 <= i < rows.len() ==> route_row_views(rows)[i] == (rows[i].0@, rows[i].1),
        0 <= i < classes.len() ==> class_row_views(classes)[i] == (
            classes[i].mount@,
            classes[i].class@,
        ),
{
}

} // verus!
