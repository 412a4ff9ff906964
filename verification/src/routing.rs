//! The prefix-matching routing tree.
//!
//! Routing is processed by a tree, with each child keyed by a single path
//! segment. A route placed at `/files/raw` is held by the child `raw` of the
//! child `files` of the root. The longest inserted prefix of a request path
//! wins, and the segments after the matched prefix are handed to the handler
//! as its trailing segments. Empty segments are ignored on both insertion
//! and lookup, so `/files` and `/files/` address the same node.

use vstd::prelude::*;
use crate::bindings;

verus! {

/// Error of an attempt to register two values for the same normalized path.
#[derive(Debug, Clone, Copy)]
pub struct ConflictingRouteError();

/// A node of the routing tree: an optional value, and children keyed by
/// path segment, keys unique, order irrelevant.
pub struct RoutingNode<T> {
    value: Option<T>,
    children: Vec<(String, RoutingNode<T>)>,
}

/// The first child keyed `seg` in a list of children.
pub closed spec fn child_in<T>(
    children: Seq<(String, RoutingNode<T>)>,
    seg: Seq<char>,
) -> Option<RoutingNode<T>>
    decreases children.len(),
{
    if children.len() == 0 {
        None
    } else if children[0].0@ == seg {
        Some(children[0].1)
    } else {
        child_in(children.drop_first(), seg)
    }
}

/// The value stored at exactly this path below `node`, if any: the routes a
/// tree holds are the paths on which this is `Some`.
pub closed spec fn value_at<T>(node: RoutingNode<T>, path: Seq<Seq<char>>) -> Option<T>
    decreases path.len(),
{
    if path.len() == 0 {
        node.value
    } else {
        match child_in(node.children@, path[0]) {
            Some(child) => value_at(child, path.drop_first()),
            None => None,
        }
    }
}

/// What a lookup of `segs` below `node` returns: the value at the longest
/// stored prefix of `segs`, with the segments after that prefix. `segs` is
/// expected free of empty segments.
pub closed spec fn spec_lookup<T>(node: RoutingNode<T>, segs: Seq<Seq<char>>) -> Option<
    (Seq<Seq<char>>, T),
>
    decreases segs.len(),
{
    let deeper = if segs.len() > 0 {
        match child_in(node.children@, segs[0]) {
            Some(child) => spec_lookup(child, segs.drop_first()),
            None => None,
        }
    } else {
        None
    };
    if deeper is Some {
        deeper
    } else {
        match node.value {
            Some(v) => Some((segs, v)),
            None => None,
        }
    }
}

/// The sequence with its empty segments removed: the normalized form that
/// insertion and lookup both work on.
pub open spec fn nonempty_segs(segs: Seq<Seq<char>>) -> Seq<Seq<char>>
    decreases segs.len(),
{
    if segs.len() == 0 {
        Seq::empty()
    } else if segs[0].len() > 0 {
        seq![segs[0]] + nonempty_segs(segs.drop_first())
    } else {
        nonempty_segs(segs.drop_first())
    }
}

impl<T> RoutingNode<T> {
    /// The keys of the children are unique, here and in every node below.
    pub closed spec fn wf(self) -> bool
        decreases self,
    {
        (forall|i: int, j: int|
            0 <= i < j < self.children@.len() ==> self.children@[i].0@ != self.children@[j].0@)
            && (forall|i: int|
            0 <= i < self.children@.len() ==> (#[trigger] self.children@[i].1).wf())
    }
}

/// Relies on `Vec::shrink_to_fit`: it frees spare capacity and leaves the
/// contents as they are.
#[verifier::external_body]
fn vec_shrink_to_fit<T>(v: &mut Vec<T>)
    ensures
        *final(v) == *old(v),
{
    v.shrink_to_fit();
}

/// Unfolds `child_in` at a known first match.
proof fn lemma_child_in_first_at<T>(
    children: Seq<(String, RoutingNode<T>)>,
    seg: Seq<char>,
    j: int,
)
    requires
        0 <= j < children.len(),
        children[j].0@ == seg,
        forall|k: int| 0 <= k < j ==> children[k].0@ != seg,
    ensures
        child_in(children, seg) == Some(children[j].1),
    decreases j,
{
    if j > 0 {
        assert forall|k: int| 0 <= k < j - 1 implies children.drop_first()[k].0@ != seg by {
            assert(children.drop_first()[k] == children[k + 1]);
        }
        lemma_child_in_first_at(children.drop_first(), seg, j - 1);
    }
}

/// A list whose keys all differ from `seg` has no child keyed `seg`.
proof fn lemma_child_in_none<T>(children: Seq<(String, RoutingNode<T>)>, seg: Seq<char>)
    requires
        forall|k: int| 0 <= k < children.len() ==> (#[trigger] children[k]).0@ != seg,
    ensures
        child_in(children, seg) is None,
    decreases children.len(),
{
    if children.len() > 0 {
        assert forall|k: int|
            0 <= k < children.drop_first().len() implies (#[trigger] children.drop_first()[k]).0@
            != seg by {
            assert(children.drop_first()[k] == children[k + 1]);
        }
        lemma_child_in_none(children.drop_first(), seg);
    }
}

/// Appending a child changes only the lookups of its own key, and those only
/// when the key was absent.
proof fn lemma_child_in_push<T>(
    children: Seq<(String, RoutingNode<T>)>,
    entry: (String, RoutingNode<T>),
    seg: Seq<char>,
)
    ensures
        child_in(children.push(entry), seg) == if child_in(children, seg) is Some {
            child_in(children, seg)
        } else if entry.0@ == seg {
            Some(entry.1)
        } else {
            None::<RoutingNode<T>>
        },
    decreases children.len(),
{
    if children.len() == 0 {
        assert(child_in(children, seg) is None);
        assert(children.push(entry)[0] == entry);
        if entry.0@ != seg {
            assert(children.push(entry).drop_first() =~= Seq::<(String, RoutingNode<T>)>::empty());
            assert(child_in(Seq::<(String, RoutingNode<T>)>::empty(), seg) is None);
        }
    } else {
        assert(children.push(entry)[0] == children[0]);
        assert(children.push(entry).drop_first() =~= children.drop_first().push(entry));
        lemma_child_in_push(children.drop_first(), entry, seg);
    }
}

/// Replacing the child at `j` by one with the same key changes only the
/// lookups of that key, provided the key occurs nowhere else.
proof fn lemma_child_in_update<T>(
    children: Seq<(String, RoutingNode<T>)>,
    j: int,
    entry: (String, RoutingNode<T>),
    seg: Seq<char>,
)
    requires
        0 <= j < children.len(),
        entry.0@ == children[j].0@,
        forall|k: int| 0 <= k < children.len() && k != j ==> children[k].0@ != children[j].0@,
    ensures
        child_in(children.update(j, entry), seg) == if seg == entry.0@ {
            Some(entry.1)
        } else {
            child_in(children, seg)
        },
    decreases children.len(),
{
    let updated = children.update(j, entry);
    if j == 0 {
        assert(updated[0] == entry);
        assert(updated.drop_first() =~= children.drop_first());
        if seg == entry.0@ {
        } else {
        }
    } else {
        assert(updated[0] == children[0]);
        assert(updated.drop_first() =~= children.drop_first().update(j - 1, entry));
        assert forall|k: int|
            0 <= k < children.drop_first().len() && k != j - 1 implies (
        #[trigger] children.drop_first()[k]).0@ != children.drop_first()[j - 1].0@ by {
            assert(children.drop_first()[k] == children[k + 1]);
            assert(children.drop_first()[j - 1] == children[j]);
        }
        lemma_child_in_update(children.drop_first(), j - 1, entry, seg);
        if seg == entry.0@ {
            assert(children[0].0@ != children[j].0@);
        }
    }
}

/// Two child lists of equal length with pointwise equal keys match any
/// segment at the same position.
proof fn lemma_child_in_parallel<T>(
    csa: Seq<(String, RoutingNode<T>)>,
    csb: Seq<(String, RoutingNode<T>)>,
    seg: Seq<char>,
)
    requires
        csa.len() == csb.len(),
        forall|k: int| 0 <= k < csa.len() ==> (#[trigger] csa[k]).0@ == csb[k].0@,
    ensures
        match (child_in(csa, seg), child_in(csb, seg)) {
            (Some(x), Some(y)) => exists|j: int|
                0 <= j < csa.len() && #[trigger] csa[j].1 == x && csb[j].1 == y,
            (None, None) => true,
            _ => false,
        },
    decreases csa.len(),
{
    if csa.len() == 0 {
    } else if csa[0].0@ == seg {
        assert(csa[0].1 == child_in(csa, seg).unwrap());
    } else {
        assert forall|k: int|
            0 <= k < csa.drop_first().len() implies (#[trigger] csa.drop_first()[k]).0@
            == csb.drop_first()[k].0@ by {
            assert(csa.drop_first()[k] == csa[k + 1]);
            assert(csb.drop_first()[k] == csb[k + 1]);
        }
        lemma_child_in_parallel(csa.drop_first(), csb.drop_first(), seg);
        if child_in(csa, seg) is Some {
            let j = choose|j: int|
                0 <= j < csa.drop_first().len() && #[trigger] csa.drop_first()[j].1 == child_in(
                    csa.drop_first(),
                    seg,
                ).unwrap() && csb.drop_first()[j].1 == child_in(csb.drop_first(), seg).unwrap();
            assert(csa[j + 1].1 == child_in(csa, seg).unwrap());
            assert(csb[j + 1].1 == child_in(csb, seg).unwrap());
        }
    }
}

/// A node with no value and no children stores no route.
proof fn lemma_value_at_leaf<T>(node: RoutingNode<T>, path: Seq<Seq<char>>)
    requires
        node.value is None,
        node.children@.len() == 0,
    ensures
        value_at(node, path) is None,
{
    if path.len() > 0 {
        assert(child_in(node.children@, path[0]) is None);
    }
}

impl<T> RoutingNode<T> {
    /// An empty routing tree: no value anywhere.
    pub fn new() -> (r: RoutingNode<T>)
        ensures
            r.wf(),
            forall|p: Seq<Seq<char>>| #[trigger] value_at(r, p) is None,
            forall|p: Seq<Seq<char>>| #[trigger] spec_lookup(r, p) is None,
    {
        let r = RoutingNode { value: None, children: Vec::new() };
        proof {
            assert forall|p: Seq<Seq<char>>| #[trigger] value_at(r, p) is None by {
                lemma_value_at_leaf(r, p);
            }
            assert forall|p: Seq<Seq<char>>| #[trigger] spec_lookup(r, p) is None by {
                if p.len() > 0 {
                    assert(child_in(r.children@, p[0]) is None);
                }
            }
        }
        r
    }

    /// The first child keyed `seg`, with its position.
    fn find_child_index(&self, seg: &String) -> (r: Option<usize>)
        ensures
            match r {
                Some(j) => j < self.children@.len() && self.children@[j as int].0@ == seg@
                    && (forall|k: int| 0 <= k < j ==> self.children@[k].0@ != seg@)
                    && child_in(self.children@, seg@) == Some(self.children@[j as int].1),
                None => child_in(self.children@, seg@) is None && forall|k: int|
                    0 <= k < self.children@.len() ==> (#[trigger] self.children@[k]).0@ != seg@,
            },
    {
        let n = self.children.len();
        let mut i: usize = 0;
        while i < n
            invariant
                n == self.children@.len(),
                i <= n,
                forall|k: int| 0 <= k < i ==> self.children@[k].0@ != seg@,
            decreases n - i,
        {
            if self.children[i].0 == *seg {
                proof {
                    lemma_child_in_first_at(self.children@, seg@, i as int);
                }
                return Some(i);
            }
            i += 1;
        }
        proof {
            lemma_child_in_none(self.children@, seg@);
        }
        None
    }

    /// The first child keyed `seg`.
    fn find_child(&self, seg: &String) -> (r: Option<&RoutingNode<T>>)
        ensures
            match r {
                Some(child) => child_in(self.children@, seg@) == Some(*child),
                None => child_in(self.children@, seg@) is None,
            },
    {
        match self.find_child_index(seg) {
            Some(j) => Some(&self.children[j].1),
            None => None,
        }
    }

    /// The lookup below this node from position `i` of the cleaned path.
    fn match_from<'a>(&'a self, clean: &Vec<String>, i: usize) -> (r: Option<(usize, &'a T)>)
        requires
            i <= clean@.len(),
        ensures
            match r {
                Some((j, v)) => i <= j <= clean@.len() && spec_lookup(
                    *self,
                    clean.deep_view().skip(i as int),
                ) == Some((clean.deep_view().skip(j as int), *v)),
                None => spec_lookup(*self, clean.deep_view().skip(i as int)) is None,
            },
        decreases clean@.len() - i,
    {
        let ghost dv = clean.deep_view();
        proof {
            assert(dv.len() == clean@.len());
        }
        let deeper: Option<(usize, &T)> = if i < clean.len() {
            proof {
                assert(dv.skip(i as int)[0] == dv[i as int]);
                assert(dv[i as int] == clean@[i as int]@);
                assert(dv.skip(i as int).drop_first() =~= dv.skip(i + 1));
            }
            match self.find_child(&clean[i]) {
                Some(child) => child.match_from(clean, i + 1),
                None => None,
            }
        } else {
            None
        };
        match deeper {
            Some(found) => Some(found),
            None => match &self.value {
                Some(v) => Some((i, v)),
                None => None,
            },
        }
    }

    /// The insertion below this node from position `i` of the path.
    fn insert_from(&mut self, segs: &Vec<String>, i: usize, data: T) -> (r: Result<
        (),
        ConflictingRouteError,
    >)
        requires
            old(self).wf(),
            i <= segs@.len(),
        ensures
            final(self).wf(),
            match r {
                Ok(()) => {
                    &&& value_at(*old(self), nonempty_segs(segs.deep_view().skip(i as int)))
                        is None
                    &&& value_at(*final(self), nonempty_segs(segs.deep_view().skip(i as int)))
                        == Some(data)
                    &&& forall|p: Seq<Seq<char>>|
                        p != nonempty_segs(segs.deep_view().skip(i as int)) ==> #[trigger] value_at(
                            *final(self),
                            p,
                        ) == value_at(*old(self), p)
                },
                Err(_) => {
                    &&& value_at(*old(self), nonempty_segs(segs.deep_view().skip(i as int)))
                        is Some
                    &&& forall|p: Seq<Seq<char>>| #[trigger]
                        value_at(*final(self), p) == value_at(*old(self), p)
                },
            },
        decreases segs@.len() - i,
    {
        let ghost dv = segs.deep_view();
        let ghost key = nonempty_segs(dv.skip(i as int));
        proof {
            assert(dv.len() == segs@.len());
        }
        if i == segs.len() {
            proof {
                assert(dv.skip(i as int) =~= Seq::<Seq<char>>::empty());
                assert(key =~= Seq::<Seq<char>>::empty());
            }
            if self.value.is_some() {
                Err(ConflictingRouteError())
            } else {
                self.value = Some(data);
                proof {
                    assert forall|p: Seq<Seq<char>>| p != key implies #[trigger] value_at(*self, p)
                        == value_at(*old(self), p) by {
                        if p.len() == 0 {
                            assert(p =~= key);
                        } else {
                            assert(self.children@ == old(self).children@);
                        }
                    }
                }
                Ok(())
            }
        } else if segs[i].as_str().is_empty() {
            proof {
                assert(dv.skip(i as int)[0] == dv[i as int]);
                assert(dv[i as int] == segs@[i as int]@);
                assert(dv.skip(i as int).drop_first() =~= dv.skip(i + 1));
                assert(key == nonempty_segs(dv.skip(i + 1)));
            }
            self.insert_from(segs, i + 1, data)
        } else {
            let ghost seg = segs@[i as int]@;
            proof {
                assert(dv.skip(i as int)[0] == dv[i as int]);
                assert(dv[i as int] == seg);
                assert(dv.skip(i as int).drop_first() =~= dv.skip(i + 1));
                assert(key == seq![seg] + nonempty_segs(dv.skip(i + 1)));
                assert(key[0] == seg);
                assert(key.drop_first() =~= nonempty_segs(dv.skip(i + 1)));
            }
            let j: usize = match self.find_child_index(&segs[i]) {
                Some(found) => found,
                None => {
                    let ghost before = *self;
                    let fresh: RoutingNode<T> = RoutingNode::new();
                    self.children.push((segs[i].clone(), fresh));
                    proof {
                        let cs = before.children@;
                        let entry = self.children@.last();
                        assert(entry.0@ == seg);
                        assert(self.children@ == cs.push(entry));
                        assert(self.value == before.value);
                        // keys stay unique and every node below stays well formed
                        assert forall|a: int, b: int|
                            0 <= a < b < self.children@.len() implies self.children@[a].0@
                            != self.children@[b].0@ by {
                            if b < cs.len() {
                                assert(self.children@[a] == cs[a]);
                                assert(self.children@[b] == cs[b]);
                            } else {
                                assert(self.children@[a] == cs[a]);
                                assert(cs[a].0@ != seg);
                            }
                        }
                        assert forall|a: int|
                            0 <= a < self.children@.len() implies (#[trigger] self.children@[a].1).wf() by {
                            if a < cs.len() {
                                assert(self.children@[a] == cs[a]);
                            } else {
                                assert(self.children@[a] == entry);
                            }
                        }
                        // the fresh empty child stores nothing, so no route moves
                        assert forall|p: Seq<Seq<char>>| #[trigger] value_at(*self, p)
                            == value_at(before, p) by {
                            if p.len() == 0 {
                            } else {
                                lemma_child_in_push(cs, entry, p[0]);
                                if child_in(cs, p[0]) is Some {
                                } else if p[0] == seg {
                                    assert(entry.1 == fresh);
                                    assert(value_at(fresh, p.drop_first()) is None);
                                } else {
                                }
                            }
                        }
                    }
                    self.children.len() - 1
                },
            };
            proof {
                assert(self.children@[j as int].0@ == seg);
                assert forall|k: int|
                    0 <= k < self.children@.len() && k != j implies (
                #[trigger] self.children@[k]).0@ != seg by {}
            }
            let ghost mid = *self;
            let res = (&mut self.children[j].1).insert_from(segs, i + 1, data);
            proof {
                let subkey = nonempty_segs(dv.skip(i + 1));
                let old_child = mid.children@[j as int].1;
                let new_child = self.children@[j as int].1;
                assert(self.children@ == mid.children@.update(
                    j as int,
                    (mid.children@[j as int].0, new_child),
                ));
                assert(self.value == mid.value);
                // the parent stays well formed
                assert forall|a: int, b: int|
                    0 <= a < b < self.children@.len() implies self.children@[a].0@
                    != self.children@[b].0@ by {
                    assert(self.children@[a].0@ == mid.children@[a].0@);
                    assert(self.children@[b].0@ == mid.children@[b].0@);
                }
                assert forall|a: int|
                    0 <= a < self.children@.len() implies (#[trigger] self.children@[a].1).wf() by {
                    if a == j {
                    } else {
                        assert(self.children@[a] == mid.children@[a]);
                    }
                }
                // how each stored route relates to the old tree
                assert forall|p: Seq<Seq<char>>|
                    p != key implies #[trigger] value_at(*self, p) == value_at(mid, p) by {
                    if p.len() == 0 {
                    } else {
                        lemma_child_in_update(
                            mid.children@,
                            j as int,
                            (mid.children@[j as int].0, new_child),
                            p[0],
                        );
                        if p[0] == seg {
                            assert(p =~= seq![p[0]] + p.drop_first());
                            if p.drop_first() == subkey {
                                assert(p =~= key);
                            }
                            assert(p.drop_first() != subkey);
                            assert(value_at(new_child, p.drop_first()) == value_at(
                                old_child,
                                p.drop_first(),
                            ));
                            lemma_child_in_first_at(mid.children@, seg, j as int);
                        } else {
                        }
                    }
                }
                lemma_child_in_update(
                    mid.children@,
                    j as int,
                    (mid.children@[j as int].0, new_child),
                    seg,
                );
                lemma_child_in_first_at(mid.children@, seg, j as int);
                assert(value_at(*self, key) == value_at(new_child, subkey));
                assert(value_at(mid, key) == value_at(old_child, subkey));
                if res is Err {
                    assert forall|p: Seq<Seq<char>>| #[trigger] value_at(*self, p) == value_at(
                        mid,
                        p,
                    ) by {
                        if p.len() == 0 {
                        } else {
                            lemma_child_in_update(
                                mid.children@,
                                j as int,
                                (mid.children@[j as int].0, new_child),
                                p[0],
                            );
                            if p[0] == seg {
                                lemma_child_in_first_at(mid.children@, seg, j as int);
                            }
                        }
                    }
                }
            }
            res
        }
    }

    /// Inserts a value for a path, given as its segments.
    ///
    /// Empty segments are ignored. When the node addressed by the path
    /// already carries a value, the insertion fails with
    /// `ConflictingRouteError` and no route changes; otherwise exactly this
    /// one route is added.
    pub fn insert_segments(&mut self, segs: &Vec<String>, data: T) -> (r: Result<
        (),
        ConflictingRouteError,
    >)
        requires
            old(self).wf(),
        ensures
            final(self).wf(),
            r is Err <==> value_at(*old(self), nonempty_segs(segs.deep_view())) is Some,
            match r {
                Ok(()) => {
                    &&& value_at(*final(self), nonempty_segs(segs.deep_view())) == Some(data)
                    &&& forall|p: Seq<Seq<char>>|
                        p != nonempty_segs(segs.deep_view()) ==> #[trigger] value_at(
                            *final(self),
                            p,
                        ) == value_at(*old(self), p)
                },
                Err(_) => forall|p: Seq<Seq<char>>| #[trigger]
                    value_at(*final(self), p) == value_at(*old(self), p),
            },
    {
        proof {
            assert(segs.deep_view().skip(0) =~= segs.deep_view());
        }
        self.insert_from(segs, 0, data)
    }

    /// Whether a value is stored at exactly the path that starts at
    /// position `i`, empty segments ignored.
    fn has_value_from(&self, segs: &Vec<String>, i: usize) -> (r: bool)
        requires
            i <= segs@.len(),
        ensures
            r == (value_at(*self, nonempty_segs(segs.deep_view().skip(i as int))) is Some),
        decreases segs@.len() - i,
    {
        let ghost dv = segs.deep_view();
        proof {
            assert(dv.len() == segs@.len());
        }
        if i == segs.len() {
            proof {
                assert(dv.skip(i as int) =~= Seq::<Seq<char>>::empty());
            }
            self.value.is_some()
        } else {
            proof {
                assert(dv.skip(i as int)[0] == dv[i as int]);
                assert(dv[i as int] == segs@[i as int]@);
                assert(dv.skip(i as int).drop_first() =~= dv.skip(i + 1));
            }
            if segs[i].as_str().is_empty() {
                self.has_value_from(segs, i + 1)
            } else {
                proof {
                    let key = nonempty_segs(dv.skip(i as int));
                    assert(key == seq![dv[i as int]] + nonempty_segs(dv.skip(i + 1)));
                    assert(key[0] == dv[i as int]);
                    assert(key.drop_first() =~= nonempty_segs(dv.skip(i + 1)));
                }
                match self.find_child(&segs[i]) {
                    Some(child) => child.has_value_from(segs, i + 1),
                    None => false,
                }
            }
        }
    }

    /// Adds a route for an absolute path given as a string.
    ///
    /// The path must parse; it is normalized before insertion. Inserting a
    /// second value for the same normalized path fails with
    /// `ConflictingRouteError`, and no route changes.
    pub fn add_route_by_path(&mut self, path: &str, data: T) -> (r: Result<
        (),
        ConflictingRouteError,
    >)
        requires
            old(self).wf(),
            bindings::path_segments_of(path@) is Some,
        ensures
            final(self).wf(),
            r is Err <==> value_at(
                *old(self),
                nonempty_segs(bindings::path_segments_of(path@).unwrap()),
            ) is Some,
            match r {
                Ok(()) => {
                    &&& value_at(
                        *final(self),
                        nonempty_segs(bindings::path_segments_of(path@).unwrap()),
                    ) == Some(data)
                    &&& forall|p: Seq<Seq<char>>|
                        p != nonempty_segs(bindings::path_segments_of(path@).unwrap())
                            ==> #[trigger] value_at(*final(self), p) == value_at(*old(self), p)
                },
                Err(_) => forall|p: Seq<Seq<char>>| #[trigger]
                    value_at(*final(self), p) == value_at(*old(self), p),
            },
    {
        match bindings::parse_path_segments(path) {
            Some(segs) => self.insert_segments(&segs, data),
            None => vstd::pervasive::unreached(),
        }
    }

    /// Adds a route for an absolute path given as a string, for paths known
    /// to be well formed and free. The path must parse and no value may be
    /// registered for its normalized form yet; `try_add_route` checks both.
    pub fn add_route(&mut self, path: &str, data: T)
        requires
            old(self).wf(),
            bindings::path_segments_of(path@) is Some,
            value_at(
                *old(self),
                nonempty_segs(bindings::path_segments_of(path@).unwrap()),
            ) is None,
        ensures
            final(self).wf(),
            value_at(*final(self), nonempty_segs(bindings::path_segments_of(path@).unwrap()))
                == Some(data),
            forall|p: Seq<Seq<char>>|
                p != nonempty_segs(bindings::path_segments_of(path@).unwrap()) ==> #[trigger] value_at(
                    *final(self),
                    p,
                ) == value_at(*old(self), p),
    {
        let r = self.add_route_by_path(path, data);
        proof {
            assert(r is Ok);
        }
    }

    /// Adds a route for an absolute path given as a string, checking
    /// everything: `None` reports a path that does not parse and leaves the
    /// routes unchanged, `Some(Err(..))` a conflicting route.
    pub fn try_add_route(&mut self, path: &str, data: T) -> (r: Option<Result<
        (),
        ConflictingRouteError,
    >>)
        requires
            old(self).wf(),
        ensures
            final(self).wf(),
            r is Some <==> bindings::path_segments_of(path@) is Some,
            match r {
                Some(inner) => {
                    &&& (inner is Err <==> value_at(
                        *old(self),
                        nonempty_segs(bindings::path_segments_of(path@).unwrap()),
                    ) is Some)
                    &&& match inner {
                        Ok(()) => {
                            &&& value_at(
                                *final(self),
                                nonempty_segs(bindings::path_segments_of(path@).unwrap()),
                            ) == Some(data)
                            &&& forall|p: Seq<Seq<char>>|
                                p != nonempty_segs(bindings::path_segments_of(path@).unwrap())
                                    ==> #[trigger] value_at(*final(self), p) == value_at(
                                    *old(self),
                                    p,
                                )
                        },
                        Err(_) => forall|p: Seq<Seq<char>>| #[trigger]
                            value_at(*final(self), p) == value_at(*old(self), p),
                    }
                },
                None => *final(self) == *old(self),
            },
    {
        match bindings::parse_path_segments(path) {
            Some(segs) => {
                if self.has_value_from(&segs, 0) {
                    proof {
                        assert(segs.deep_view().skip(0) =~= segs.deep_view());
                    }
                    Some(Err(ConflictingRouteError()))
                } else {
                    proof {
                        assert(segs.deep_view().skip(0) =~= segs.deep_view());
                    }
                    self.add_route(path, data);
                    Some(Ok(()))
                }
            },
            None => None,
        }
    }

    /// Attempts to find a value for a path, given as its segments.
    ///
    /// Empty segments are ignored. The value stored at the longest inserted
    /// prefix of the path is returned, together with the trailing segments:
    /// those of the path that follow the matched prefix. Without a match
    /// (no prefix of the path carries a value) the result is `None`.
    pub fn match_path(&self, path: &Vec<String>) -> (r: Option<(Vec<String>, &T)>)
        ensures
            match r {
                Some((trailing, v)) => spec_lookup(*self, nonempty_segs(path.deep_view()))
                    == Some((trailing.deep_view(), *v)),
                None => spec_lookup(*self, nonempty_segs(path.deep_view())) is None,
            },
    {
        let ghost pdv = path.deep_view();
        let mut clean: Vec<String> = Vec::new();
        let mut i: usize = 0;
        proof {
            assert(pdv.skip(0) =~= pdv);
            assert(clean.deep_view() + nonempty_segs(pdv) =~= nonempty_segs(pdv));
        }
        while i < path.len()
            invariant
                pdv == path.deep_view(),
                pdv.len() == path@.len(),
                i <= path.len(),
                nonempty_segs(pdv) == clean.deep_view() + nonempty_segs(pdv.skip(i as int)),
            decreases path.len() - i,
        {
            proof {
                assert(pdv.skip(i as int)[0] == pdv[i as int]);
                assert(pdv[i as int] == path@[i as int]@);
                assert(pdv.skip(i as int).drop_first() =~= pdv.skip(i + 1));
            }
            let ghost clean_pre = clean.deep_view();
            if !path[i].as_str().is_empty() {
                clean.push(path[i].clone());
                proof {
                    assert(clean.deep_view() =~= clean_pre.push(pdv[i as int]));
                    assert(clean_pre + (seq![pdv[i as int]] + nonempty_segs(pdv.skip(i + 1)))
                        =~= clean.deep_view() + nonempty_segs(pdv.skip(i + 1)));
                }
            }
            i += 1;
        }
        proof {
            assert(pdv.skip(path@.len() as int) =~= Seq::<Seq<char>>::empty());
            assert(clean.deep_view() + nonempty_segs(Seq::empty()) =~= clean.deep_view());
            assert(clean.deep_view().skip(0) =~= clean.deep_view());
        }
        match self.match_from(&clean, 0) {
            Some((j, v)) => {
                let ghost cdv = clean.deep_view();
                let mut trailing: Vec<String> = Vec::new();
                let mut k: usize = j;
                proof {
                    assert(trailing.deep_view() =~= cdv.subrange(j as int, j as int));
                }
                while k < clean.len()
                    invariant
                        cdv == clean.deep_view(),
                        cdv.len() == clean@.len(),
                        j <= k <= clean.len(),
                        trailing.deep_view() == cdv.subrange(j as int, k as int),
                    decreases clean.len() - k,
                {
                    let ghost trail_pre = trailing.deep_view();
                    trailing.push(clean[k].clone());
                    proof {
                        assert(trailing.deep_view() =~= trail_pre.push(cdv[k as int]));
                        assert(trailing.deep_view() =~= cdv.subrange(j as int, k + 1));
                    }
                    k += 1;
                }
                proof {
                    assert(cdv.subrange(j as int, clean@.len() as int) =~= cdv.skip(j as int));
                }
                Some((trailing, v))
            },
            None => None,
        }
    }

    /// Attempts to identify a route for a request.
    ///
    /// The request's normalized path segments are looked up as in
    /// [`RoutingNode::match_path`]: the value at the longest inserted prefix
    /// wins, and the trailing segments come back beside it.
    pub fn match_request(&self, req: &crate::types::request::Request) -> (r: Option<
        (Vec<String>, &T),
    >)
        ensures
            r matches Some((trailing, v)) ==> exists|p: Seq<Seq<char>>| #[trigger]
                spec_lookup(*self, p) == Some((trailing.deep_view(), *v)),
            r is None ==> exists|p: Seq<Seq<char>>| #[trigger] spec_lookup(*self, p) is None,
    {
        let segs = bindings::uri_normalized_segments(req.uri());
        let r = self.match_path(&segs);
        proof {
            let witness = nonempty_segs(segs.deep_view());
            if r is Some {
                assert(spec_lookup(*self, witness) == Some(
                    (r.unwrap().0.deep_view(), *r.unwrap().1),
                ));
            } else {
                assert(spec_lookup(*self, witness) is None);
            }
        }
        r
    }

    /// Recursively shrinks the child lists to fit, freeing the spare
    /// capacity left over from insertion. No route changes: every stored
    /// value, every lookup and well-formedness stay as they were.
    pub fn shrink(&mut self)
        ensures
            forall|p: Seq<Seq<char>>| #[trigger]
                value_at(*final(self), p) == value_at(*old(self), p),
            forall|p: Seq<Seq<char>>| #[trigger]
                spec_lookup(*final(self), p) == spec_lookup(*old(self), p),
            final(self).wf() == old(self).wf(),
        decreases *old(self),
    {
        vec_shrink_to_fit(&mut self.children);
        let n = self.children.len();
        let mut j: usize = 0;
        while j < n
            invariant
                n == self.children@.len(),
                j <= n,
                self.value == old(self).value,
                self.children@.len() == old(self).children@.len(),
                forall|k: int|
                    0 <= k < n ==> (#[trigger] self.children@[k]).0 == old(self).children@[k].0,
                forall|k: int|
                    j <= k < n ==> (#[trigger] self.children@[k]).1 == old(self).children@[k].1,
                forall|k: int, q: Seq<Seq<char>>|
                    0 <= k < n ==> #[trigger] value_at(self.children@[k].1, q) == value_at(
                        old(self).children@[k].1,
                        q,
                    ),
                forall|k: int, q: Seq<Seq<char>>|
                    0 <= k < n ==> #[trigger] spec_lookup(self.children@[k].1, q) == spec_lookup(
                        old(self).children@[k].1,
                        q,
                    ),
                forall|k: int|
                    0 <= k < n ==> (#[trigger] self.children@[k]).1.wf()
                        == old(self).children@[k].1.wf(),
            decreases n - j,
        {
            proof {
                assert(self.children@[j as int].1 == old(self).children@[j as int].1);
                assert(decreases_to!(*old(self) => old(self).children));
                assert(decreases_to!(old(self).children => old(self).children@));
                assert(decreases_to!(old(self).children@ => old(self).children@[j as int]));
                assert(decreases_to!(old(self).children@[j as int] => old(
                    self,
                ).children@[j as int].1));
            }
            let ghost pre = self.children@;
            (&mut self.children[j].1).shrink();
            proof {
                assert forall|k: int|
                    0 <= k < n && k != j implies self.children@[k] == pre[k] by {}
            }
            j += 1;
        }
        proof {
            let a = *self;
            let b = *old(self);
            assert forall|p: Seq<Seq<char>>| #[trigger] value_at(a, p) == value_at(b, p) by {
                if p.len() > 0 {
                    assert forall|k: int|
                        0 <= k < a.children@.len() implies (#[trigger] a.children@[k]).0@
                        == b.children@[k].0@ by {
                        assert(a.children@[k].0 == b.children@[k].0);
                    }
                    lemma_child_in_parallel(a.children@, b.children@, p[0]);
                    if child_in(a.children@, p[0]) is Some {
                        let w = choose|w: int|
                            0 <= w < a.children@.len() && #[trigger] a.children@[w].1 == child_in(
                                a.children@,
                                p[0],
                            ).unwrap() && b.children@[w].1 == child_in(b.children@, p[0]).unwrap();
                        assert(value_at(a.children@[w].1, p.drop_first()) == value_at(
                            b.children@[w].1,
                            p.drop_first(),
                        ));
                    }
                }
            }
            assert forall|p: Seq<Seq<char>>| #[trigger] spec_lookup(a, p) == spec_lookup(b, p) by {
                if p.len() > 0 {
                    assert forall|k: int|
                        0 <= k < a.children@.len() implies (#[trigger] a.children@[k]).0@
                        == b.children@[k].0@ by {
                        assert(a.children@[k].0 == b.children@[k].0);
                    }
                    lemma_child_in_parallel(a.children@, b.children@, p[0]);
                    if child_in(a.children@, p[0]) is Some {
                        let w = choose|w: int|
                            0 <= w < a.children@.len() && #[trigger] a.children@[w].1 == child_in(
                                a.children@,
                                p[0],
                            ).unwrap() && b.children@[w].1 == child_in(b.children@, p[0]).unwrap();
                        assert(spec_lookup(a.children@[w].1, p.drop_first()) == spec_lookup(
                            b.children@[w].1,
                            p.drop_first(),
                        ));
                    }
                }
            }
            assert(a.wf() == b.wf()) by {
                assert forall|k: int|
                    0 <= k < a.children@.len() implies (#[trigger] a.children@[k]).0@
                    == b.children@[k].0@ && a.children@[k].1.wf() == b.children@[k].1.wf() by {
                    assert(a.children@[k].0 == b.children@[k].0);
                }
                if a.wf() {
                    assert forall|x: int, y: int|
                        0 <= x < y < b.children@.len() implies b.children@[x].0@
                        != b.children@[y].0@ by {
                        assert(a.children@[x].0@ != a.children@[y].0@);
                    }
                    assert forall|x: int|
                        0 <= x < b.children@.len() implies (#[trigger] b.children@[x].1).wf() by {
                        assert(a.children@[x].1.wf());
                    }
                }
                if b.wf() {
                    assert forall|x: int, y: int|
                        0 <= x < y < a.children@.len() implies a.children@[x].0@
                        != a.children@[y].0@ by {
                        assert(b.children@[x].0@ != b.children@[y].0@);
                    }
                    assert forall|x: int|
                        0 <= x < a.children@.len() implies (#[trigger] a.children@[x].1).wf() by {
                        assert(b.children@[x].1.wf());
                    }
                }
            }
        }
    }
}

impl<T> Default for RoutingNode<T> {
    /// An empty routing tree.
    fn default() -> (r: RoutingNode<T>)
        ensures
            r.wf(),
            forall|p: Seq<Seq<char>>| #[trigger] value_at(r, p) is None,
            forall|p: Seq<Seq<char>>| #[trigger] spec_lookup(r, p) is None,
    {
        RoutingNode::new()
    }
}

/// The longest-prefix law: when a lookup of `path` finds something, what it
/// returns is the value stored at the longest prefix of `path` that carries
/// a value, and the trailing segments are exactly the rest of the path; when
/// it finds nothing, no prefix of `path` carries a value.
pub proof fn lemma_longest_prefix_match<T>(node: RoutingNode<T>, path: Seq<Seq<char>>)
    ensures
        match spec_lookup(node, path) {
            Some((trailing, v)) => exists|k: int|
                {
                    &&& 0 <= k <= path.len()
                    &&& trailing == path.subrange(k, path.len() as int)
                    &&& value_at(node, #[trigger] path.subrange(0, k)) == Some(v)
                    &&& forall|m: int|
                        k < m <= path.len() ==> value_at(
                            node,
                            #[trigger] path.subrange(0, m),
                        ) is None
                },
            None => forall|m: int|
                0 <= m <= path.len() ==> value_at(node, #[trigger] path.subrange(0, m)) is None,
        },
    decreases path.len(),
{
    assert(path.subrange(0, 0) =~= Seq::<Seq<char>>::empty());
    assert(value_at(node, Seq::<Seq<char>>::empty()) == node.value);
    if path.len() == 0 {
        match node.value {
            Some(v) => {
                assert(spec_lookup(node, path) == Some((path, v)));
                assert(path.subrange(0, path.len() as int) =~= path);
                assert(0 <= 0 <= path.len() && path == path.subrange(0, path.len() as int)
                    && value_at(node, path.subrange(0, 0)) == Some(v) && forall|m: int|
                    0 < m <= path.len() ==> value_at(node, #[trigger] path.subrange(0, m)) is None);
            },
            None => {},
        }
    } else {
        let dp = path.drop_first();
        match child_in(node.children@, path[0]) {
            Some(child) => {
                lemma_longest_prefix_match(child, dp);
                assert forall|m: int|
                    1 <= m <= path.len() implies value_at(node, #[trigger] path.subrange(0, m))
                    == value_at(child, dp.subrange(0, m - 1)) by {
                    let pre = path.subrange(0, m);
                    assert(pre[0] == path[0]);
                    assert(pre.drop_first() =~= dp.subrange(0, m - 1));
                }
                match spec_lookup(child, dp) {
                    Some((t2, v2)) => {
                        assert(spec_lookup(node, path) == Some((t2, v2)));
                        let k2 = choose|k2: int|
                            {
                                &&& 0 <= k2 <= dp.len()
                                &&& t2 == dp.subrange(k2, dp.len() as int)
                                &&& value_at(child, #[trigger] dp.subrange(0, k2)) == Some(v2)
                                &&& forall|m: int|
                                    k2 < m <= dp.len() ==> value_at(
                                        child,
                                        #[trigger] dp.subrange(0, m),
                                    ) is None
                            };
                        let k = k2 + 1;
                        assert(path.subrange(k, path.len() as int) =~= dp.subrange(
                            k2,
                            dp.len() as int,
                        ));
                        assert(path.subrange(0, k).drop_first() =~= dp.subrange(0, k2));
                        assert(value_at(node, path.subrange(0, k)) == Some(v2));
                        assert forall|m: int|
                            k < m <= path.len() implies value_at(
                            node,
                            #[trigger] path.subrange(0, m),
                        ) is None by {
                            assert(value_at(child, dp.subrange(0, m - 1)) is None);
                        }
                    },
                    None => {
                        match node.value {
                            Some(v) => {
                                assert(spec_lookup(node, path) == Some((path, v)));
                                assert(path.subrange(0, path.len() as int) =~= path);
                                assert forall|m: int|
                                    0 < m <= path.len() implies value_at(
                                    node,
                                    #[trigger] path.subrange(0, m),
                                ) is None by {
                                    assert(value_at(child, dp.subrange(0, m - 1)) is None);
                                }
                                assert(0 <= 0 <= path.len() && path == path.subrange(
                                    0,
                                    path.len() as int,
                                ) && value_at(node, path.subrange(0, 0)) == Some(v));
                            },
                            None => {
                                assert forall|m: int|
                                    0 <= m <= path.len() implies value_at(
                                    node,
                                    #[trigger] path.subrange(0, m),
                                ) is None by {
                                    if m > 0 {
                                        assert(value_at(child, dp.subrange(0, m - 1)) is None);
                                    }
                                }
                            },
                        }
                    },
                }
            },
            None => {
                assert forall|m: int|
                    1 <= m <= path.len() implies value_at(
                    node,
                    #[trigger] path.subrange(0, m),
                ) is None by {
                    let pre = path.subrange(0, m);
                    assert(pre[0] == path[0]);
                }
                match node.value {
                    Some(v) => {
                        assert(spec_lookup(node, path) == Some((path, v)));
                        assert(path.subrange(0, path.len() as int) =~= path);
                        assert(0 <= 0 <= path.len() && path == path.subrange(0, path.len() as int)
                            && value_at(node, path.subrange(0, 0)) == Some(v));
                    },
                    None => {},
                }
            },
        }
    }
}

/// The normalization law: empty segments are ignored, so a path with an
/// empty segment inserted anywhere addresses the same routes as the path
/// without it. In particular `/a/`, whose segments are `a` and an empty
/// one, addresses the node of `/a`: insertion and lookup both work on
/// `nonempty_segs` of their input.
pub proof fn lemma_empty_segment_ignored(a: Seq<Seq<char>>, b: Seq<Seq<char>>)
    ensures
        nonempty_segs(a + seq![Seq::<char>::empty()] + b) == nonempty_segs(a + b),
    decreases a.len(),
{
    if a.len() == 0 {
        assert(a + seq![Seq::<char>::empty()] + b =~= seq![Seq::<char>::empty()] + b);
        let s = seq![Seq::<char>::empty()] + b;
        assert(s[0].len() == 0);
        assert(s.drop_first() =~= b);
        assert(a + b =~= b);
    } else {
        let s = a + seq![Seq::<char>::empty()] + b;
        let t = a + b;
        assert(s[0] == a[0]);
        assert(t[0] == a[0]);
        assert(s.len() > 0 && t.len() > 0);
        assert(s.drop_first() =~= a.drop_first() + seq![Seq::<char>::empty()] + b);
        assert(t.drop_first() =~= a.drop_first() + b);
        lemma_empty_segment_ignored(a.drop_first(), b);
    }
}

} // verus!
