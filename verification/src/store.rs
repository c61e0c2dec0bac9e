//! The path-addressed store: one owned value tree, read and mutated only
//! through path operations, with auto-vivification of missing containers on
//! writes and atomic failure (a failed operation leaves the tree untouched).

use vstd::prelude::*;
use crate::node::{Node, Val, arr_view, obj_view, lemma_arr_view, lemma_obj_view};
use crate::path::{Seg, SegV, PathExpr};

verus! {

broadcast use vstd::std_specs::vec::group_vec_axioms;

/// The first position at or after `j` whose entry is keyed `k`, or the number
/// of entries when none is.
pub open spec fn find_key(fs: Seq<(Seq<char>, Val)>, k: Seq<char>, j: int) -> int
    decreases fs.len() - j,
{
    if j < 0 || j >= fs.len() {
        fs.len() as int
    } else if fs[j].0 == k {
        j
    } else {
        find_key(fs, k, j + 1)
    }
}

/// The value mapped to `k`, if any.
pub open spec fn obj_lookup(fs: Seq<(Seq<char>, Val)>, k: Seq<char>) -> Option<Val> {
    let j = find_key(fs, k, 0);
    if j < fs.len() {
        Some(fs[j].1)
    } else {
        None
    }
}

/// The value addressed by the segments of `p` from position `i` on, starting
/// at `slot` (`None` = an absent slot); `None` when the path is unresolved.
pub open spec fn get_val(slot: Option<Val>, p: Seq<SegV>, i: int) -> Option<Val>
    decreases p.len() - i,
{
    match slot {
        Option::None => Option::None,
        Option::Some(v) => if i < 0 || i >= p.len() {
            Option::Some(v)
        } else {
            match p[i] {
                SegV::Key(k) => match v {
                    Val::Obj(fs) => get_val(obj_lookup(fs, k), p, i + 1),
                    _ => Option::None,
                },
                SegV::Idx(n) => match v {
                    Val::Arr(es) => get_val(
                        if 0 <= n < es.len() {
                            Some(es[n])
                        } else {
                            None
                        },
                        p,
                        i + 1,
                    ),
                    _ => Option::None,
                },
            }
        },
    }
}

/// What a write places in the final slot: a whole value, or a resize of the
/// array found there.
pub enum LeafOpV {
    Put(Val),
    Resize(int),
}

/// `es` grown or truncated to length `n`: existing entries kept, growth
/// padded with nulls.
pub open spec fn arr_resized(es: Seq<Val>, n: int) -> Seq<Val> {
    Seq::new(
        n as nat,
        |t: int|
            if t < es.len() {
                es[t]
            } else {
                Val::Null
            },
    )
}

/// `es` padded with nulls so that position `n` exists, with position `n` set
/// to `c`.
pub open spec fn arr_set(es: Seq<Val>, n: int, c: Val) -> Seq<Val> {
    Seq::new(
        if n < es.len() {
            es.len()
        } else {
            (n + 1) as nat
        },
        |t: int|
            if t == n {
                c
            } else if t < es.len() {
                es[t]
            } else {
                Val::Null
            },
    )
}

/// The final slot's new value, or `None` on a shape mismatch: a resize needs
/// an array or an absent slot.
pub open spec fn apply_leaf(slot: Option<Val>, op: LeafOpV) -> Option<Val> {
    match op {
        LeafOpV::Put(v) => Some(v),
        LeafOpV::Resize(n) => match slot {
            Option::None => Some(Val::Arr(arr_resized(Seq::empty(), n))),
            Option::Some(Val::Arr(es)) => Some(Val::Arr(arr_resized(es, n))),
            Option::Some(_) => Option::None,
        },
    }
}

/// The tree after writing `op` at the slot addressed by `p` from `i` on,
/// starting at `slot`. Missing intermediate containers are auto-vivified: a
/// mapping for a key segment, an array (null-padded) for an index segment.
/// `Err(d)` reports a shape mismatch at the slot addressed by the first `d`
/// segments.
pub open spec fn update_val(slot: Option<Val>, p: Seq<SegV>, i: int, op: LeafOpV) -> Result<
    Val,
    int,
>
    decreases p.len() - i,
{
    if i < 0 || i >= p.len() {
        match apply_leaf(slot, op) {
            Some(v) => Ok(v),
            None => Err(i),
        }
    } else {
        match p[i] {
            SegV::Key(k) => {
                let fs = match slot {
                    Option::None => Some(Seq::<(Seq<char>, Val)>::empty()),
                    Option::Some(Val::Obj(fs)) => Some(fs),
                    Option::Some(_) => None,
                };
                match fs {
                    None => Err(i),
                    Some(fs) => {
                        let j = find_key(fs, k, 0);
                        let child = if j < fs.len() {
                            Some(fs[j].1)
                        } else {
                            None
                        };
                        match update_val(child, p, i + 1, op) {
                            Err(d) => Err(d),
                            Ok(c) => Ok(
                                Val::Obj(
                                    if j < fs.len() {
                                        fs.update(j, (k, c))
                                    } else {
                                        fs.push((k, c))
                                    },
                                ),
                            ),
                        }
                    }
                }
            }
            SegV::Idx(n) => {
                if n < 0 {
                    Err(i)
                } else {
                    let es = match slot {
                        Option::None => Some(Seq::<Val>::empty()),
                        Option::Some(Val::Arr(es)) => Some(es),
                        Option::Some(_) => None,
                    };
                    match es {
                        None => Err(i),
                        Some(es) => {
                            let child = if n < es.len() {
                                Some(es[n])
                            } else {
                                None
                            };
                            match update_val(child, p, i + 1, op) {
                                Err(d) => Err(d),
                                Ok(c) => Ok(Val::Arr(arr_set(es, n, c))),
                            }
                        }
                    }
                }
            }
        }
    }
}

/// The tree after removing the slot addressed by `p` from `i` on, or `None`
/// when the addressed slot's parent does not currently contain it. A removed
/// array element shifts the later elements down by one.
pub open spec fn remove_val(v: Val, p: Seq<SegV>, i: int) -> Option<Val>
    decreases p.len() - i,
{
    if i < 0 || i >= p.len() {
        Option::None
    } else {
        match p[i] {
            SegV::Key(k) => match v {
                Val::Obj(fs) => {
                    let j = find_key(fs, k, 0);
                    if j >= fs.len() {
                        Option::None
                    } else if i == p.len() - 1 {
                        Some(Val::Obj(fs.remove(j)))
                    } else {
                        match remove_val(fs[j].1, p, i + 1) {
                            Option::None => Option::None,
                            Option::Some(c) => Some(Val::Obj(fs.update(j, (k, c)))),
                        }
                    }
                },
                _ => Option::None,
            },
            SegV::Idx(n) => match v {
                Val::Arr(es) => {
                    if n < 0 || n >= es.len() {
                        Option::None
                    } else if i == p.len() - 1 {
                        Some(Val::Arr(es.remove(n)))
                    } else {
                        match remove_val(es[n], p, i + 1) {
                            Option::None => Option::None,
                            Option::Some(c) => Some(Val::Arr(es.update(n, c))),
                        }
                    }
                },
                _ => Option::None,
            },
        }
    }
}

/// A well-formed value: every mapping's keys are distinct, at every depth.
pub open spec fn val_wf(v: Val) -> bool
    decreases v,
{
    match v {
        Val::Arr(es) => forall|t: int| 0 <= t < es.len() ==> val_wf(#[trigger] es[t]),
        Val::Obj(fs) => {
            &&& forall|a: int, b: int|
                0 <= a < b < fs.len() ==> (#[trigger] fs[a].0) != (#[trigger] fs[b].0)
            &&& forall|t: int| 0 <= t < fs.len() ==> val_wf(#[trigger] fs[t].1)
        },
        _ => true,
    }
}

/// A failed store operation.
#[derive(Debug, PartialEq, Eq)]
pub enum StoreError {
    /// The addressed slot is not in the tree.
    NotFound,
    /// A slot along the path exists with an incompatible shape; the payload
    /// is the path prefix addressing that slot.
    TypeMismatch(PathExpr),
}

/// The owned nested value tree. All reads and writes go through
/// path-addressed operations; a failed operation leaves the tree exactly as
/// it was.
#[derive(Debug, PartialEq)]
pub struct PathStore {
    root: Node,
}

impl PathStore {
    /// The value tree this store holds.
    pub closed spec fn view(&self) -> Val {
        self.root@
    }

    /// The store's tree is well formed: mapping keys stay distinct.
    pub open spec fn wf(&self) -> bool {
        val_wf(self@)
    }

    /// A fresh store: one empty mapping at the root.
    pub fn new() -> (r: PathStore)
        ensures
            r@ == Val::Obj(Seq::<(Seq<char>, Val)>::empty()),
            r.wf(),
    {
        PathStore { root: Node::empty_obj() }
    }

    /// A store owning the given tree, which must be well formed.
    pub fn from_root(root: Node) -> (r: PathStore)
        requires
            val_wf(root@),
        ensures
            r@ == root@,
            r.wf(),
    {
        PathStore { root }
    }

    /// Borrows the whole tree (for rendering and persistence).
    pub fn root_node(&self) -> (r: &Node)
        ensures
            r@ == self@,
    {
        &self.root
    }

    /// Reads the value at `p`; `NotFound` when the path is unresolved.
    pub fn get_at(&self, p: &PathExpr) -> (r: Result<&Node, StoreError>)
        ensures
            match r {
                Ok(n) => get_val(Some(self@), p@, 0) == Some(n@),
                Err(e) => e == StoreError::NotFound && get_val(Some(self@), p@, 0) is None,
            },
    {
        match get_node(&self.root, p, 0) {
            Some(n) => Ok(n),
            None => Err(StoreError::NotFound),
        }
    }

    /// Writes `v` into the slot at `p`, creating or overwriting it; missing
    /// intermediate containers are auto-vivified. Fails with `TypeMismatch`
    /// naming the offending prefix if a slot along the path exists with an
    /// incompatible shape, and then leaves the store unchanged.
    pub fn insert_at(&mut self, p: &PathExpr, v: Node) -> (r: Result<(), StoreError>)
        requires
            old(self).wf(),
            val_wf(v@),
        ensures
            final(self).wf(),
            match r {
                Ok(()) => update_val(Some(old(self)@), p@, 0, LeafOpV::Put(v@)) == Ok::<Val, int>(
                    final(self)@,
                ),
                Err(e) => {
                    &&& final(self)@ == old(self)@
                    &&& e matches StoreError::TypeMismatch(q)
                    &&& (e matches StoreError::TypeMismatch(q) ==> {
                        &&& q@ == p@.take(q@.len() as int)
                        &&& update_val(Some(old(self)@), p@, 0, LeafOpV::Put(v@)) == Err::<
                            Val,
                            int,
                        >(q@.len() as int)
                    })
                },
            },
    {
        self.apply_op(p, LeafOp::Put(v))
    }

    /// Resizes the array at `p` to `n` entries: growth appends nulls, a
    /// shrink truncates. The slot must hold an array or be absent (it is then
    /// created); anything else fails with `TypeMismatch` naming the offending
    /// prefix and leaves the store unchanged.
    pub fn resize_array_at(&mut self, p: &PathExpr, n: usize) -> (r: Result<(), StoreError>)
        requires
            old(self).wf(),
        ensures
            final(self).wf(),
            match r {
                Ok(()) => update_val(Some(old(self)@), p@, 0, LeafOpV::Resize(n as int)) == Ok::<
                    Val,
                    int,
                >(final(self)@),
                Err(e) => {
                    &&& final(self)@ == old(self)@
                    &&& e matches StoreError::TypeMismatch(q)
                    &&& (e matches StoreError::TypeMismatch(q) ==> {
                        &&& q@ == p@.take(q@.len() as int)
                        &&& update_val(Some(old(self)@), p@, 0, LeafOpV::Resize(n as int)) == Err::<
                            Val,
                            int,
                        >(q@.len() as int)
                    })
                },
            },
    {
        self.apply_op(p, LeafOp::Resize(n))
    }

    /// Removes the slot at `p`; its parent must currently contain it, else
    /// the call fails with `NotFound` and leaves the store unchanged. A
    /// removed array element shifts the later elements down by one.
    pub fn remove_at(&mut self, p: &PathExpr) -> (r: Result<(), StoreError>)
        requires
            old(self).wf(),
        ensures
            final(self).wf(),
            match r {
                Ok(()) => remove_val(old(self)@, p@, 0) == Some(final(self)@),
                Err(e) => {
                    &&& final(self)@ == old(self)@
                    &&& e == StoreError::NotFound
                    &&& remove_val(old(self)@, p@, 0) is None
                },
            },
    {
        let mut root = Node::Null;
        core::mem::swap(&mut self.root, &mut root);
        proof {
            lemma_remove_preserves_wf(root@, p@, 0);
        }
        match remove_node(root, p, 0) {
            Ok(n) => {
                self.root = n;
                Ok(())
            }
            Err(n) => {
                self.root = n;
                Err(StoreError::NotFound)
            }
        }
    }

    fn apply_op(&mut self, p: &PathExpr, op: LeafOp) -> (r: Result<(), StoreError>)
        requires
            old(self).wf(),
            op matches LeafOp::Put(v) ==> val_wf(v@),
        ensures
            final(self).wf(),
            match r {
                Ok(()) => update_val(Some(old(self)@), p@, 0, op@) == Ok::<Val, int>(final(self)@),
                Err(e) => {
                    &&& final(self)@ == old(self)@
                    &&& e matches StoreError::TypeMismatch(q)
                    &&& (e matches StoreError::TypeMismatch(q) ==> {
                        &&& q@ == p@.take(q@.len() as int)
                        &&& update_val(Some(old(self)@), p@, 0, op@) == Err::<Val, int>(
                            q@.len() as int,
                        )
                    })
                },
            },
    {
        let ghost opv = op@;
        let mut root = Node::Null;
        core::mem::swap(&mut self.root, &mut root);
        proof {
            crate::path::lemma_path_view_ok(p);
            lemma_update_preserves_wf(Some(root@), p@, 0, opv);
        }
        match update_node(Some(root), p, 0, op) {
            Ok(n) => {
                self.root = n;
                Ok(())
            }
            Err((back, d)) => {
                match back {
                    Some(n) => {
                        self.root = n;
                        let q = p.prefix(d);
                        Err(StoreError::TypeMismatch(q))
                    }
                    None => unreached(),
                }
            }
        }
    }
}

/// What a write places in the final slot.
pub enum LeafOp {
    Put(Node),
    Resize(usize),
}

impl LeafOp {
    pub open spec fn view(&self) -> LeafOpV {
        match self {
            LeafOp::Put(v) => LeafOpV::Put(v@),
            LeafOp::Resize(n) => LeafOpV::Resize(*n as int),
        }
    }
}

pub(crate) open spec fn slot_view(s: Option<Node>) -> Option<Val> {
    match s {
        Option::Some(n) => Option::Some(n@),
        Option::None => Option::None,
    }
}

/// Finds the first entry at or after `j` keyed `k`.
pub(crate) fn find_field(fields: &Vec<(String, Node)>, k: &String, j: usize) -> (r: usize)
    requires
        j <= fields@.len(),
    ensures
        r as int == find_key(obj_view(fields@), k@, j as int),
        j <= r <= fields@.len(),
        r < fields@.len() ==> fields@[r as int].0@ == k@,
    decreases fields@.len() - j,
{
    proof {
        lemma_obj_view(fields@);
    }
    if j < fields.len() {
        if fields[j].0 == *k {
            j
        } else {
            find_field(fields, k, j + 1)
        }
    } else {
        j
    }
}

pub(crate) fn get_node<'a>(n: &'a Node, p: &PathExpr, i: usize) -> (r: Option<&'a Node>)
    requires
        i <= p@.len(),
    ensures
        match r {
            Some(m) => get_val(Some(n@), p@, i as int) == Some(m@),
            None => get_val(Some(n@), p@, i as int) is None,
        },
    decreases p@.len() - i,
{
    if i >= p.len() {
        return Some(n);
    }
    proof {
        assert(p@[i as int] == p.segs@[i as int]@);
    }
    match &p.segs[i] {
        Seg::Key(k) => match n {
            Node::Obj(fields) => {
                proof {
                    lemma_obj_view(fields@);
                }
                let j = find_field(fields, k, 0);
                if j < fields.len() {
                    get_node(&fields[j].1, p, i + 1)
                } else {
                    proof {
                        assert(get_val(None::<Val>, p@, i as int + 1) is None);
                    }
                    None
                }
            }
            _ => None,
        },
        Seg::Idx(t) => match n {
            Node::Arr(es) => {
                proof {
                    lemma_arr_view(es@);
                }
                if *t < es.len() {
                    get_node(&es[*t], p, i + 1)
                } else {
                    proof {
                        assert(get_val(None::<Val>, p@, i as int + 1) is None);
                    }
                    None
                }
            }
            _ => None,
        },
    }
}

/// A write never fails below an absent slot: vivification builds the missing
/// containers.
proof fn lemma_vivify_ok(p: Seq<SegV>, i: int, op: LeafOpV)
    requires
        0 <= i,
        crate::path::path_ok(p),
    ensures
        update_val(None, p, i, op) is Ok,
    decreases p.len() - i,
{
    if i < p.len() {
        lemma_vivify_ok(p, i + 1, op);
    }
}

fn make_nulls(n: usize) -> (r: Vec<Node>)
    ensures
        arr_view(r@) =~= arr_resized(Seq::empty(), n as int),
{
    let mut r: Vec<Node> = Vec::new();
    while r.len() < n
        invariant
            r@.len() <= n,
            forall|t: int| 0 <= t < r@.len() ==> r@[t] == Node::Null,
        decreases n - r@.len(),
    {
        r.push(Node::Null);
    }
    proof {
        lemma_arr_view(r@);
        assert(arr_view(r@) =~= arr_resized(Seq::empty(), n as int));
    }
    r
}

fn update_node(slot: Option<Node>, p: &PathExpr, i: usize, op: LeafOp) -> (r: Result<
    Node,
    (Option<Node>, usize),
>)
    requires
        i <= p@.len(),
        crate::path::path_ok(p@),
    ensures
        match r {
            Ok(n) => update_val(slot_view(slot), p@, i as int, op@) == Ok::<Val, int>(n@),
            Err((back, d)) => {
                &&& slot_view(back) == slot_view(slot)
                &&& i <= d <= p@.len()
                &&& update_val(slot_view(slot), p@, i as int, op@) == Err::<Val, int>(d as int)
            },
        },
    decreases p@.len() - i,
{
    let ghost opv = op@;
    if i >= p.len() {
        // The final slot: apply the leaf operation.
        match op {
            LeafOp::Put(v) => Ok(v),
            LeafOp::Resize(n) => {
                match slot {
                    None => Ok(Node::Arr(make_nulls(n))),
                    Some(Node::Arr(mut es)) => {
                        let ghost es0 = es@;
                        if n <= es.len() {
                            es.truncate(n);
                        } else {
                            while es.len() < n
                                invariant
                                    es0.len() <= es@.len() <= n,
                                    es@.take(es0.len() as int) == es0,
                                    forall|t: int|
                                        es0.len() <= t < es@.len() ==> es@[t] == Node::Null,
                                decreases n - es@.len(),
                            {
                                es.push(Node::Null);
                                proof {
                                    assert(es@.take(es0.len() as int) =~= es0);
                                }
                            }
                        }
                        proof {
                            lemma_arr_view(es@);
                            lemma_arr_view(es0);
                            assert(forall|t: int|
                                0 <= t < es@.len() && t < es0.len() ==> es@[t]
                                    == #[trigger] es0[t]);
                            assert(arr_view(es@) =~= arr_resized(arr_view(es0), n as int));
                        }
                        Ok(Node::Arr(es))
                    }
                    Some(other) => Err((Some(other), i)),
                }
            }
        }
    } else {
        match &p.segs[i] {
            Seg::Key(k) => {
                let ghost slot0 = slot_view(slot);
                let mut fields: Vec<(String, Node)> = match slot {
                    None => Vec::new(),
                    Some(Node::Obj(fs)) => fs,
                    Some(other) => {
                        return Err((Some(other), i));
                    }
                };
                proof {
                    lemma_obj_view(fields@);
                    if slot0 is None {
                        assert(obj_view(fields@) =~= Seq::<(Seq<char>, Val)>::empty());
                    }
                }
                let ghost fs0 = obj_view(fields@);
                let j = find_field(&fields, k, 0);
                if j < fields.len() {
                    let (k0, child) = fields.remove(j);
                    match update_node(Some(child), p, i + 1, op) {
                        Ok(c) => {
                            fields.insert(j, (k0, c));
                            proof {
                                lemma_obj_view(fields@);
                                assert(obj_view(fields@) =~= fs0.update(j as int, (k@, c@)));
                            }
                            Ok(Node::Obj(fields))
                        }
                        Err((back, d)) => {
                            match back {
                                Some(c) => {
                                    fields.insert(j, (k0, c));
                                    proof {
                                        lemma_obj_view(fields@);
                                        assert(obj_view(fields@) =~= fs0);
                                        if slot0 is None {
                                            assert(obj_view(fields@) =~= Seq::<(
                                                Seq<char>,
                                                Val,
                                            )>::empty());
                                        }
                                    }
                                    let out = Node::Obj(fields);
                                    proof {
                                        assert(slot0 matches Some(v) ==> out@ == v);
                                    }
                                    Err((Some(out), d))
                                }
                                None => unreached(),
                            }
                        }
                    }
                } else {
                    match update_node(None, p, i + 1, op) {
                        Ok(c) => {
                            fields.push((k.clone(), c));
                            proof {
                                lemma_obj_view(fields@);
                                assert(obj_view(fields@) =~= fs0.push((k@, c@)));
                            }
                            Ok(Node::Obj(fields))
                        }
                        Err((_, _)) => {
                            proof {
                                lemma_vivify_ok(p@, i as int + 1, opv);
                            }
                            unreached()
                        }
                    }
                }
            }
            Seg::Idx(t) => {
                let n: usize = *t;
                let ghost slot0 = slot_view(slot);
                let mut elems: Vec<Node> = match slot {
                    None => Vec::new(),
                    Some(Node::Arr(es)) => es,
                    Some(other) => {
                        return Err((Some(other), i));
                    }
                };
                proof {
                    lemma_arr_view(elems@);
                    if slot0 is None {
                        assert(arr_view(elems@) =~= Seq::<Val>::empty());
                    }
                }
                let ghost es0 = arr_view(elems@);
                if n < elems.len() {
                    let child = elems.remove(n);
                    match update_node(Some(child), p, i + 1, op) {
                        Ok(c) => {
                            elems.insert(n, c);
                            proof {
                                lemma_arr_view(elems@);
                                assert(arr_view(elems@) =~= arr_set(es0, n as int, c@));
                            }
                            Ok(Node::Arr(elems))
                        }
                        Err((back, d)) => {
                            match back {
                                Some(c) => {
                                    elems.insert(n, c);
                                    proof {
                                        lemma_arr_view(elems@);
                                        assert(arr_view(elems@) =~= es0);
                                    }
                                    let out = Node::Arr(elems);
                                    proof {
                                        assert(slot0 matches Some(v) ==> out@ == v);
                                    }
                                    Err((Some(out), d))
                                }
                                None => unreached(),
                            }
                        }
                    }
                } else {
                    match update_node(None, p, i + 1, op) {
                        Ok(c) => {
                            let ghost nodes0 = elems@;
                            while elems.len() < n
                                invariant
                                    nodes0.len() <= elems@.len() <= n,
                                    elems@.take(nodes0.len() as int) == nodes0,
                                    forall|u: int|
                                        nodes0.len() <= u < elems@.len() ==> elems@[u]
                                            == Node::Null,
                                decreases n - elems@.len(),
                            {
                                elems.push(Node::Null);
                                proof {
                                    assert(elems@.take(nodes0.len() as int) =~= nodes0);
                                }
                            }
                            elems.push(c);
                            proof {
                                lemma_arr_view(elems@);
                                lemma_arr_view(nodes0);
                                assert(forall|u: int|
                                    0 <= u < nodes0.len() ==> elems@[u] == #[trigger] nodes0[u]);
                                assert(arr_view(elems@) =~= arr_set(es0, n as int, c@));
                            }
                            Ok(Node::Arr(elems))
                        }
                        Err((_, _)) => {
                            proof {
                                lemma_vivify_ok(p@, i as int + 1, opv);
                            }
                            unreached()
                        }
                    }
                }
            }
        }
    }
}

fn remove_node(v: Node, p: &PathExpr, i: usize) -> (r: Result<Node, Node>)
    requires
        i <= p@.len(),
    ensures
        match r {
            Ok(m) => remove_val(v@, p@, i as int) == Some(m@),
            Err(m) => m@ == v@ && remove_val(v@, p@, i as int) is None,
        },
    decreases p@.len() - i,
{
    if i >= p.len() {
        return Err(v);
    }
    match (&p.segs[i], v) {
        (Seg::Key(k), Node::Obj(mut fields)) => {
            proof {
                lemma_obj_view(fields@);
            }
            let ghost fs0 = obj_view(fields@);
            let j = find_field(&fields, k, 0);
            if j >= fields.len() {
                Err(Node::Obj(fields))
            } else if i + 1 == p.len() {
                let _ = fields.remove(j);
                proof {
                    lemma_obj_view(fields@);
                    assert(obj_view(fields@) =~= fs0.remove(j as int));
                }
                Ok(Node::Obj(fields))
            } else {
                let (k0, child) = fields.remove(j);
                match remove_node(child, p, i + 1) {
                    Ok(c) => {
                        fields.insert(j, (k0, c));
                        proof {
                            lemma_obj_view(fields@);
                            assert(obj_view(fields@) =~= fs0.update(
                                j as int,
                                (p@[i as int]->Key_0, c@),
                            ));
                        }
                        Ok(Node::Obj(fields))
                    }
                    Err(c) => {
                        fields.insert(j, (k0, c));
                        proof {
                            lemma_obj_view(fields@);
                            assert(obj_view(fields@) =~= fs0);
                        }
                        Err(Node::Obj(fields))
                    }
                }
            }
        }
        (Seg::Idx(t), Node::Arr(mut elems)) => {
            proof {
                lemma_arr_view(elems@);
            }
            let ghost es0 = arr_view(elems@);
            let n: usize = *t;
            if n >= elems.len() {
                Err(Node::Arr(elems))
            } else if i + 1 == p.len() {
                let _ = elems.remove(n);
                proof {
                    lemma_arr_view(elems@);
                    assert(arr_view(elems@) =~= es0.remove(n as int));
                }
                Ok(Node::Arr(elems))
            } else {
                let child = elems.remove(n);
                match remove_node(child, p, i + 1) {
                    Ok(c) => {
                        elems.insert(n, c);
                        proof {
                            lemma_arr_view(elems@);
                            assert(arr_view(elems@) =~= es0.update(n as int, c@));
                        }
                        Ok(Node::Arr(elems))
                    }
                    Err(c) => {
                        elems.insert(n, c);
                        proof {
                            lemma_arr_view(elems@);
                            assert(arr_view(elems@) =~= es0);
                        }
                        Err(Node::Arr(elems))
                    }
                }
            }
        }
        (_, other) => Err(other),
    }
}

/// Writes preserve well-formedness: mapping keys stay distinct.
pub proof fn lemma_update_preserves_wf(slot: Option<Val>, p: Seq<SegV>, i: int, op: LeafOpV)
    requires
        match slot {
            Some(v) => val_wf(v),
            None => true,
        },
        match op {
            LeafOpV::Put(v) => val_wf(v),
            LeafOpV::Resize(_) => true,
        },
    ensures
        update_val(slot, p, i, op) matches Ok(w) ==> val_wf(w),
    decreases p.len() - i,
{
    if i < 0 || i >= p.len() {
        match op {
            LeafOpV::Put(_) => {}
            LeafOpV::Resize(m) => {
                match slot {
                    Some(Val::Arr(es)) => {
                        assert forall|t: int|
                            0 <= t < arr_resized(es, m).len() implies val_wf(
                            #[trigger] arr_resized(es, m)[t],
                        ) by {
                            if t < es.len() {
                                assert(val_wf(es[t]));
                            }
                        }
                        assert(val_wf(Val::Arr(arr_resized(es, m))));
                    }
                    None => {
                        let es2 = arr_resized(Seq::<Val>::empty(), m);
                        assert forall|t: int| 0 <= t < es2.len() implies val_wf(
                            #[trigger] es2[t],
                        ) by {}
                        assert(val_wf(Val::Arr(es2)));
                    }
                    _ => {}
                }
            }
        }
    } else {
        match p[i] {
            SegV::Key(k) => {
                let fsopt = match slot {
                    Option::None => Some(Seq::<(Seq<char>, Val)>::empty()),
                    Option::Some(Val::Obj(fs)) => Some(fs),
                    Option::Some(_) => None,
                };
                match fsopt {
                    None => {}
                    Some(fs) => {
                        let j = find_key(fs, k, 0);
                        lemma_find_key_props(fs, k, 0);
                        let child = if j < fs.len() {
                            Some(fs[j].1)
                        } else {
                            None
                        };
                        lemma_update_preserves_wf(child, p, i + 1, op);
                        match update_val(child, p, i + 1, op) {
                            Err(_) => {}
                            Ok(c) => {
                                let fs2 = if j < fs.len() {
                                    fs.update(j, (k, c))
                                } else {
                                    fs.push((k, c))
                                };
                                assert forall|t: int| 0 <= t < fs2.len() implies val_wf(
                                    #[trigger] fs2[t].1,
                                ) by {
                                    if t != j {
                                        assert(val_wf(fs[t].1));
                                    }
                                }
                                assert forall|a: int, b: int|
                                    0 <= a < b < fs2.len() implies (#[trigger] fs2[a].0)
                                    != (#[trigger] fs2[b].0) by {
                                    if b < fs.len() {
                                        assert(fs[a].0 != fs[b].0);
                                    } else {
                                        assert(fs2[b].0 == k);
                                        assert(fs[a].0 != k);
                                    }
                                }
                                assert(val_wf(Val::Obj(fs2)));
                            }
                        }
                    }
                }
            }
            SegV::Idx(n) => {
                if n >= 0 {
                    let esopt = match slot {
                        Option::None => Some(Seq::<Val>::empty()),
                        Option::Some(Val::Arr(es)) => Some(es),
                        Option::Some(_) => None,
                    };
                    match esopt {
                        None => {}
                        Some(es) => {
                            let child = if n < es.len() {
                                Some(es[n])
                            } else {
                                None
                            };
                            lemma_update_preserves_wf(child, p, i + 1, op);
                            match update_val(child, p, i + 1, op) {
                                Err(_) => {}
                                Ok(c) => {
                                    let es2 = arr_set(es, n, c);
                                    assert forall|t: int| 0 <= t < es2.len() implies val_wf(
                                        #[trigger] es2[t],
                                    ) by {
                                        if t != n && t < es.len() {
                                            assert(val_wf(es[t]));
                                        }
                                    }
                                    assert(val_wf(Val::Arr(es2)));
                                }
                            }
                        }
                    }
                }
            }
        }
    }
}

/// Removals preserve well-formedness.
pub proof fn lemma_remove_preserves_wf(v: Val, p: Seq<SegV>, i: int)
    requires
        val_wf(v),
    ensures
        remove_val(v, p, i) matches Some(w) ==> val_wf(w),
    decreases p.len() - i,
{
    if i < 0 || i >= p.len() {
    } else {
        match p[i] {
            SegV::Key(k) => {
                match v {
                    Val::Obj(fs) => {
                        let j = find_key(fs, k, 0);
                        lemma_find_key_props(fs, k, 0);
                        if 0 <= j < fs.len() && i != p.len() - 1 {
                            lemma_remove_preserves_wf(fs[j].1, p, i + 1);
                        }
                    }
                    _ => {}
                }
            }
            SegV::Idx(n) => {
                match v {
                    Val::Arr(es) => {
                        if 0 <= n < es.len() && i != p.len() - 1 {
                            lemma_remove_preserves_wf(es[n], p, i + 1);
                        }
                    }
                    _ => {}
                }
            }
        }
    }
}

/// A lookup finds the entry known to be the first with that key.
pub proof fn lemma_obj_lookup_at(fs: Seq<(Seq<char>, Val)>, k: Seq<char>, j: int)
    requires
        0 <= j < fs.len(),
        fs[j].0 == k,
        forall|u: int| 0 <= u < j ==> (#[trigger] fs[u].0) != k,
    ensures
        obj_lookup(fs, k) == Some(fs[j].1),
        find_key(fs, k, 0) == j,
{
    lemma_find_key_first(fs, k, 0, j);
}

/// A lookup of a key no entry carries finds nothing.
pub proof fn lemma_obj_lookup_none(fs: Seq<(Seq<char>, Val)>, k: Seq<char>)
    requires
        forall|u: int| 0 <= u < fs.len() ==> (#[trigger] fs[u].0) != k,
    ensures
        obj_lookup(fs, k) is None,
{
    lemma_find_key_props(fs, k, 0);
}

/// `find_key` stops at a position known to hold the first match.
pub proof fn lemma_find_key_first(fs: Seq<(Seq<char>, Val)>, k: Seq<char>, t: int, j: int)
    requires
        0 <= t <= j < fs.len(),
        fs[j].0 == k,
        forall|u: int| t <= u < j ==> (#[trigger] fs[u].0) != k,
    ensures
        find_key(fs, k, t) == j,
    decreases j - t,
{
    if t < j {
        lemma_find_key_first(fs, k, t + 1, j);
    }
}

/// Law: a value just written is the value read back at the same path.
pub proof fn lemma_insert_then_get(slot: Option<Val>, p: Seq<SegV>, i: int, v: Val)
    requires
        0 <= i <= p.len(),
        update_val(slot, p, i, LeafOpV::Put(v)) is Ok,
    ensures
        get_val(Some(update_val(slot, p, i, LeafOpV::Put(v))->Ok_0), p, i) == Some(v),
    decreases p.len() - i,
{
    if i >= p.len() {
    } else {
        match p[i] {
            SegV::Key(k) => {
                let fs = match slot {
                    Option::None => Seq::<(Seq<char>, Val)>::empty(),
                    Option::Some(Val::Obj(fs)) => fs,
                    Option::Some(_) => Seq::empty(),
                };
                let j = find_key(fs, k, 0);
                lemma_find_key_props(fs, k, 0);
                let child = if j < fs.len() {
                    Some(fs[j].1)
                } else {
                    None
                };
                lemma_insert_then_get(child, p, i + 1, v);
                let c = update_val(child, p, i + 1, LeafOpV::Put(v))->Ok_0;
                let fs2 = if j < fs.len() {
                    fs.update(j, (k, c))
                } else {
                    fs.push((k, c))
                };
                lemma_find_key_first(fs2, k, 0, j);
                assert(obj_lookup(fs2, k) == Some(c));
            }
            SegV::Idx(n) => {
                let es = match slot {
                    Option::None => Seq::<Val>::empty(),
                    Option::Some(Val::Arr(es)) => es,
                    Option::Some(_) => Seq::empty(),
                };
                let child = if 0 <= n < es.len() {
                    Some(es[n])
                } else {
                    None
                };
                lemma_insert_then_get(child, p, i + 1, v);
                let c = update_val(child, p, i + 1, LeafOpV::Put(v))->Ok_0;
                assert(arr_set(es, n, c)[n] == c);
            }
        }
    }
}

/// The array held in a slot, if any.
pub open spec fn arr_elems(x: Option<Val>) -> Seq<Val> {
    match x {
        Some(Val::Arr(es)) => es,
        _ => Seq::empty(),
    }
}

/// Law: after a resize to `m`, the array read back at the path has exactly
/// `m` entries; the surviving entries are the original ones, unchanged, and
/// growth is null-filled.
pub proof fn lemma_resize_then_get(slot: Option<Val>, p: Seq<SegV>, i: int, m: int)
    requires
        0 <= i <= p.len(),
        update_val(slot, p, i, LeafOpV::Resize(m)) is Ok,
    ensures
        get_val(Some(update_val(slot, p, i, LeafOpV::Resize(m))->Ok_0), p, i) == Some(
            Val::Arr(arr_resized(arr_elems(get_val(slot, p, i)), m)),
        ),
    decreases p.len() - i,
{
    if i >= p.len() {
    } else {
        match p[i] {
            SegV::Key(k) => {
                let fs = match slot {
                    Option::None => Seq::<(Seq<char>, Val)>::empty(),
                    Option::Some(Val::Obj(fs)) => fs,
                    Option::Some(_) => Seq::empty(),
                };
                let j = find_key(fs, k, 0);
                lemma_find_key_props(fs, k, 0);
                let child = if j < fs.len() {
                    Some(fs[j].1)
                } else {
                    None
                };
                lemma_resize_then_get(child, p, i + 1, m);
                let c = update_val(child, p, i + 1, LeafOpV::Resize(m))->Ok_0;
                let fs2 = if j < fs.len() {
                    fs.update(j, (k, c))
                } else {
                    fs.push((k, c))
                };
                lemma_find_key_first(fs2, k, 0, j);
                assert(obj_lookup(fs2, k) == Some(c));
                assert(get_val(slot, p, i) == get_val(child, p, i + 1));
            }
            SegV::Idx(n) => {
                let es = match slot {
                    Option::None => Seq::<Val>::empty(),
                    Option::Some(Val::Arr(es)) => es,
                    Option::Some(_) => Seq::empty(),
                };
                let child = if 0 <= n < es.len() {
                    Some(es[n])
                } else {
                    None
                };
                lemma_resize_then_get(child, p, i + 1, m);
                let c = update_val(child, p, i + 1, LeafOpV::Resize(m))->Ok_0;
                assert(arr_set(es, n, c)[n] == c);
                assert(get_val(slot, p, i) == get_val(child, p, i + 1));
            }
        }
    }
}

/// Past the end of the path, a read hands the slot back.
proof fn lemma_get_past(x: Option<Val>, p: Seq<SegV>, i: int)
    requires
        i >= p.len(),
    ensures
        get_val(x, p, i) == x,
{
}

/// Reading at `p` is reading `p`'s parent, then stepping through the last
/// segment alone.
pub proof fn lemma_get_last(x: Option<Val>, p: Seq<SegV>, i: int)
    requires
        0 <= i < p.len(),
    ensures
        get_val(x, p, i) == get_val(get_val(x, p.take(p.len() - 1), i), seq![p.last()], 0),
    decreases p.len() - i,
{
    let q = p.take(p.len() - 1);
    let s = p.last();
    match x {
        Option::None => {
            assert(get_val(None::<Val>, p, i) is None);
            assert(get_val(None::<Val>, q, i) is None);
            assert(get_val(None::<Val>, seq![s], 0) is None);
        }
        Option::Some(v) => {
            if i == p.len() - 1 {
                lemma_get_past(x, q, i);
                match p[i] {
                    SegV::Key(k) => {
                        match v {
                            Val::Obj(fs) => {
                                lemma_get_past(obj_lookup(fs, k), p, i + 1);
                                lemma_get_past(obj_lookup(fs, k), seq![s], 1);
                            }
                            _ => {}
                        }
                    }
                    SegV::Idx(n) => {
                        match v {
                            Val::Arr(es) => {
                                let child = if 0 <= n < es.len() {
                                    Some(es[n])
                                } else {
                                    None
                                };
                                lemma_get_past(child, p, i + 1);
                                lemma_get_past(child, seq![s], 1);
                            }
                            _ => {}
                        }
                    }
                }
            } else {
                assert(q[i] == p[i]);
                match p[i] {
                    SegV::Key(k) => {
                        match v {
                            Val::Obj(fs) => {
                                lemma_get_last(obj_lookup(fs, k), p, i + 1);
                            }
                            _ => {}
                        }
                    }
                    SegV::Idx(n) => {
                        match v {
                            Val::Arr(es) => {
                                let child = if 0 <= n < es.len() {
                                    Some(es[n])
                                } else {
                                    None
                                };
                                lemma_get_last(child, p, i + 1);
                            }
                            _ => {}
                        }
                    }
                }
            }
        }
    }
}

/// Law: removing a slot removes exactly that entry from its parent. A mapping
/// parent loses the key, so reading the removed path is then unresolved; an
/// array parent loses the index and the later elements shift down by one, so
/// reading the removed path then finds the old next element (or nothing, at
/// the old last index).
pub proof fn lemma_remove_then_get(v: Val, p: Seq<SegV>, i: int)
    requires
        0 <= i < p.len(),
        val_wf(v),
        remove_val(v, p, i) is Some,
    ensures
        ({
            let w = remove_val(v, p, i)->Some_0;
            let q = p.take(p.len() - 1);
            let old_parent = get_val(Some(v), q, i);
            let new_parent = get_val(Some(w), q, i);
            match p.last() {
                SegV::Key(k) => {
                    &&& old_parent matches Some(Val::Obj(fs))
                    &&& (old_parent matches Some(Val::Obj(fs)) ==> {
                        &&& find_key(fs, k, 0) < fs.len()
                        &&& new_parent == Some(Val::Obj(fs.remove(find_key(fs, k, 0))))
                    })
                    &&& get_val(Some(w), p, i) is None
                },
                SegV::Idx(n) => {
                    &&& old_parent matches Some(Val::Arr(es))
                    &&& (old_parent matches Some(Val::Arr(es)) ==> {
                        &&& 0 <= n < es.len()
                        &&& new_parent == Some(Val::Arr(es.remove(n)))
                        &&& get_val(Some(w), p, i) == (if n == es.len() - 1 {
                            None::<Val>
                        } else {
                            Some(es[n + 1])
                        })
                    })
                },
            }
        }),
    decreases p.len() - i,
{
    let w = remove_val(v, p, i)->Some_0;
    let q = p.take(p.len() - 1);
    lemma_get_last(Some(w), p, i);
    if i == p.len() - 1 {
        assert(get_val(Some(v), q, i) == Some(v));
        assert(get_val(Some(w), q, i) == Some(w));
        match p[i] {
            SegV::Key(k) => {
                match v {
                    Val::Obj(fs) => {
                        let j = find_key(fs, k, 0);
                        lemma_find_key_props(fs, k, 0);
                        let fs2 = fs.remove(j);
                        fs.remove_ensures(j);
                        assert forall|u: int| 0 <= u < fs2.len() implies (#[trigger] fs2[u].0)
                            != k by {
                            if u < j {
                                assert(fs2[u] == fs[u]);
                            } else {
                                assert(fs2[u] == fs[u + 1]);
                                assert(fs[j].0 == k);
                            }
                        }
                        lemma_find_key_props(fs2, k, 0);
                        assert(obj_lookup(fs2, k) is None);
                        lemma_get_past(obj_lookup(fs2, k), seq![p.last()], 1);
                        assert(get_val(Some(w), seq![p.last()], 0) is None);
                    }
                    _ => {}
                }
            }
            SegV::Idx(n) => {
                match v {
                    Val::Arr(es) => {
                        let es2 = es.remove(n);
                        es.remove_ensures(n);
                        if n < es.len() - 1 {
                            assert(es2[n] == es[n + 1]);
                            lemma_get_past(Some(es2[n]), seq![p.last()], 1);
                            assert(get_val(Some(w), seq![p.last()], 0) == Some(es[n + 1]));
                        } else {
                            lemma_get_past(None::<Val>, seq![p.last()], 1);
                            assert(get_val(Some(w), seq![p.last()], 0) is None);
                        }
                    }
                    _ => {}
                }
            }
        }
    } else {
        assert(q[i] == p[i]);
        match p[i] {
            SegV::Key(k) => {
                match v {
                    Val::Obj(fs) => {
                        let j = find_key(fs, k, 0);
                        lemma_find_key_props(fs, k, 0);
                        assert(val_wf(fs[j].1));
                        lemma_remove_then_get(fs[j].1, p, i + 1);
                        let c = remove_val(fs[j].1, p, i + 1)->Some_0;
                        let fs2 = fs.update(j, (k, c));
                        lemma_find_key_first(fs2, k, 0, j);
                        assert(obj_lookup(fs2, k) == Some(c));
                        assert(get_val(Some(w), q, i) == get_val(Some(c), q, i + 1));
                        assert(get_val(Some(v), q, i) == get_val(Some(fs[j].1), q, i + 1));
                        lemma_get_last(Some(c), p, i + 1);
                    }
                    _ => {}
                }
            }
            SegV::Idx(n) => {
                match v {
                    Val::Arr(es) => {
                        assert(0 <= n < es.len());
                        assert(val_wf(es[n]));
                        lemma_remove_then_get(es[n], p, i + 1);
                        let c = remove_val(es[n], p, i + 1)->Some_0;
                        let es2 = es.update(n, c);
                        assert(es2[n] == c);
                        assert(get_val(Some(w), q, i) == get_val(Some(c), q, i + 1));
                        assert(get_val(Some(v), q, i) == get_val(Some(es[n]), q, i + 1));
                        lemma_get_last(Some(c), p, i + 1);
                    }
                    _ => {}
                }
            }
        }
    }
}

/// Where `find_key` stops: at the first match, or past the end.
pub proof fn lemma_find_key_props(fs: Seq<(Seq<char>, Val)>, k: Seq<char>, t: int)
    requires
        0 <= t <= fs.len(),
    ensures
        t <= find_key(fs, k, t) <= fs.len(),
        find_key(fs, k, t) < fs.len() ==> fs[find_key(fs, k, t)].0 == k,
        forall|u: int| t <= u < find_key(fs, k, t) ==> (#[trigger] fs[u].0) != k,
    decreases fs.len() - t,
{
    if t < fs.len() && fs[t].0 != k {
        lemma_find_key_props(fs, k, t + 1);
    }
}

} // verus!
