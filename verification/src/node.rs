//! The dynamic value tree: a closed tagged union of null, booleans, integers,
//! text, ordered sequences and string-keyed mappings.

use vstd::prelude::*;

verus! {

broadcast use vstd::std_specs::vec::group_vec_axioms;

/// Mathematical model of a document value: what a `Node` denotes.
///
/// A mapping is modelled as the sequence of its entries; lookups take the
/// first entry with a matching key, so later duplicates are unobservable.
pub enum Val {
    Null,
    Bool(bool),
    Int(int),
    Str(Seq<char>),
    Arr(Seq<Val>),
    Obj(Seq<(Seq<char>, Val)>),
}

/// The only runtime value shape that flows through the store.
#[derive(Debug, PartialEq)]
pub enum Node {
    Null,
    Bool(bool),
    Int(i64),
    Text(String),
    Arr(Vec<Node>),
    Obj(Vec<(String, Node)>),
}

/// The values denoted by a sequence of nodes, elementwise.
pub open spec fn arr_view(es: Seq<Node>) -> Seq<Val>
    decreases es,
{
    if es.len() == 0 {
        Seq::empty()
    } else {
        arr_view(es.drop_last()).push(es.last().view())
    }
}

/// The key/value pairs denoted by a sequence of mapping entries, elementwise.
pub open spec fn obj_view(fs: Seq<(String, Node)>) -> Seq<(Seq<char>, Val)>
    decreases fs,
{
    if fs.len() == 0 {
        Seq::empty()
    } else {
        obj_view(fs.drop_last()).push((fs.last().0@, fs.last().1.view()))
    }
}

/// How deeply containers nest in a value: scalars are flat, a container is
/// one deeper than its deepest entry. (The JSON boundary's parser bounds the
/// nesting it accepts; contracts about parsing printed values carry this.)
pub open spec fn val_depth(v: Val) -> nat
    decreases v,
{
    match v {
        Val::Arr(es) => 1 + vals_depth(es),
        Val::Obj(fs) => 1 + entries_depth(fs),
        _ => 0,
    }
}

pub open spec fn vals_depth(es: Seq<Val>) -> nat
    decreases es,
{
    if es.len() == 0 {
        0
    } else {
        if val_depth(es.last()) >= vals_depth(es.drop_last()) {
            val_depth(es.last())
        } else {
            vals_depth(es.drop_last())
        }
    }
}

pub open spec fn entries_depth(fs: Seq<(Seq<char>, Val)>) -> nat
    decreases fs,
{
    if fs.len() == 0 {
        0
    } else {
        if val_depth(fs.last().1) >= entries_depth(fs.drop_last()) {
            val_depth(fs.last().1)
        } else {
            entries_depth(fs.drop_last())
        }
    }
}

/// `arr_view` is the elementwise image of `Node::view`.
pub broadcast proof fn lemma_arr_view(s: Seq<Node>)
    ensures
        (#[trigger] arr_view(s)).len() == s.len(),
        forall|i: int| 0 <= i < s.len() ==> arr_view(s)[i] == s[i].view(),
    decreases s,
{
    if s.len() > 0 {
        lemma_arr_view(s.drop_last());
    }
}

/// `obj_view` is the elementwise image of the entry views.
pub broadcast proof fn lemma_obj_view(s: Seq<(String, Node)>)
    ensures
        (#[trigger] obj_view(s)).len() == s.len(),
        forall|i: int| 0 <= i < s.len() ==> obj_view(s)[i] == (s[i].0@, s[i].1.view()),
    decreases s,
{
    if s.len() > 0 {
        lemma_obj_view(s.drop_last());
    }
}

impl Node {
    /// The value this node denotes.
    pub open spec fn view(&self) -> Val
        decreases self,
    {
        match self {
            Node::Null => Val::Null,
            Node::Bool(b) => Val::Bool(*b),
            Node::Int(x) => Val::Int(*x as int),
            Node::Text(s) => Val::Str(s@),
            Node::Arr(es) => Val::Arr(arr_view(es@)),
            Node::Obj(fs) => Val::Obj(obj_view(fs@)),
        }
    }

    /// A deep copy, denoting the same value.
    #[verifier::loop_isolation(false)]
    pub fn duplicate(&self) -> (r: Node)
        ensures
            r@ == self@,
        decreases self,
    {
        match self {
            Node::Null => Node::Null,
            Node::Bool(b) => Node::Bool(*b),
            Node::Int(x) => Node::Int(*x),
            Node::Text(s) => Node::Text(s.clone()),
            Node::Arr(es) => {
                let mut out: Vec<Node> = Vec::new();
                let mut i: usize = 0;
                while i < es.len()
                    invariant
                        i <= es.len(),
                        out@.len() == i as int,
                        forall|j: int| 0 <= j < i as int ==> out@[j]@ == es@[j]@,
                    decreases es.len() - i,
                {
                    proof {
                        assert(*es == self->Arr_0);
                        assert(decreases_to!(*self => self->Arr_0));
                        assert(decreases_to!(*es => es@[i as int]));
                    }
                    let c = es[i].duplicate();
                    out.push(c);
                    i = i + 1;
                }
                proof {
                    lemma_arr_view(out@);
                    lemma_arr_view(es@);
                    assert(arr_view(out@) =~= arr_view(es@));
                }
                Node::Arr(out)
            }
            Node::Obj(fs) => {
                let mut out: Vec<(String, Node)> = Vec::new();
                let mut i: usize = 0;
                while i < fs.len()
                    invariant
                        i <= fs.len(),
                        out@.len() == i as int,
                        forall|j: int| 0 <= j < i as int
                            ==> out@[j].0@ == fs@[j].0@ && out@[j].1@ == fs@[j].1@,
                    decreases fs.len() - i,
                {
                    proof {
                        assert(*fs == self->Obj_0);
                        assert(decreases_to!(*self => self->Obj_0));
                        assert(decreases_to!(*fs => fs@[i as int]));
                        assert(decreases_to!(fs@[i as int] => fs@[i as int].1));
                    }
                    let k = fs[i].0.clone();
                    let c = fs[i].1.duplicate();
                    out.push((k, c));
                    i = i + 1;
                }
                proof {
                    lemma_obj_view(out@);
                    lemma_obj_view(fs@);
                    assert(obj_view(out@) =~= obj_view(fs@));
                }
                Node::Obj(out)
            }
        }
    }

    /// The default store root: an empty mapping.
    pub fn empty_obj() -> (r: Node)
        ensures
            r@ == Val::Obj(Seq::<(Seq<char>, Val)>::empty()),
    {
        let n = Node::Obj(Vec::new());
        proof {
            assert(n@ =~= Val::Obj(Seq::<(Seq<char>, Val)>::empty()));
        }
        n
    }
}

} // verus!
