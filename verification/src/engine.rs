//! The template engine: compiles a template source once into literal and
//! reference parts, and renders it against a data snapshot on demand. A
//! reference is a path in double braces (`{{a.b[2]}}`); rendering resolves it
//! in the snapshot and prints the scalar found there.

use vstd::prelude::*;
use crate::node::{Node, Val};
use crate::path::{PathExpr, SegV, Seg, parse_path};
use crate::store::{get_val, get_node};
use crate::text::{push_char, push_dec, dec_digits};
use vstd::string::StringExecFns;

verus! {

broadcast use vstd::std_specs::vec::group_vec_axioms;

/// Model of one compiled template part.
pub enum PartV {
    Lit(Seq<char>),
    Ref(Seq<SegV>),
}

/// One compiled template part: literal text, or a path reference.
#[derive(Debug, PartialEq)]
pub enum Part {
    Lit(String),
    Ref(PathExpr),
}

impl Part {
    pub open spec fn view(&self) -> PartV {
        match self {
            Part::Lit(t) => PartV::Lit(t@),
            Part::Ref(p) => PartV::Ref(p@),
        }
    }
}

/// A template that does not compile, with the offending position.
#[derive(Debug, PartialEq, Eq, Clone, Copy)]
pub struct CompileError {
    pub pos: usize,
}

/// A render failure. It never aborts the host: the caller surfaces it in
/// place of rendered text.
#[derive(Debug, PartialEq, Eq, Clone, Copy)]
pub enum RenderError {
    /// The engine holds no compiled template yet.
    NotReady,
    /// The reference in the given part is absent from the snapshot or does
    /// not hold a scalar.
    Unresolved { part: usize },
}

/// The first position at or after `i` that starts a `{{` opener, or the end.
pub open spec fn open_pos(cs: Seq<char>, i: int) -> int
    decreases cs.len() - i,
{
    if i < 0 || i >= cs.len() {
        cs.len() as int
    } else if cs[i] == '{' && i + 1 < cs.len() && cs[i + 1] == '{' {
        i
    } else {
        open_pos(cs, i + 1)
    }
}

/// The first position at or after `i` that starts a `}}` closer, or the end.
pub open spec fn close_pos(cs: Seq<char>, i: int) -> int
    decreases cs.len() - i,
{
    if i < 0 || i >= cs.len() {
        cs.len() as int
    } else if cs[i] == '}' && i + 1 < cs.len() && cs[i + 1] == '}' {
        i
    } else {
        close_pos(cs, i + 1)
    }
}

/// The parts denoted by the template source from `i` on, or the position of
/// the first offending character: an unclosed `{{`, or a malformed path
/// between the braces.
pub open spec fn compile_tpl(cs: Seq<char>, i: int) -> Result<Seq<PartV>, int>
    decreases cs.len() - i,
{
    if i < 0 || i >= cs.len() {
        Ok(Seq::empty())
    } else if cs[i] == '{' && i + 1 < cs.len() && cs[i + 1] == '{' {
        let j = close_pos(cs, i + 2);
        if j < i + 2 || j + 1 >= cs.len() {
            Err(i)
        } else {
            match parse_path(cs.subrange(i + 2, j)) {
                Err(e) => Err(i + 2 + e),
                Ok(segs) => match compile_tpl(cs, j + 2) {
                    Ok(rest) => Ok(seq![PartV::Ref(segs)].add(rest)),
                    Err(e) => Err(e),
                },
            }
        }
    } else {
        let e = open_pos(cs, i + 1);
        if e <= i || e > cs.len() {
            Err(i)
        } else {
            match compile_tpl(cs, e) {
                Ok(rest) => Ok(seq![PartV::Lit(cs.subrange(i, e))].add(rest)),
                Err(er) => Err(er),
            }
        }
    }
}

/// The text a scalar renders as; containers render as nothing.
pub open spec fn scalar_text(v: Val) -> Option<Seq<char>> {
    match v {
        Val::Null => Some(Seq::empty()),
        Val::Bool(b) => Some(
            if b {
                seq!['t', 'r', 'u', 'e']
            } else {
                seq!['f', 'a', 'l', 's', 'e']
            },
        ),
        Val::Int(n) => Some(
            if n < 0 {
                seq!['-'].add(dec_digits(-n))
            } else {
                dec_digits(n)
            },
        ),
        Val::Str(s) => Some(s),
        _ => None,
    }
}

/// The text the parts from `i` on render to against `data`, or the index of
/// the first part whose reference is unresolved or not scalar.
pub open spec fn render_parts(parts: Seq<PartV>, i: int, data: Val) -> Result<Seq<char>, int>
    decreases parts.len() - i,
{
    if i < 0 || i >= parts.len() {
        Ok(Seq::empty())
    } else {
        let head = match parts[i] {
            PartV::Lit(t) => Some(t),
            PartV::Ref(p) => match get_val(Some(data), p, 0) {
                Some(v) => scalar_text(v),
                None => None,
            },
        };
        match head {
            None => Err(i),
            Some(t) => match render_parts(parts, i + 1, data) {
                Ok(rest) => Ok(t.add(rest)),
                Err(e) => Err(e),
            },
        }
    }
}

/// Renders one scalar node as text; `None` for containers.
fn render_scalar(n: &Node) -> (r: Option<String>)
    ensures
        match r {
            Some(s) => scalar_text(n@) == Some(s@),
            None => scalar_text(n@) is None,
        },
{
    match n {
        Node::Null => {
            let s = String::new();
            proof {
                assert(s@ =~= Seq::<char>::empty());
            }
            Some(s)
        }
        Node::Bool(b) => {
            let s = if *b {
                "true".to_owned()
            } else {
                "false".to_owned()
            };
            proof {
                reveal_strlit("true");
                reveal_strlit("false");
                if *b {
                    assert(s@ =~= seq!['t', 'r', 'u', 'e']);
                } else {
                    assert(s@ =~= seq!['f', 'a', 'l', 's', 'e']);
                }
            }
            Some(s)
        }
        Node::Int(x) => {
            let mut s = String::new();
            if *x >= 0 {
                push_dec(&mut s, *x as u64);
            } else {
                push_char(&mut s, '-');
                let m: u64 = ((-(*x + 1)) as u64) + 1;
                push_dec(&mut s, m);
            }
            proof {
                assert(s@ =~= scalar_text(n@)->Some_0);
            }
            Some(s)
        }
        Node::Text(t) => Some(t.clone()),
        _ => None,
    }
}

/// The template engine. It is uninitialized until a template compiles, and
/// that state is observably distinct from holding an empty template: an
/// uninitialized engine refuses to render.
#[derive(Debug)]
pub struct TemplateEngine {
    parts: Option<Vec<Part>>,
}

impl TemplateEngine {
    /// The compiled parts, if a template has been set.
    pub closed spec fn view(&self) -> Option<Seq<PartV>> {
        match self.parts {
            Option::Some(ps) => Some(ps@.map_values(|p: Part| p@)),
            Option::None => None,
        }
    }

    /// A fresh engine, holding no template.
    pub fn new_uninit() -> (r: TemplateEngine)
        ensures
            r@ is None,
    {
        TemplateEngine { parts: None }
    }

    /// Compiles `source`, atomically replacing any previous template: on a
    /// compile failure the previous template is kept.
    pub fn set_template(&mut self, source: &str) -> (r: Result<(), CompileError>)
        ensures
            match r {
                Ok(()) => {
                    &&& final(self)@ is Some
                    &&& compile_tpl(source@, 0) == Ok::<Seq<PartV>, int>(final(self)@->Some_0)
                },
                Err(e) => {
                    &&& final(self)@ == old(self)@
                    &&& compile_tpl(source@, 0) == Err::<Seq<PartV>, int>(e.pos as int)
                },
            },
    {
        let cs = crate::text::str_chars(source);
        match compile_rec(&cs, 0) {
            Ok(parts) => {
                self.parts = Some(parts);
                Ok(())
            }
            Err(e) => Err(e),
        }
    }

    /// Renders the compiled template against `data`: a pure function of the
    /// two. An uninitialized engine refuses; an unresolved or non-scalar
    /// reference reports the first failing part.
    pub fn render(&self, data: &Node) -> (r: Result<String, RenderError>)
        ensures
            self@ is None ==> r == Err::<String, RenderError>(RenderError::NotReady),
            self@ matches Some(parts) ==> match r {
                Ok(s) => render_parts(parts, 0, data@) == Ok::<Seq<char>, int>(s@),
                Err(RenderError::Unresolved { part }) => render_parts(parts, 0, data@) == Err::<
                    Seq<char>,
                    int,
                >(part as int),
                Err(RenderError::NotReady) => false,
            },
    {
        match &self.parts {
            None => Err(RenderError::NotReady),
            Some(parts) => render_rec(parts, 0, data),
        }
    }
}

fn open_pos_exec(cs: &Vec<char>, i: usize) -> (r: usize)
    requires
        i <= cs@.len(),
    ensures
        r as int == open_pos(cs@, i as int),
        i <= r <= cs@.len(),
    decreases cs@.len() - i,
{
    if i >= cs.len() {
        cs.len()
    } else if cs[i] == '{' && i + 1 < cs.len() && cs[i + 1] == '{' {
        i
    } else {
        open_pos_exec(cs, i + 1)
    }
}

fn close_pos_exec(cs: &Vec<char>, i: usize) -> (r: usize)
    requires
        i <= cs@.len(),
    ensures
        r as int == close_pos(cs@, i as int),
        i <= r <= cs@.len(),
    decreases cs@.len() - i,
{
    if i >= cs.len() {
        cs.len()
    } else if cs[i] == '}' && i + 1 < cs.len() && cs[i + 1] == '}' {
        i
    } else {
        close_pos_exec(cs, i + 1)
    }
}

fn sub_chars(cs: &Vec<char>, a: usize, b: usize) -> (r: Vec<char>)
    requires
        a <= b <= cs@.len(),
    ensures
        r@ == cs@.subrange(a as int, b as int),
{
    let mut r: Vec<char> = Vec::new();
    let mut i: usize = a;
    while i < b
        invariant
            a <= i <= b <= cs@.len(),
            r@ == cs@.subrange(a as int, i as int),
        decreases b - i,
    {
        r.push(cs[i]);
        i = i + 1;
        proof {
            assert(r@ =~= cs@.subrange(a as int, i as int));
        }
    }
    r
}

fn compile_rec(cs: &Vec<char>, i: usize) -> (r: Result<Vec<Part>, CompileError>)
    requires
        i <= cs@.len(),
    ensures
        match r {
            Ok(v) => compile_tpl(cs@, i as int) == Ok::<Seq<PartV>, int>(
                v@.map_values(|p: Part| p@),
            ),
            Err(e) => compile_tpl(cs@, i as int) == Err::<Seq<PartV>, int>(e.pos as int),
        },
    decreases cs@.len() - i,
{
    if i >= cs.len() {
        let v: Vec<Part> = Vec::new();
        proof {
            assert(v@.map_values(|p: Part| p@) =~= Seq::<PartV>::empty());
        }
        Ok(v)
    } else if cs[i] == '{' && i + 1 < cs.len() && cs[i + 1] == '{' {
        let j = close_pos_exec(cs, i + 2);
        if j >= cs.len() - 1 {
            Err(CompileError { pos: i })
        } else {
            let inner = sub_chars(cs, i + 2, j);
            match crate::path::parse_chars(&inner) {
                Err(e) => Err(CompileError { pos: i + 2 + e.pos }),
                Ok(segs) => {
                    let ghost segsv = segs@.map_values(|s: Seg| s@);
                    match compile_rec(cs, j + 2) {
                        Ok(mut rest) => {
                            let ghost rest0 = rest@;
                            rest.insert(0, Part::Ref(PathExpr { segs }));
                            proof {
                                assert(rest@.map_values(|p: Part| p@) =~= seq![
                                    PartV::Ref(segsv),
                                ].add(rest0.map_values(|p: Part| p@)));
                            }
                            Ok(rest)
                        }
                        Err(e) => Err(e),
                    }
                }
            }
        }
    } else {
        let e = open_pos_exec(cs, i + 1);
        let lit = crate::text::chars_to_string(cs, i, e);
        match compile_rec(cs, e) {
            Ok(mut rest) => {
                let ghost rest0 = rest@;
                rest.insert(0, Part::Lit(lit));
                proof {
                    assert(rest@.map_values(|p: Part| p@) =~= seq![
                        PartV::Lit(cs@.subrange(i as int, e as int)),
                    ].add(rest0.map_values(|p: Part| p@)));
                }
                Ok(rest)
            }
            Err(er) => Err(er),
        }
    }
}

fn render_rec(parts: &Vec<Part>, i: usize, data: &Node) -> (r: Result<String, RenderError>)
    requires
        i <= parts@.len(),
    ensures
        match r {
            Ok(s) => render_parts(parts@.map_values(|p: Part| p@), i as int, data@) == Ok::<
                Seq<char>,
                int,
            >(s@),
            Err(RenderError::Unresolved { part }) => render_parts(
                parts@.map_values(|p: Part| p@),
                i as int,
                data@,
            ) == Err::<Seq<char>, int>(part as int),
            Err(RenderError::NotReady) => false,
        },
    decreases parts@.len() - i,
{
    let ghost pv = parts@.map_values(|p: Part| p@);
    if i >= parts.len() {
        let s = String::new();
        proof {
            assert(s@ =~= Seq::<char>::empty());
        }
        return Ok(s);
    }
    proof {
        assert(pv[i as int] == parts@[i as int]@);
    }
    let head: Option<String> = match &parts[i] {
        Part::Lit(t) => Some(t.clone()),
        Part::Ref(p) => {
            match get_node(data, p, 0) {
                Some(n) => render_scalar(n),
                None => None,
            }
        }
    };
    match head {
        None => Err(RenderError::Unresolved { part: i }),
        Some(t) => {
            match render_rec(parts, i + 1, data) {
                Ok(rest) => {
                    let out = t.concat(rest.as_str());
                    Ok(out)
                }
                Err(e) => Err(e),
            }
        }
    }
}

} // verus!
