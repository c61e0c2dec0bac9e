//! Structured addresses into a nested document: ordered sequences of key and
//! index segments, with a canonical string form (`a.b[2].c`), a verified
//! parser for that form, and compositional child-path construction.

use vstd::prelude::*;
use crate::text::{push_char, push_dec, str_chars, chars_to_string, dec_digits, digit_char};
use vstd::string::StringExecFns;

verus! {

broadcast use vstd::std_specs::vec::group_vec_axioms;

/// Model of one path segment: a named key or an array index.
pub enum SegV {
    Key(Seq<char>),
    Idx(int),
}

/// One segment of a structured path.
#[derive(Debug, PartialEq, Eq, Hash)]
pub enum Seg {
    Key(String),
    Idx(usize),
}

impl Seg {
    pub open spec fn view(&self) -> SegV {
        match self {
            Seg::Key(k) => SegV::Key(k@),
            Seg::Idx(i) => SegV::Idx(*i as int),
        }
    }
}

impl Clone for Seg {
    fn clone(&self) -> (r: Seg)
        ensures
            r == *self,
    {
        match self {
            Seg::Key(k) => Seg::Key(k.clone()),
            Seg::Idx(i) => Seg::Idx(*i),
        }
    }
}

/// A parse failure, identifying the offending position in the literal.
#[derive(Debug, PartialEq, Eq, Clone, Copy)]
pub struct ParseError {
    pub pos: usize,
}

/// A parsed, immutable address into a nested document. Empty = root.
///
/// Paths are values: compared structurally and never mutated after
/// construction; child paths are produced by appending a segment.
#[derive(Debug, PartialEq, Eq, Hash)]
pub struct PathExpr {
    pub segs: Vec<Seg>,
}

impl Clone for PathExpr {
    fn clone(&self) -> (r: PathExpr)
        ensures
            r.segs@ == self.segs@,
            r@ == self@,
    {
        let mut segs: Vec<Seg> = Vec::new();
        let mut i: usize = 0;
        while i < self.segs.len()
            invariant
                i <= self.segs@.len(),
                segs@ =~= self.segs@.take(i as int),
            decreases self.segs@.len() - i,
        {
            segs.push(self.segs[i].clone());
            i = i + 1;
            proof {
                assert(segs@ =~= self.segs@.take(i as int));
            }
        }
        proof {
            assert(segs@ =~= self.segs@);
        }
        PathExpr { segs }
    }
}

/// Whether `c` may start a key segment.
pub open spec fn is_key_start(c: char) -> bool {
    ('a' <= c && c <= 'z') || ('A' <= c && c <= 'Z') || c == '_'
}

/// Whether `c` may continue a key segment.
pub open spec fn is_key_char(c: char) -> bool {
    is_key_start(c) || is_digit(c)
}

/// Whether `c` is a decimal digit.
pub open spec fn is_digit(c: char) -> bool {
    '0' <= c && c <= '9'
}

/// The numeric value of a digit character.
pub open spec fn digit_val(c: char) -> int {
    c as u32 - '0' as u32
}

/// The end of the run of key characters starting at `i`.
pub open spec fn key_end(cs: Seq<char>, i: int) -> int
    decreases cs.len() - i,
{
    if 0 <= i < cs.len() && is_key_char(cs[i]) {
        key_end(cs, i + 1)
    } else {
        i
    }
}

/// The end of the run of digit characters starting at `i`.
pub open spec fn digits_end(cs: Seq<char>, i: int) -> int
    decreases cs.len() - i,
{
    if 0 <= i < cs.len() && is_digit(cs[i]) {
        digits_end(cs, i + 1)
    } else {
        i
    }
}

/// The number denoted by the digits of `cs` between `i` and `j`.
pub open spec fn num_val(cs: Seq<char>, i: int, j: int) -> int
    decreases j - i,
{
    if j <= i {
        0
    } else {
        num_val(cs, i, j - 1) * 10 + digit_val(cs[j - 1])
    }
}

/// The segments denoted by the canonical literal `cs` from position `i` on,
/// or the position of the first offending character. `first` is true only at
/// the very start of the literal, where a key segment carries no leading dot.
///
/// An index literal whose value exceeds the machine's address range is
/// rejected at the position of its first digit.
pub open spec fn parse_segs(cs: Seq<char>, i: int, first: bool) -> Result<Seq<SegV>, int>
    decreases cs.len() - i,
{
    if i < 0 || i >= cs.len() {
        Ok(Seq::empty())
    } else if cs[i] == '[' {
        let j = digits_end(cs, i + 1);
        if j <= i + 1 || j > cs.len() {
            Err(i + 1)
        } else if j >= cs.len() || cs[j] != ']' {
            Err(j)
        } else if num_val(cs, i + 1, j) > usize::MAX as int {
            Err(i + 1)
        } else {
            match parse_segs(cs, j + 1, false) {
                Ok(rest) => Ok(seq![SegV::Idx(num_val(cs, i + 1, j))].add(rest)),
                Err(e) => Err(e),
            }
        }
    } else if !first && cs[i] != '.' {
        Err(i)
    } else {
        let k = if first { i } else { i + 1 };
        if k >= cs.len() || !is_key_start(cs[k]) {
            Err(k)
        } else {
            let j = key_end(cs, k + 1);
            if j <= k || j > cs.len() {
                Err(k)
            } else {
                match parse_segs(cs, j, false) {
                    Ok(rest) => Ok(seq![SegV::Key(cs.subrange(k, j))].add(rest)),
                    Err(e) => Err(e),
                }
            }
        }
    }
}

/// The segments denoted by the canonical literal `cs`, or the position of the
/// first offending character.
pub open spec fn parse_path(cs: Seq<char>) -> Result<Seq<SegV>, int> {
    parse_segs(cs, 0, true)
}

/// The canonical decimal text of `n` is one or more digit characters.
pub proof fn dec_digits_are_digits(n: int)
    requires
        0 <= n,
    ensures
        dec_digits(n).len() >= 1,
        forall|t: int| 0 <= t < dec_digits(n).len() ==> is_digit(#[trigger] dec_digits(n)[t]),
    decreases n,
{
    if n < 10 {
    } else {
        dec_digits_are_digits(n / 10);
    }
}

/// `num_val` reads only the characters between `i` and `j`.
proof fn lemma_num_val_frame(cs1: Seq<char>, cs2: Seq<char>, i: int, j: int)
    requires
        forall|t: int| i <= t < j ==> cs1[t] == #[trigger] cs2[t],
    ensures
        num_val(cs1, i, j) == num_val(cs2, i, j),
    decreases j - i,
{
    if j > i {
        lemma_num_val_frame(cs1, cs2, i, j - 1);
    }
}

/// Law (round trip, numbers): the canonical decimal text of `n` denotes `n`.
pub proof fn lemma_num_val_of_dec(n: int)
    requires
        0 <= n,
    ensures
        num_val(dec_digits(n), 0, dec_digits(n).len() as int) == n,
    decreases n,
{
    let ds = dec_digits(n);
    if n < 10 {
        assert(ds == seq![digit_char(n)]);
        assert(num_val(ds, 0, 0) == 0);
        assert(digit_val(digit_char(n)) == n);
    } else {
        lemma_num_val_of_dec(n / 10);
        let pre = dec_digits(n / 10);
        assert(ds == pre.push(digit_char(n % 10)));
        lemma_num_val_frame(pre, ds, 0, pre.len() as int);
        assert(digit_val(digit_char(n % 10)) == n % 10);
        assert(num_val(ds, 0, ds.len() as int) == num_val(ds, 0, ds.len() as int - 1) * 10
            + digit_val(ds[ds.len() - 1]));
    }
}

/// Every index segment is non-negative; true of every `PathExpr`'s view.
pub open spec fn path_ok(p: Seq<SegV>) -> bool {
    forall|i: int|
        0 <= i < p.len() ==> match #[trigger] p[i] {
            SegV::Idx(n) => n >= 0,
            SegV::Key(_) => true,
        }
}

/// A path built of machine-sized segments denotes only non-negative indices.
pub proof fn lemma_path_view_ok(p: &PathExpr)
    ensures
        path_ok(p@),
{
    assert forall|i: int| 0 <= i < p@.len() implies match #[trigger] p@[i] {
        SegV::Idx(n) => n >= 0,
        SegV::Key(_) => true,
    } by {
        assert(p@[i] == p.segs@[i]@);
    }
}

/// The canonical text of one segment; the first key of a path carries no dot.
pub open spec fn seg_text(s: SegV, first: bool) -> Seq<char> {
    match s {
        SegV::Key(k) => if first {
            k
        } else {
            seq!['.'].add(k)
        },
        SegV::Idx(n) => seq!['['].add(dec_digits(n)).push(']'),
    }
}

/// The canonical string form of a path.
pub open spec fn format_path(p: Seq<SegV>) -> Seq<char>
    decreases p.len(),
{
    if p.len() == 0 {
        Seq::empty()
    } else {
        format_path(p.drop_last()).add(seg_text(p.last(), p.len() == 1))
    }
}

fn is_key_start_exec(c: char) -> (r: bool)
    ensures
        r == is_key_start(c),
{
    ('a' <= c && c <= 'z') || ('A' <= c && c <= 'Z') || c == '_'
}

fn is_key_char_exec(c: char) -> (r: bool)
    ensures
        r == is_key_char(c),
{
    is_key_start_exec(c) || is_digit_exec(c)
}

fn is_digit_exec(c: char) -> (r: bool)
    ensures
        r == is_digit(c),
{
    '0' <= c && c <= '9'
}

fn key_end_exec(cs: &Vec<char>, i: usize) -> (r: usize)
    requires
        i <= cs@.len(),
    ensures
        r == key_end(cs@, i as int),
        i <= r <= cs@.len(),
    decreases cs@.len() - i,
{
    if i < cs.len() && is_key_char_exec(cs[i]) {
        key_end_exec(cs, i + 1)
    } else {
        i
    }
}

fn digits_end_exec(cs: &Vec<char>, i: usize) -> (r: usize)
    requires
        i <= cs@.len(),
    ensures
        r == digits_end(cs@, i as int),
        i <= r <= cs@.len(),
        forall|k: int| i <= k < r ==> is_digit(cs@[k]),
    decreases cs@.len() - i,
{
    if i < cs.len() && is_digit_exec(cs[i]) {
        digits_end_exec(cs, i + 1)
    } else {
        i
    }
}

/// The value of a digit run never shrinks as the run extends.
proof fn lemma_num_val_mono(cs: Seq<char>, i: int, k: int, j: int)
    requires
        i <= k <= j,
        forall|t: int| i <= t < j ==> is_digit(cs[t]),
    ensures
        0 <= num_val(cs, i, k) <= num_val(cs, i, j),
    decreases j - k,
{
    if k == j {
        lemma_num_val_nonneg(cs, i, k);
    } else {
        lemma_num_val_mono(cs, i, k, j - 1);
        lemma_num_val_nonneg(cs, i, j - 1);
    }
}

proof fn lemma_num_val_nonneg(cs: Seq<char>, i: int, j: int)
    requires
        forall|t: int| i <= t < j ==> is_digit(cs[t]),
    ensures
        num_val(cs, i, j) >= 0,
    decreases j - i,
{
    if j > i {
        lemma_num_val_nonneg(cs, i, j - 1);
    }
}

/// Parses the digit run between `i` and `j` into a machine number, or reports
/// that its value does not fit.
pub(crate) fn parse_num(cs: &Vec<char>, i: usize, j: usize) -> (r: Option<usize>)
    requires
        i <= j <= cs@.len(),
        forall|t: int| i <= t < j ==> is_digit(cs@[t]),
    ensures
        match r {
            Some(v) => v as int == num_val(cs@, i as int, j as int) && v as int
                <= usize::MAX as int,
            None => num_val(cs@, i as int, j as int) > usize::MAX as int,
        },
{
    let mut v: usize = 0;
    let mut k: usize = i;
    while k < j
        invariant
            i <= k <= j <= cs@.len(),
            forall|t: int| i <= t < j ==> is_digit(cs@[t]),
            v as int == num_val(cs@, i as int, k as int),
        decreases j - k,
    {
        let c = cs[k];
        proof {
            assert(is_digit(cs@[k as int]));
        }
        let d: usize = (c as u32 as usize) - ('0' as u32 as usize);
        proof {
            assert(d as int == digit_val(cs@[k as int]));
            assert(d < 10);
        }
        if v > (usize::MAX - d) / 10 {
            proof {
                assert(v as int * 10 + d as int > usize::MAX as int) by (nonlinear_arith)
                    requires
                        v as int > (usize::MAX as int - d as int) / 10,
                        d < 10,
                {}
                assert(num_val(cs@, i as int, k as int + 1) > usize::MAX as int);
                lemma_num_val_mono(cs@, i as int, k as int + 1, j as int);
            }
            return None;
        }
        proof {
            assert(v as int * 10 + d as int <= usize::MAX as int) by (nonlinear_arith)
                requires
                    v as int <= (usize::MAX as int - d as int) / 10,
                    0 <= d < 10,
                    v >= 0,
            {}
        }
        v = v * 10 + d;
        k = k + 1;
    }
    Some(v)
}

impl PathExpr {
    /// The segment sequence this path denotes.
    pub open spec fn view(&self) -> Seq<SegV> {
        self.segs@.map_values(|s: Seg| s@)
    }

    /// The root path: no segments.
    pub fn root() -> (r: PathExpr)
        ensures
            r@ == Seq::<SegV>::empty(),
    {
        let p = PathExpr { segs: Vec::new() };
        proof {
            assert(p@ =~= Seq::<SegV>::empty());
        }
        p
    }

    /// The number of segments.
    pub fn len(&self) -> (r: usize)
        ensures
            r == self@.len(),
    {
        self.segs.len()
    }

    /// The child path addressing key `k` under this path.
    pub fn child_key(&self, k: String) -> (r: PathExpr)
        ensures
            r@ == self@.push(SegV::Key(k@)),
    {
        let mut r = self.clone();
        r.segs.push(Seg::Key(k));
        proof {
            assert(r@ =~= self@.push(SegV::Key(k@)));
        }
        r
    }

    /// The child path addressing index `i` under this path.
    pub fn child_idx(&self, i: usize) -> (r: PathExpr)
        ensures
            r@ == self@.push(SegV::Idx(i as int)),
    {
        let mut r = self.clone();
        r.segs.push(Seg::Idx(i));
        proof {
            assert(r@ =~= self@.push(SegV::Idx(i as int)));
        }
        r
    }

    /// The prefix of this path holding its first `n` segments.
    pub fn prefix(&self, n: usize) -> (r: PathExpr)
        requires
            n <= self@.len(),
        ensures
            r@ == self@.take(n as int),
    {
        let mut segs: Vec<Seg> = Vec::new();
        let mut i: usize = 0;
        while i < n
            invariant
                i <= n <= self.segs@.len(),
                segs@ =~= self.segs@.take(i as int),
            decreases n - i,
        {
            segs.push(self.segs[i].clone());
            i = i + 1;
            proof {
                assert(segs@ =~= self.segs@.take(i as int));
            }
        }
        let r = PathExpr { segs };
        proof {
            assert(r@ =~= self@.take(n as int));
        }
        r
    }

    /// Parses a canonical path literal; a malformed literal is rejected with
    /// the position of its first offending character.
    pub fn parse(s: &str) -> (r: Result<PathExpr, ParseError>)
        ensures
            match r {
                Ok(p) => parse_path(s@) == Ok::<Seq<SegV>, int>(p@),
                Err(e) => parse_path(s@) == Err::<Seq<SegV>, int>(e.pos as int),
            },
    {
        let cs = str_chars(s);
        match parse_rec(&cs, 0, true) {
            Ok(segs) => Ok(PathExpr { segs }),
            Err(e) => Err(e),
        }
    }

    /// The canonical string form of this path.
    pub fn format(&self) -> (r: String)
        ensures
            r@ == format_path(self@),
    {
        proof {
            assert(self@.take(self.segs@.len() as int) =~= self@);
        }
        self.format_prefix(self.segs.len())
    }

    fn format_prefix(&self, n: usize) -> (r: String)
        requires
            n <= self@.len(),
        ensures
            r@ == format_path(self@.take(n as int)),
        decreases n,
    {
        if n == 0 {
            let r = String::new();
            proof {
                assert(self@.take(0) =~= Seq::<SegV>::empty());
            }
            r
        } else {
            let mut s = self.format_prefix(n - 1);
            proof {
                assert(self@.take(n as int).drop_last() =~= self@.take(n as int - 1));
                assert(self@.take(n as int).last() == self@[n as int - 1]);
            }
            match &self.segs[n - 1] {
                Seg::Key(k) => {
                    if n > 1 {
                        push_char(&mut s, '.');
                    }
                    s.append(k.as_str());
                    proof {
                        assert(s@ =~= format_path(self@.take(n as int)));
                    }
                }
                Seg::Idx(i) => {
                    push_char(&mut s, '[');
                    push_dec(&mut s, *i as u64);
                    push_char(&mut s, ']');
                    proof {
                        assert(s@ =~= format_path(self@.take(n as int)));
                    }
                }
            }
            s
        }
    }
}

/// Parses a whole character buffer as a canonical path literal.
pub(crate) fn parse_chars(cs: &Vec<char>) -> (r: Result<Vec<Seg>, ParseError>)
    ensures
        match r {
            Ok(v) => parse_path(cs@) == Ok::<Seq<SegV>, int>(v@.map_values(|s: Seg| s@)),
            Err(e) => parse_path(cs@) == Err::<Seq<SegV>, int>(e.pos as int) && e.pos
                <= cs@.len(),
        },
{
    parse_rec(cs, 0, true)
}

fn parse_rec(cs: &Vec<char>, i: usize, first: bool) -> (r: Result<Vec<Seg>, ParseError>)
    requires
        i <= cs@.len(),
    ensures
        match r {
            Ok(v) => parse_segs(cs@, i as int, first) == Ok::<Seq<SegV>, int>(
                v@.map_values(|s: Seg| s@),
            ),
            Err(e) => parse_segs(cs@, i as int, first) == Err::<Seq<SegV>, int>(e.pos as int)
                && e.pos <= cs@.len(),
        },
    decreases cs@.len() - i,
{
    if i >= cs.len() {
        let v: Vec<Seg> = Vec::new();
        proof {
            assert(v@.map_values(|s: Seg| s@) =~= Seq::<SegV>::empty());
        }
        Ok(v)
    } else if cs[i] == '[' {
        let j = digits_end_exec(cs, i + 1);
        if j <= i + 1 {
            Err(ParseError { pos: i + 1 })
        } else if j >= cs.len() || cs[j] != ']' {
            Err(ParseError { pos: j })
        } else {
            match parse_num(cs, i + 1, j) {
                None => Err(ParseError { pos: i + 1 }),
                Some(n) => {
                    match parse_rec(cs, j + 1, false) {
                        Ok(mut rest) => {
                            let ghost rest0 = rest@;
                            rest.insert(0, Seg::Idx(n));
                            proof {
                                assert(rest@.map_values(|s: Seg| s@) =~= seq![
                                    SegV::Idx(n as int),
                                ].add(rest0.map_values(|s: Seg| s@)));
                            }
                            Ok(rest)
                        }
                        Err(e) => Err(e),
                    }
                }
            }
        }
    } else if !first && cs[i] != '.' {
        Err(ParseError { pos: i })
    } else {
        let k = if first {
            i
        } else {
            i + 1
        };
        if k >= cs.len() || !is_key_start_exec(cs[k]) {
            Err(ParseError { pos: k })
        } else {
            let j = key_end_exec(cs, k + 1);
            let key = chars_to_string(cs, k, j);
            match parse_rec(cs, j, false) {
                Ok(mut rest) => {
                    let ghost rest0 = rest@;
                    rest.insert(0, Seg::Key(key));
                    proof {
                        assert(rest@.map_values(|s: Seg| s@) =~= seq![
                            SegV::Key(cs@.subrange(k as int, j as int)),
                        ].add(rest0.map_values(|s: Seg| s@)));
                    }
                    Ok(rest)
                }
                Err(e) => Err(e),
            }
        }
    }
}

} // verus!
