//! The scenario model: an immutable template source paired with the declared
//! input fields, decoded once from a structured document, plus the document
//! encoding used for persisted snapshots — with a proved round trip.

use vstd::prelude::*;
use crate::node::{Node, Val, arr_view, obj_view, lemma_arr_view, lemma_obj_view};
use crate::path::{Seg, SegV, PathExpr, is_digit, num_val, dec_digits_are_digits, lemma_num_val_of_dec};
use crate::store::{find_key, obj_lookup, lemma_obj_lookup_at, lemma_obj_lookup_none, lemma_find_key_props, val_wf};
use crate::text::{push_dec, dec_digits, str_chars};

verus! {

broadcast use vstd::std_specs::vec::group_vec_axioms;

/// Model of one declared input field. Paths are relative suffixes, so a
/// schema fragment is reusable wherever a list repeats it.
pub enum InputV {
    Scalar { label: Seq<char>, path: Seq<SegV>, fallback: Val },
    Boolean { label: Seq<char>, path: Seq<SegV> },
    List { label: Seq<char>, path: Seq<SegV>, items: Seq<InputV> },
    Group { label: Seq<char>, path: Seq<SegV>, children: Seq<InputV> },
}

/// One declared input field: a scalar leaf, a boolean, a list whose length is
/// driven by the array found at runtime, or a nested named group.
#[derive(Debug, PartialEq)]
pub enum InputTypes {
    Scalar { label: String, path: PathExpr, fallback: Node },
    Boolean { label: String, path: PathExpr },
    List { label: String, path: PathExpr, items: Vec<InputTypes> },
    Group { label: String, path: PathExpr, children: Vec<InputTypes> },
}

/// The fields denoted by a sequence of declared inputs, elementwise.
pub open spec fn inputs_view(xs: Seq<InputTypes>) -> Seq<InputV>
    decreases xs,
{
    if xs.len() == 0 {
        Seq::empty()
    } else {
        inputs_view(xs.drop_last()).push(xs.last().view())
    }
}

/// `inputs_view` is the elementwise image of `InputTypes::view`.
pub broadcast proof fn lemma_inputs_view(xs: Seq<InputTypes>)
    ensures
        (#[trigger] inputs_view(xs)).len() == xs.len(),
        forall|i: int| 0 <= i < xs.len() ==> inputs_view(xs)[i] == xs[i].view(),
    decreases xs,
{
    if xs.len() > 0 {
        lemma_inputs_view(xs.drop_last());
    }
}

impl InputTypes {
    /// The field this declaration denotes.
    pub open spec fn view(&self) -> InputV
        decreases self,
    {
        match self {
            InputTypes::Scalar { label, path, fallback } => InputV::Scalar {
                label: label@,
                path: path@,
                fallback: fallback@,
            },
            InputTypes::Boolean { label, path } => InputV::Boolean {
                label: label@,
                path: path@,
            },
            InputTypes::List { label, path, items } => InputV::List {
                label: label@,
                path: path@,
                items: inputs_view(items@),
            },
            InputTypes::Group { label, path, children } => InputV::Group {
                label: label@,
                path: path@,
                children: inputs_view(children@),
            },
        }
    }
}

/// An immutable scenario: the template source and the declared input fields,
/// always loaded together.
#[derive(Debug, PartialEq)]
pub struct Scenario {
    pub template: String,
    pub inputs: Vec<InputTypes>,
}

/// Model of a scenario.
pub struct ScenarioV {
    pub template: Seq<char>,
    pub inputs: Seq<InputV>,
}

impl Scenario {
    pub open spec fn view(&self) -> ScenarioV {
        ScenarioV { template: self.template@, inputs: inputs_view(self.inputs@) }
    }
}

/// A document that does not decode into a scenario.
#[derive(Debug, PartialEq, Eq, Clone, Copy)]
pub enum SchemaError {
    /// The document carries no template.
    MissingTemplate,
    /// The declared inputs do not fit the closed set of field kinds.
    BadInputs,
}

/// The document encoding of one path segment.
pub open spec fn seg_val(s: SegV) -> Val {
    match s {
        SegV::Key(k) => Val::Obj(seq![("key"@, Val::Str(k))]),
        SegV::Idx(n) => Val::Obj(seq![("idx"@, Val::Str(dec_digits(n)))]),
    }
}

/// The document encoding of a relative path.
pub open spec fn path_val(p: Seq<SegV>) -> Val {
    Val::Arr(Seq::new(p.len(), |i: int| seg_val(p[i])))
}

/// The segment a document value denotes, if any.
pub open spec fn seg_of_val(v: Val) -> Option<SegV> {
    match v {
        Val::Obj(fs) => match obj_lookup(fs, "key"@) {
            Some(Val::Str(k)) => Some(SegV::Key(k)),
            _ => match obj_lookup(fs, "idx"@) {
                Some(Val::Str(ds)) => if ds.len() > 0 && (forall|t: int|
                    0 <= t < ds.len() ==> is_digit(ds[t])) && num_val(ds, 0, ds.len() as int)
                    <= usize::MAX as int {
                    Some(SegV::Idx(num_val(ds, 0, ds.len() as int)))
                } else {
                    None
                },
                _ => None,
            },
        },
        _ => None,
    }
}

/// The relative path a document value denotes, if any.
pub open spec fn path_of_val(v: Val) -> Option<Seq<SegV>> {
    match v {
        Val::Arr(es) => segs_of_vals(es),
        _ => None,
    }
}

pub open spec fn segs_of_vals(es: Seq<Val>) -> Option<Seq<SegV>>
    decreases es,
{
    if es.len() == 0 {
        Some(Seq::empty())
    } else {
        match segs_of_vals(es.drop_last()) {
            None => None,
            Some(ps) => match seg_of_val(es.last()) {
                None => None,
                Some(s) => Some(ps.push(s)),
            },
        }
    }
}

/// The document encoding of one declared input field.
pub open spec fn input_val(x: InputV) -> Val
    decreases x,
{
    match x {
        InputV::Scalar { label, path, fallback } => Val::Obj(
            seq![
                ("type"@, Val::Str("scalar"@)),
                ("label"@, Val::Str(label)),
                ("path"@, path_val(path)),
                ("value"@, fallback),
            ],
        ),
        InputV::Boolean { label, path } => Val::Obj(
            seq![
                ("type"@, Val::Str("bool"@)),
                ("label"@, Val::Str(label)),
                ("path"@, path_val(path)),
            ],
        ),
        InputV::List { label, path, items } => Val::Obj(
            seq![
                ("type"@, Val::Str("list"@)),
                ("label"@, Val::Str(label)),
                ("path"@, path_val(path)),
                ("items"@, Val::Arr(inputs_vals(items))),
            ],
        ),
        InputV::Group { label, path, children } => Val::Obj(
            seq![
                ("type"@, Val::Str("group"@)),
                ("label"@, Val::Str(label)),
                ("path"@, path_val(path)),
                ("children"@, Val::Arr(inputs_vals(children))),
            ],
        ),
    }
}

pub open spec fn inputs_vals(xs: Seq<InputV>) -> Seq<Val>
    decreases xs,
{
    if xs.len() == 0 {
        Seq::empty()
    } else {
        inputs_vals(xs.drop_last()).push(input_val(xs.last()))
    }
}

/// The label a document field carries; anything but text falls back to empty.
pub open spec fn label_of(fs: Seq<(Seq<char>, Val)>) -> Seq<char> {
    match obj_lookup(fs, "label"@) {
        Some(Val::Str(l)) => l,
        _ => Seq::empty(),
    }
}

/// The relative path a document field carries; an absent path defaults to the
/// root suffix, a malformed one fails.
pub open spec fn path_field_of(fs: Seq<(Seq<char>, Val)>) -> Option<Seq<SegV>> {
    match obj_lookup(fs, "path"@) {
        None => Some(Seq::empty()),
        Some(pv) => path_of_val(pv),
    }
}

/// The declared input field a document value denotes, if it fits the closed
/// set of field kinds.
pub open spec fn input_of_val(v: Val) -> Option<InputV>
    decreases v,
{
    match v {
        Val::Obj(fs) => match obj_lookup(fs, "type"@) {
            Some(Val::Str(t)) => match path_field_of(fs) {
                None => None,
                Some(path) => {
                    let label = label_of(fs);
                    if t == "scalar"@ {
                        let fallback = match obj_lookup(fs, "value"@) {
                            Some(fv) => fv,
                            None => Val::Null,
                        };
                        Some(InputV::Scalar { label, path, fallback })
                    } else if t == "bool"@ {
                        Some(InputV::Boolean { label, path })
                    } else if t == "list"@ {
                        let j = find_key(fs, "items"@, 0);
                        if j < 0 || j >= fs.len() {
                            Some(InputV::List { label, path, items: Seq::empty() })
                        } else {
                            match fs[j].1 {
                                Val::Arr(es) => match inputs_of_vals(es) {
                                    None => None,
                                    Some(items) => Some(InputV::List { label, path, items }),
                                },
                                _ => None,
                            }
                        }
                    } else if t == "group"@ {
                        let j = find_key(fs, "children"@, 0);
                        if j < 0 || j >= fs.len() {
                            Some(InputV::Group { label, path, children: Seq::empty() })
                        } else {
                            match fs[j].1 {
                                Val::Arr(es) => match inputs_of_vals(es) {
                                    None => None,
                                    Some(children) => Some(InputV::Group { label, path, children }),
                                },
                                _ => None,
                            }
                        }
                    } else {
                        None
                    }
                },
            },
            _ => None,
        },
        _ => None,
    }
}

pub open spec fn inputs_of_vals(es: Seq<Val>) -> Option<Seq<InputV>>
    decreases es,
{
    if es.len() == 0 {
        Some(Seq::empty())
    } else {
        match inputs_of_vals(es.drop_last()) {
            None => None,
            Some(xs) => match input_of_val(es.last()) {
                None => None,
                Some(x) => Some(xs.push(x)),
            },
        }
    }
}

/// The document encoding of a whole scenario.
pub open spec fn scenario_val(s: ScenarioV) -> Val {
    Val::Obj(
        seq![("template"@, Val::Str(s.template)), ("inputs"@, Val::Arr(inputs_vals(s.inputs)))],
    )
}

/// The scenario a document denotes: the template and the declared inputs are
/// both required, and the inputs must fit the closed field kinds; everything
/// else is ignored.
pub open spec fn scenario_of_val(doc: Val) -> Result<ScenarioV, SchemaError> {
    match doc {
        Val::Obj(fs) => match obj_lookup(fs, "template"@) {
            Some(Val::Str(t)) => match obj_lookup(fs, "inputs"@) {
                Some(Val::Arr(es)) => match inputs_of_vals(es) {
                    None => Err(SchemaError::BadInputs),
                    Some(inputs) => Ok(ScenarioV { template: t, inputs }),
                },
                _ => Err(SchemaError::BadInputs),
            },
            _ => Err(SchemaError::MissingTemplate),
        },
        _ => Err(SchemaError::MissingTemplate),
    }
}

/// Every index segment of the path fits the machine's address range.
pub open spec fn path_bounded(p: Seq<SegV>) -> bool {
    forall|i: int|
        0 <= i < p.len() ==> match #[trigger] p[i] {
            SegV::Idx(n) => 0 <= n <= usize::MAX as int,
            SegV::Key(_) => true,
        }
}

/// Every path in the field declaration fits the machine's address range.
pub open spec fn input_bounded(x: InputV) -> bool
    decreases x,
{
    match x {
        InputV::Scalar { path, .. } => path_bounded(path),
        InputV::Boolean { path, .. } => path_bounded(path),
        InputV::List { path, items, .. } => path_bounded(path) && (forall|i: int|
            0 <= i < items.len() ==> input_bounded(#[trigger] items[i])),
        InputV::Group { path, children, .. } => path_bounded(path) && (forall|i: int|
            0 <= i < children.len() ==> input_bounded(#[trigger] children[i])),
    }
}

pub open spec fn inputs_bounded(xs: Seq<InputV>) -> bool {
    forall|i: int| 0 <= i < xs.len() ==> input_bounded(#[trigger] xs[i])
}

/// The document keys and type tags are pairwise distinct text.
pub(crate) proof fn lemma_keys_distinct()
    ensures
        "key"@ != "idx"@,
        "type"@ != "label"@,
        "type"@ != "path"@,
        "type"@ != "value"@,
        "type"@ != "items"@,
        "type"@ != "children"@,
        "label"@ != "path"@,
        "label"@ != "value"@,
        "label"@ != "items"@,
        "label"@ != "children"@,
        "path"@ != "value"@,
        "path"@ != "items"@,
        "path"@ != "children"@,
        "template"@ != "inputs"@,
        "template"@ != "data"@,
        "inputs"@ != "data"@,
        "state"@ != "template"@,
        "state"@ != "inputs"@,
        "state"@ != "data"@,
        "bool"@ != "scalar"@,
        "list"@ != "scalar"@,
        "list"@ != "bool"@,
        "group"@ != "scalar"@,
        "group"@ != "bool"@,
        "group"@ != "list"@,
{
    reveal_strlit("key");
    reveal_strlit("idx");
    reveal_strlit("type");
    reveal_strlit("label");
    reveal_strlit("path");
    reveal_strlit("value");
    reveal_strlit("items");
    reveal_strlit("children");
    reveal_strlit("template");
    reveal_strlit("inputs");
    reveal_strlit("data");
    reveal_strlit("state");
    reveal_strlit("loaded");
    reveal_strlit("scalar");
    reveal_strlit("bool");
    reveal_strlit("list");
    reveal_strlit("group");
    assert("key"@[0] == 'k' && "idx"@[0] == 'i');
    assert("type"@[0] == 't' && "path"@[0] == 'p');
    assert("label"@[0] == 'l' && "value"@[0] == 'v' && "items"@[0] == 'i');
    assert("children"@[0] == 'c' && "template"@[0] == 't' && "inputs"@[0] == 'i');
    assert("data"@[0] == 'd' && "state"@[0] == 's');
    assert("scalar"@[0] == 's' && "bool"@[0] == 'b' && "list"@[0] == 'l' && "group"@[0] == 'g');
}

/// Every path built of machine-sized segments is bounded, so every schema
/// that executable code can hold satisfies the round-trip laws.
pub proof fn lemma_input_view_bounded(x: &InputTypes)
    ensures
        input_bounded(x@),
    decreases x,
{
    match x {
        InputTypes::Scalar { path, .. } => {
            lemma_path_view_bounded(path);
        }
        InputTypes::Boolean { path, .. } => {
            lemma_path_view_bounded(path);
        }
        InputTypes::List { path, items, .. } => {
            lemma_path_view_bounded(path);
            lemma_inputs_view(items@);
            assert forall|i: int| 0 <= i < inputs_view(items@).len() implies input_bounded(
                #[trigger] inputs_view(items@)[i],
            ) by {
                assert(decreases_to!(*x => *items));
                assert(decreases_to!(*items => items@[i]));
                lemma_input_view_bounded(&items@[i]);
            }
        }
        InputTypes::Group { path, children, .. } => {
            lemma_path_view_bounded(path);
            lemma_inputs_view(children@);
            assert forall|i: int| 0 <= i < inputs_view(children@).len() implies input_bounded(
                #[trigger] inputs_view(children@)[i],
            ) by {
                assert(decreases_to!(*x => *children));
                assert(decreases_to!(*children => children@[i]));
                lemma_input_view_bounded(&children@[i]);
            }
        }
    }
}

/// Every scenario that executable code can hold has a bounded field list.
pub proof fn lemma_scenario_view_bounded(s: &Scenario)
    ensures
        inputs_bounded(s@.inputs),
{
    lemma_inputs_view(s.inputs@);
    assert forall|i: int| 0 <= i < s@.inputs.len() implies input_bounded(
        #[trigger] s@.inputs[i],
    ) by {
        lemma_input_view_bounded(&s.inputs@[i]);
    }
}

proof fn lemma_path_view_bounded(p: &PathExpr)
    ensures
        path_bounded(p@),
{
    assert forall|i: int| 0 <= i < p@.len() implies match #[trigger] p@[i] {
        SegV::Idx(n) => 0 <= n <= usize::MAX as int,
        SegV::Key(_) => true,
    } by {
        assert(p@[i] == p.segs@[i]@);
    }
}

/// A field declaration whose embedded default values are well formed.
pub open spec fn input_wf(x: InputV) -> bool
    decreases x,
{
    match x {
        InputV::Scalar { fallback, .. } => val_wf(fallback),
        InputV::Boolean { .. } => true,
        InputV::List { items, .. } => forall|i: int|
            0 <= i < items.len() ==> input_wf(#[trigger] items[i]),
        InputV::Group { children, .. } => forall|i: int|
            0 <= i < children.len() ==> input_wf(#[trigger] children[i]),
    }
}

pub open spec fn inputs_wf(xs: Seq<InputV>) -> bool {
    forall|i: int| 0 <= i < xs.len() ==> input_wf(#[trigger] xs[i])
}

/// `inputs_vals` is the elementwise image of `input_val`.
pub proof fn lemma_inputs_vals_index(xs: Seq<InputV>)
    ensures
        inputs_vals(xs).len() == xs.len(),
        forall|i: int| 0 <= i < xs.len() ==> inputs_vals(xs)[i] == input_val(#[trigger] xs[i]),
    decreases xs,
{
    if xs.len() > 0 {
        lemma_inputs_vals_index(xs.drop_last());
        assert forall|i: int| 0 <= i < xs.len() implies inputs_vals(xs)[i] == input_val(
            #[trigger] xs[i],
        ) by {
            if i < xs.len() - 1 {
                assert(xs.drop_last()[i] == xs[i]);
            }
        }
    }
}

/// `inputs_of_vals` decodes elementwise.
pub proof fn lemma_inputs_of_vals_index(es: Seq<Val>)
    requires
        inputs_of_vals(es) is Some,
    ensures
        inputs_of_vals(es)->Some_0.len() == es.len(),
        forall|i: int|
            0 <= i < es.len() ==> input_of_val(#[trigger] es[i]) == Some(
                inputs_of_vals(es)->Some_0[i],
            ),
    decreases es,
{
    if es.len() > 0 {
        lemma_inputs_of_vals_index(es.drop_last());
        assert forall|i: int| 0 <= i < es.len() implies input_of_val(#[trigger] es[i]) == Some(
            inputs_of_vals(es)->Some_0[i],
        ) by {
            if i < es.len() - 1 {
                assert(es.drop_last()[i] == es[i]);
            }
        }
    }
}

/// The encoded path is a well-formed document value.
pub proof fn lemma_path_val_wf(p: Seq<SegV>)
    ensures
        val_wf(path_val(p)),
{
    let es = Seq::new(p.len(), |i: int| seg_val(p[i]));
    assert forall|t: int| 0 <= t < es.len() implies val_wf(#[trigger] es[t]) by {
        match p[t] {
            SegV::Key(k) => {
                let fs0 = seq![("key"@, Val::Str(k))];
                assert(forall|u: int| 0 <= u < fs0.len() ==> val_wf(#[trigger] fs0[u].1));
                assert(val_wf(Val::Obj(fs0)));
            }
            SegV::Idx(n) => {
                let fs0 = seq![("idx"@, Val::Str(dec_digits(n)))];
                assert(forall|u: int| 0 <= u < fs0.len() ==> val_wf(#[trigger] fs0[u].1));
                assert(val_wf(Val::Obj(fs0)));
            }
        }
    }
    assert(val_wf(Val::Arr(es)));
}

/// The encoded field declaration is a well-formed document value.
pub proof fn lemma_input_val_wf(x: InputV)
    requires
        input_wf(x),
    ensures
        val_wf(input_val(x)),
    decreases x, 1int,
{
    lemma_keys_distinct();
    match x {
        InputV::Scalar { label, path, fallback } => {
            lemma_path_val_wf(path);
            let fs0 = seq![
                ("type"@, Val::Str("scalar"@)),
                ("label"@, Val::Str(label)),
                ("path"@, path_val(path)),
                ("value"@, fallback),
            ];
            assert forall|u: int| 0 <= u < fs0.len() implies val_wf(#[trigger] fs0[u].1) by {
                if u == 0 || u == 1 {
                    assert(val_wf(fs0[u].1));
                }
            }
            assert forall|a: int, b: int| 0 <= a < b < fs0.len() implies (#[trigger] fs0[a].0)
                != (#[trigger] fs0[b].0) by {}
            assert(val_wf(Val::Obj(fs0)));
        }
        InputV::Boolean { label, path } => {
            lemma_path_val_wf(path);
            let fs0 = seq![
                ("type"@, Val::Str("bool"@)),
                ("label"@, Val::Str(label)),
                ("path"@, path_val(path)),
            ];
            assert forall|u: int| 0 <= u < fs0.len() implies val_wf(#[trigger] fs0[u].1) by {
                if u == 0 || u == 1 {
                    assert(val_wf(fs0[u].1));
                }
            }
            assert forall|a: int, b: int| 0 <= a < b < fs0.len() implies (#[trigger] fs0[a].0)
                != (#[trigger] fs0[b].0) by {}
            assert(val_wf(Val::Obj(fs0)));
        }
        InputV::List { label, path, items } => {
            lemma_path_val_wf(path);
            lemma_inputs_vals_wf(items);
            let fs0 = seq![
                ("type"@, Val::Str("list"@)),
                ("label"@, Val::Str(label)),
                ("path"@, path_val(path)),
                ("items"@, Val::Arr(inputs_vals(items))),
            ];
            assert forall|u: int| 0 <= u < fs0.len() implies val_wf(#[trigger] fs0[u].1) by {
                if u == 0 || u == 1 {
                    assert(val_wf(fs0[u].1));
                }
            }
            assert forall|a: int, b: int| 0 <= a < b < fs0.len() implies (#[trigger] fs0[a].0)
                != (#[trigger] fs0[b].0) by {}
            assert(val_wf(Val::Obj(fs0)));
        }
        InputV::Group { label, path, children } => {
            lemma_path_val_wf(path);
            lemma_inputs_vals_wf(children);
            let fs0 = seq![
                ("type"@, Val::Str("group"@)),
                ("label"@, Val::Str(label)),
                ("path"@, path_val(path)),
                ("children"@, Val::Arr(inputs_vals(children))),
            ];
            assert forall|u: int| 0 <= u < fs0.len() implies val_wf(#[trigger] fs0[u].1) by {
                if u == 0 || u == 1 {
                    assert(val_wf(fs0[u].1));
                }
            }
            assert forall|a: int, b: int| 0 <= a < b < fs0.len() implies (#[trigger] fs0[a].0)
                != (#[trigger] fs0[b].0) by {}
            assert(val_wf(Val::Obj(fs0)));
        }
    }
}

/// The encoded field list is a well-formed document value.
pub proof fn lemma_inputs_vals_wf(xs: Seq<InputV>)
    requires
        inputs_wf(xs),
    ensures
        val_wf(Val::Arr(inputs_vals(xs))),
    decreases xs, 0int,
{
    lemma_inputs_vals_index(xs);
    assert forall|i: int| 0 <= i < inputs_vals(xs).len() implies val_wf(
        #[trigger] inputs_vals(xs)[i],
    ) by {
        assert(decreases_to!(xs => xs[i]));
        lemma_input_val_wf(xs[i]);
    }
    assert(val_wf(Val::Arr(inputs_vals(xs))));
}

/// A field declaration decoded from a well-formed document has well-formed
/// default values.
pub proof fn lemma_input_of_val_wf(v: Val)
    requires
        val_wf(v),
        input_of_val(v) is Some,
    ensures
        input_wf(input_of_val(v)->Some_0),
    decreases v, 1int,
{
    match v {
        Val::Obj(fs) => {
            lemma_find_key_props(fs, "value"@, 0);
            lemma_find_key_props(fs, "items"@, 0);
            lemma_find_key_props(fs, "children"@, 0);
            let x = input_of_val(v)->Some_0;
            match x {
                InputV::Scalar { fallback, .. } => {
                    let j = find_key(fs, "value"@, 0);
                    if j < fs.len() {
                        assert(val_wf(fs[j].1));
                    }
                }
                InputV::Boolean { .. } => {}
                InputV::List { items, .. } => {
                    let j = find_key(fs, "items"@, 0);
                    if 0 <= j < fs.len() {
                        assert(val_wf(fs[j].1));
                        match fs[j].1 {
                            Val::Arr(es) => {
                                lemma_inputs_of_vals_wf(es);
                            }
                            _ => {}
                        }
                    }
                }
                InputV::Group { children, .. } => {
                    let j = find_key(fs, "children"@, 0);
                    if 0 <= j < fs.len() {
                        assert(val_wf(fs[j].1));
                        match fs[j].1 {
                            Val::Arr(es) => {
                                lemma_inputs_of_vals_wf(es);
                            }
                            _ => {}
                        }
                    }
                }
            }
        }
        _ => {}
    }
}

/// A field list decoded from well-formed document values has well-formed
/// default values.
pub proof fn lemma_inputs_of_vals_wf(es: Seq<Val>)
    requires
        forall|i: int| 0 <= i < es.len() ==> val_wf(#[trigger] es[i]),
        inputs_of_vals(es) is Some,
    ensures
        inputs_wf(inputs_of_vals(es)->Some_0),
    decreases es, 0int,
{
    lemma_inputs_of_vals_index(es);
    let xs = inputs_of_vals(es)->Some_0;
    assert forall|i: int| 0 <= i < xs.len() implies input_wf(#[trigger] xs[i]) by {
        assert(decreases_to!(es => es[i]));
        lemma_input_of_val_wf(es[i]);
    }
}

/// The scenario a well-formed document decodes to has well-formed default
/// values in its field list.
pub proof fn lemma_scenario_of_val_wf(doc: Val)
    requires
        val_wf(doc),
        scenario_of_val(doc) is Ok,
    ensures
        inputs_wf(scenario_of_val(doc)->Ok_0.inputs),
{
    match doc {
        Val::Obj(fs) => {
            lemma_find_key_props(fs, "inputs"@, 0);
            let j = find_key(fs, "inputs"@, 0);
            if 0 <= j < fs.len() {
                assert(val_wf(fs[j].1));
                match fs[j].1 {
                    Val::Arr(es) => {
                        lemma_inputs_of_vals_wf(es);
                    }
                    _ => {}
                }
            }
        }
        _ => {}
    }
}

/// Law (round trip, segments): decoding an encoded segment gives it back.
pub proof fn lemma_seg_roundtrip(s: SegV)
    requires
        s matches SegV::Idx(n) ==> 0 <= n <= usize::MAX as int,
    ensures
        seg_of_val(seg_val(s)) == Some(s),
{
    lemma_keys_distinct();
    match s {
        SegV::Key(k) => {
            let fs = seq![("key"@, Val::Str(k))];
            lemma_obj_lookup_at(fs, "key"@, 0);
        }
        SegV::Idx(n) => {
            let ds = dec_digits(n);
            let fs = seq![("idx"@, Val::Str(ds))];
            lemma_obj_lookup_none(fs, "key"@);
            lemma_obj_lookup_at(fs, "idx"@, 0);
            dec_digits_are_digits(n);
            lemma_num_val_of_dec(n);
        }
    }
}

/// Law (round trip, paths): decoding an encoded path gives it back.
pub proof fn lemma_path_roundtrip(p: Seq<SegV>)
    requires
        path_bounded(p),
    ensures
        path_of_val(path_val(p)) == Some(p),
    decreases p.len(),
{
    let es = Seq::new(p.len(), |i: int| seg_val(p[i]));
    if p.len() == 0 {
        assert(segs_of_vals(es) == Some(Seq::<SegV>::empty()));
        assert(p =~= Seq::<SegV>::empty());
    } else {
        let q = p.drop_last();
        lemma_path_roundtrip(q);
        let es2 = Seq::new(q.len(), |i: int| seg_val(q[i]));
        assert(es.drop_last() =~= es2);
        lemma_seg_roundtrip(p.last());
        assert(es.last() == seg_val(p.last()));
        assert(segs_of_vals(es) == Some(q.push(p.last())));
        assert(q.push(p.last()) =~= p);
    }
}

/// Law (round trip, fields): decoding an encoded field declaration gives it
/// back.
pub proof fn lemma_input_roundtrip(x: InputV)
    requires
        input_bounded(x),
    ensures
        input_of_val(input_val(x)) == Some(x),
    decreases x,
{
    lemma_keys_distinct();
    match x {
        InputV::Scalar { label, path, fallback } => {
            let fs = seq![
                ("type"@, Val::Str("scalar"@)),
                ("label"@, Val::Str(label)),
                ("path"@, path_val(path)),
                ("value"@, fallback),
            ];
            lemma_obj_lookup_at(fs, "type"@, 0);
            lemma_obj_lookup_at(fs, "label"@, 1);
            lemma_obj_lookup_at(fs, "path"@, 2);
            lemma_obj_lookup_at(fs, "value"@, 3);
            lemma_path_roundtrip(path);
        }
        InputV::Boolean { label, path } => {
            let fs = seq![
                ("type"@, Val::Str("bool"@)),
                ("label"@, Val::Str(label)),
                ("path"@, path_val(path)),
            ];
            lemma_obj_lookup_at(fs, "type"@, 0);
            lemma_obj_lookup_at(fs, "label"@, 1);
            lemma_obj_lookup_at(fs, "path"@, 2);
            lemma_obj_lookup_none(fs, "value"@);
            lemma_path_roundtrip(path);
        }
        InputV::List { label, path, items } => {
            let fs = seq![
                ("type"@, Val::Str("list"@)),
                ("label"@, Val::Str(label)),
                ("path"@, path_val(path)),
                ("items"@, Val::Arr(inputs_vals(items))),
            ];
            lemma_obj_lookup_at(fs, "type"@, 0);
            lemma_obj_lookup_at(fs, "label"@, 1);
            lemma_obj_lookup_at(fs, "path"@, 2);
            lemma_obj_lookup_at(fs, "items"@, 3);
            assert(find_key(fs, "items"@, 0) == 3);
            lemma_path_roundtrip(path);
            lemma_inputs_roundtrip(items);
        }
        InputV::Group { label, path, children } => {
            let fs = seq![
                ("type"@, Val::Str("group"@)),
                ("label"@, Val::Str(label)),
                ("path"@, path_val(path)),
                ("children"@, Val::Arr(inputs_vals(children))),
            ];
            lemma_obj_lookup_at(fs, "type"@, 0);
            lemma_obj_lookup_at(fs, "label"@, 1);
            lemma_obj_lookup_at(fs, "path"@, 2);
            lemma_obj_lookup_at(fs, "children"@, 3);
            assert(find_key(fs, "children"@, 0) == 3);
            lemma_path_roundtrip(path);
            lemma_inputs_roundtrip(children);
        }
    }
}

pub proof fn lemma_inputs_roundtrip(xs: Seq<InputV>)
    requires
        inputs_bounded(xs),
    ensures
        inputs_of_vals(inputs_vals(xs)) == Some(xs),
    decreases xs,
{
    if xs.len() == 0 {
        assert(inputs_of_vals(Seq::empty()) == Some(Seq::<InputV>::empty()));
        assert(xs =~= Seq::<InputV>::empty());
    } else {
        let q = xs.drop_last();
        assert(inputs_bounded(q)) by {
            assert(forall|i: int| 0 <= i < q.len() ==> q[i] == xs[i]);
        }
        lemma_inputs_roundtrip(q);
        lemma_input_roundtrip(xs.last());
        let es = inputs_vals(xs);
        assert(es.drop_last() =~= inputs_vals(q));
        assert(es.last() == input_val(xs.last()));
        assert(q.push(xs.last()) =~= xs);
    }
}


/// Builds the document node for one path segment.
fn encode_seg(s: &Seg) -> (r: Node)
    ensures
        r@ == seg_val(s@),
{
    match s {
        Seg::Key(k) => {
            let mut fields: Vec<(String, Node)> = Vec::new();
            fields.push(("key".to_owned(), Node::Text(k.clone())));
            let r = Node::Obj(fields);
            proof {
                lemma_obj_view(fields@);
                assert(obj_view(fields@) =~= seq![("key"@, Val::Str(k@))]);
            }
            r
        }
        Seg::Idx(n) => {
            let mut ds = String::new();
            push_dec(&mut ds, *n as u64);
            let mut fields: Vec<(String, Node)> = Vec::new();
            fields.push(("idx".to_owned(), Node::Text(ds)));
            let r = Node::Obj(fields);
            proof {
                lemma_obj_view(fields@);
                assert(obj_view(fields@) =~= seq![("idx"@, Val::Str(dec_digits(*n as int)))]);
            }
            r
        }
    }
}

/// Builds the document node for a relative path.
#[verifier::loop_isolation(false)]
pub fn encode_path(p: &PathExpr) -> (r: Node)
    ensures
        r@ == path_val(p@),
{
    let mut es: Vec<Node> = Vec::new();
    let mut i: usize = 0;
    while i < p.segs.len()
        invariant
            i <= p.segs@.len(),
            arr_view(es@) =~= Seq::new(i as nat, |t: int| seg_val(p@[t])),
        decreases p.segs@.len() - i,
    {
        proof {
            assert(p@[i as int] == p.segs@[i as int]@);
        }
        let n = encode_seg(&p.segs[i]);
        let ghost nodes0 = es@;
        es.push(n);
        i = i + 1;
        proof {
            lemma_arr_view(es@);
            lemma_arr_view(nodes0);
            assert forall|t: int| 0 <= t < i implies arr_view(es@)[t] == seg_val(p@[t]) by {
                if t < i - 1 {
                    assert(arr_view(nodes0)[t] == seg_val(p@[t]));
                }
            }
            assert(arr_view(es@) =~= Seq::new(i as nat, |t: int| seg_val(p@[t])));
        }
    }
    let r = Node::Arr(es);
    proof {
        assert(arr_view(es@) =~= Seq::new(p@.len(), |t: int| seg_val(p@[t])));
    }
    r
}

/// Reads one path segment out of a document node.
#[verifier::loop_isolation(false)]
fn decode_seg(n: &Node) -> (r: Option<Seg>)
    ensures
        match r {
            Some(s) => seg_of_val(n@) == Some(s@),
            None => seg_of_val(n@) is None,
        },
{
    match n {
        Node::Obj(fields) => {
            proof {
                lemma_obj_view(fields@);
            }
            let key_name = "key".to_owned();
            let j = crate::store::find_field(fields, &key_name, 0);
            if j < fields.len() {
                if let Node::Text(k) = &fields[j].1 {
                    return Some(Seg::Key(k.clone()));
                }
            }
            proof {
                assert(!(obj_lookup(obj_view(fields@), "key"@) matches Some(Val::Str(_))));
            }
            let idx_name = "idx".to_owned();
            let j = crate::store::find_field(fields, &idx_name, 0);
            if j >= fields.len() {
                proof {
                    assert(obj_lookup(obj_view(fields@), "idx"@) is None);
                    assert(seg_of_val(n@) is None);
                }
                return None;
            }
            match &fields[j].1 {
                Node::Text(ds) => {
                    proof {
                        assert(obj_lookup(obj_view(fields@), "idx"@) == Some(Val::Str(ds@)));
                    }
                    let cs = str_chars(ds.as_str());
                    if cs.len() == 0 {
                        proof {
                            assert(seg_of_val(n@) is None);
                        }
                        return None;
                    }
                    let mut t: usize = 0;
                    while t < cs.len()
                        invariant
                            t <= cs@.len(),
                            cs@ == ds@,
                            forall|u: int| 0 <= u < t ==> is_digit(cs@[u]),
                        decreases cs@.len() - t,
                    {
                        let c = cs[t];
                        if !('0' <= c && c <= '9') {
                            proof {
                                assert(!is_digit(ds@[t as int]));
                            }
                            return None;
                        }
                        t = t + 1;
                    }
                    match crate::path::parse_num(&cs, 0, cs.len()) {
                        Some(v) => Some(Seg::Idx(v)),
                        None => None,
                    }
                }
                _ => None,
            }
        }
        _ => None,
    }
}

/// Reads a relative path out of a document node.
pub fn decode_path(n: &Node) -> (r: Option<PathExpr>)
    ensures
        match r {
            Some(p) => path_of_val(n@) == Some(p@),
            None => path_of_val(n@) is None,
        },
{
    match n {
        Node::Arr(es) => {
            proof {
                lemma_arr_view(es@);
            }
            match decode_segs_prefix(es, es.len()) {
                Some(segs) => {
                    let p = PathExpr { segs };
                    proof {
                        assert(arr_view(es@).take(es@.len() as int) =~= arr_view(es@));
                    }
                    Some(p)
                }
                None => {
                    proof {
                        assert(arr_view(es@).take(es@.len() as int) =~= arr_view(es@));
                    }
                    None
                }
            }
        }
        _ => None,
    }
}

fn decode_segs_prefix(es: &Vec<Node>, k: usize) -> (r: Option<Vec<Seg>>)
    requires
        k <= es@.len(),
    ensures
        match r {
            Some(v) => segs_of_vals(arr_view(es@).take(k as int)) == Some(
                v@.map_values(|s: Seg| s@),
            ),
            None => segs_of_vals(arr_view(es@).take(k as int)) is None,
        },
    decreases k,
{
    proof {
        lemma_arr_view(es@);
    }
    if k == 0 {
        let v: Vec<Seg> = Vec::new();
        proof {
            assert(arr_view(es@).take(0) =~= Seq::<Val>::empty());
            assert(v@.map_values(|s: Seg| s@) =~= Seq::<SegV>::empty());
        }
        Some(v)
    } else {
        proof {
            assert(arr_view(es@).take(k as int).drop_last() =~= arr_view(es@).take(k as int - 1));
            assert(arr_view(es@).take(k as int).last() == es@[k as int - 1]@);
        }
        match decode_segs_prefix(es, k - 1) {
            None => None,
            Some(mut v) => {
                match decode_seg(&es[k - 1]) {
                    None => None,
                    Some(s) => {
                        let ghost v0 = v@;
                        v.push(s);
                        proof {
                            assert(v@.map_values(|s: Seg| s@) =~= v0.map_values(
                                |s: Seg| s@,
                            ).push(s@));
                        }
                        Some(v)
                    }
                }
            }
        }
    }
}

/// Builds the document node for one declared input field.
pub fn encode_input(x: &InputTypes) -> (r: Node)
    ensures
        r@ == input_val(x@),
    decreases x, 0int,
{
    let mut fields: Vec<(String, Node)> = Vec::new();
    match x {
        InputTypes::Scalar { label, path, fallback } => {
            fields.push(("type".to_owned(), Node::Text("scalar".to_owned())));
            fields.push(("label".to_owned(), Node::Text(label.clone())));
            fields.push(("path".to_owned(), encode_path(path)));
            fields.push(("value".to_owned(), fallback.duplicate()));
            proof {
                lemma_obj_view(fields@);
                assert(obj_view(fields@) =~= seq![
                    ("type"@, Val::Str("scalar"@)),
                    ("label"@, Val::Str(label@)),
                    ("path"@, path_val(path@)),
                    ("value"@, fallback@),
                ]);
            }
            Node::Obj(fields)
        }
        InputTypes::Boolean { label, path } => {
            fields.push(("type".to_owned(), Node::Text("bool".to_owned())));
            fields.push(("label".to_owned(), Node::Text(label.clone())));
            fields.push(("path".to_owned(), encode_path(path)));
            proof {
                lemma_obj_view(fields@);
                assert(obj_view(fields@) =~= seq![
                    ("type"@, Val::Str("bool"@)),
                    ("label"@, Val::Str(label@)),
                    ("path"@, path_val(path@)),
                ]);
            }
            Node::Obj(fields)
        }
        InputTypes::List { label, path, items } => {
            proof {
                assert(*items == x->List_items);
                assert(decreases_to!(*x => *items));
            }
            let inner = encode_inputs_prefix(items, items.len());
            fields.push(("type".to_owned(), Node::Text("list".to_owned())));
            fields.push(("label".to_owned(), Node::Text(label.clone())));
            fields.push(("path".to_owned(), encode_path(path)));
            fields.push(("items".to_owned(), inner));
            proof {
                lemma_inputs_view(items@);
                assert(inputs_view(items@).take(items@.len() as int) =~= inputs_view(items@));
                lemma_obj_view(fields@);
                assert(obj_view(fields@) =~= seq![
                    ("type"@, Val::Str("list"@)),
                    ("label"@, Val::Str(label@)),
                    ("path"@, path_val(path@)),
                    ("items"@, Val::Arr(inputs_vals(inputs_view(items@)))),
                ]);
            }
            Node::Obj(fields)
        }
        InputTypes::Group { label, path, children } => {
            proof {
                assert(*children == x->Group_children);
                assert(decreases_to!(*x => *children));
            }
            let inner = encode_inputs_prefix(children, children.len());
            fields.push(("type".to_owned(), Node::Text("group".to_owned())));
            fields.push(("label".to_owned(), Node::Text(label.clone())));
            fields.push(("path".to_owned(), encode_path(path)));
            fields.push(("children".to_owned(), inner));
            proof {
                lemma_inputs_view(children@);
                assert(inputs_view(children@).take(children@.len() as int) =~= inputs_view(
                    children@,
                ));
                lemma_obj_view(fields@);
                assert(obj_view(fields@) =~= seq![
                    ("type"@, Val::Str("group"@)),
                    ("label"@, Val::Str(label@)),
                    ("path"@, path_val(path@)),
                    ("children"@, Val::Arr(inputs_vals(inputs_view(children@)))),
                ]);
            }
            Node::Obj(fields)
        }
    }
}

/// Builds the array node holding the first `k` declared fields.
pub fn encode_inputs_prefix(xs: &Vec<InputTypes>, k: usize) -> (r: Node)
    requires
        k <= xs@.len(),
    ensures
        r@ == Val::Arr(inputs_vals(inputs_view(xs@).take(k as int))),
    decreases xs@, k,
{
    proof {
        lemma_inputs_view(xs@);
    }
    if k == 0 {
        let es: Vec<Node> = Vec::new();
        proof {
            assert(inputs_view(xs@).take(0) =~= Seq::<InputV>::empty());
            assert(arr_view(es@) =~= Seq::<Val>::empty());
        }
        Node::Arr(es)
    } else {
        proof {
            assert(decreases_to!(xs@ => xs@[k as int - 1]));
        }
        let first = encode_inputs_prefix(xs, k - 1);
        let last = encode_input(&xs[k - 1]);
        let mut es = match first {
            Node::Arr(es) => es,
            _ => Vec::new(),
        };
        let ghost nodes0 = es@;
        es.push(last);
        proof {
            lemma_arr_view(es@);
            lemma_arr_view(nodes0);
            assert(inputs_view(xs@).take(k as int).drop_last() =~= inputs_view(xs@).take(
                k as int - 1,
            ));
            assert(inputs_view(xs@).take(k as int).last() == xs@[k as int - 1]@);
            assert(arr_view(es@) =~= inputs_vals(inputs_view(xs@).take(k as int)));
        }
        Node::Arr(es)
    }
}

/// Reads one declared input field out of a document node.
pub fn decode_input(n: &Node) -> (r: Option<InputTypes>)
    ensures
        match r {
            Some(x) => input_of_val(n@) == Some(x@),
            None => input_of_val(n@) is None,
        },
    decreases n, 0int,
{
    let fields = match n {
        Node::Obj(fields) => fields,
        _ => {
            return None;
        },
    };
    proof {
        lemma_obj_view(fields@);
    }
    let ghost fs = obj_view(fields@);
    let tag_name = "type".to_owned();
    let j = crate::store::find_field(fields, &tag_name, 0);
    if j >= fields.len() {
        return None;
    }
    let t = match &fields[j].1 {
        Node::Text(t) => t,
        _ => {
            return None;
        },
    };
    let path_name = "path".to_owned();
    let pj = crate::store::find_field(fields, &path_name, 0);
    let path = if pj >= fields.len() {
        PathExpr::root()
    } else {
        match decode_path(&fields[pj].1) {
            Some(p) => p,
            None => {
                return None;
            },
        }
    };
    let label_name = "label".to_owned();
    let lj = crate::store::find_field(fields, &label_name, 0);
    let label = if lj < fields.len() {
        match &fields[lj].1 {
            Node::Text(l) => l.clone(),
            _ => String::new(),
        }
    } else {
        String::new()
    };
    proof {
        assert(label@ == label_of(fs));
        assert(path_field_of(fs) == Some(path@));
    }
    let scalar_tag = "scalar".to_owned();
    let bool_tag = "bool".to_owned();
    let list_tag = "list".to_owned();
    let group_tag = "group".to_owned();
    if *t == scalar_tag {
        let value_name = "value".to_owned();
        let vj = crate::store::find_field(fields, &value_name, 0);
        let fallback = if vj < fields.len() {
            fields[vj].1.duplicate()
        } else {
            Node::Null
        };
        Some(InputTypes::Scalar { label, path, fallback })
    } else if *t == bool_tag {
        Some(InputTypes::Boolean { label, path })
    } else if *t == list_tag {
        let items_name = "items".to_owned();
        let ij = crate::store::find_field(fields, &items_name, 0);
        if ij >= fields.len() {
            Some(InputTypes::List { label, path, items: Vec::new() })
        } else {
            proof {
                assert(decreases_to!(*n => *fields));
                assert(decreases_to!(*fields => fields@[ij as int]));
                assert(decreases_to!(fields@[ij as int] => fields@[ij as int].1));
            }
            match &fields[ij].1 {
                Node::Arr(es) => {
                    match decode_inputs_prefix(es, es.len()) {
                        Some(items) => {
                            proof {
                                lemma_arr_view(es@);
                                assert(arr_view(es@).take(es@.len() as int) =~= arr_view(es@));
                            }
                            Some(InputTypes::List { label, path, items })
                        }
                        None => {
                            proof {
                                lemma_arr_view(es@);
                                assert(arr_view(es@).take(es@.len() as int) =~= arr_view(es@));
                            }
                            None
                        }
                    }
                }
                _ => None,
            }
        }
    } else if *t == group_tag {
        let children_name = "children".to_owned();
        let cj = crate::store::find_field(fields, &children_name, 0);
        if cj >= fields.len() {
            Some(InputTypes::Group { label, path, children: Vec::new() })
        } else {
            proof {
                assert(decreases_to!(*n => *fields));
                assert(decreases_to!(*fields => fields@[cj as int]));
                assert(decreases_to!(fields@[cj as int] => fields@[cj as int].1));
            }
            match &fields[cj].1 {
                Node::Arr(es) => {
                    match decode_inputs_prefix(es, es.len()) {
                        Some(children) => {
                            proof {
                                lemma_arr_view(es@);
                                assert(arr_view(es@).take(es@.len() as int) =~= arr_view(es@));
                            }
                            Some(InputTypes::Group { label, path, children })
                        }
                        None => {
                            proof {
                                lemma_arr_view(es@);
                                assert(arr_view(es@).take(es@.len() as int) =~= arr_view(es@));
                            }
                            None
                        }
                    }
                }
                _ => None,
            }
        }
    } else {
        None
    }
}

/// Reads the first `k` declared fields out of an array of document nodes.
fn decode_inputs_prefix(es: &Vec<Node>, k: usize) -> (r: Option<Vec<InputTypes>>)
    requires
        k <= es@.len(),
    ensures
        match r {
            Some(v) => inputs_of_vals(arr_view(es@).take(k as int)) == Some(inputs_view(v@)),
            None => inputs_of_vals(arr_view(es@).take(k as int)) is None,
        },
    decreases es@, k,
{
    proof {
        lemma_arr_view(es@);
    }
    if k == 0 {
        let v: Vec<InputTypes> = Vec::new();
        proof {
            assert(arr_view(es@).take(0) =~= Seq::<Val>::empty());
            assert(inputs_view(v@) =~= Seq::<InputV>::empty());
        }
        Some(v)
    } else {
        proof {
            assert(arr_view(es@).take(k as int).drop_last() =~= arr_view(es@).take(k as int - 1));
            assert(arr_view(es@).take(k as int).last() == es@[k as int - 1]@);
        }
        match decode_inputs_prefix(es, k - 1) {
            None => None,
            Some(mut v) => {
                proof {
                    assert(decreases_to!(es@ => es@[k as int - 1]));
                }
                match decode_input(&es[k - 1]) {
                    None => None,
                    Some(x) => {
                        let ghost v0 = v@;
                        v.push(x);
                        proof {
                            lemma_inputs_view(v@);
                            lemma_inputs_view(v0);
                            assert(inputs_view(v@) =~= inputs_view(v0).push(x@));
                        }
                        Some(v)
                    }
                }
            }
        }
    }
}

impl Scenario {
    /// Decodes a scenario out of a structured document: the template and the
    /// declared inputs are required, and the inputs must fit the closed field
    /// kinds.
    pub fn of_node(doc: &Node) -> (r: Result<Scenario, SchemaError>)
        ensures
            match r {
                Ok(s) => scenario_of_val(doc@) == Ok::<ScenarioV, SchemaError>(s@),
                Err(e) => scenario_of_val(doc@) == Err::<ScenarioV, SchemaError>(e),
            },
    {
        let fields = match doc {
            Node::Obj(fields) => fields,
            _ => {
                return Err(SchemaError::MissingTemplate);
            },
        };
        proof {
            lemma_obj_view(fields@);
        }
        let template_name = "template".to_owned();
        let tj = crate::store::find_field(fields, &template_name, 0);
        if tj >= fields.len() {
            return Err(SchemaError::MissingTemplate);
        }
        let template = match &fields[tj].1 {
            Node::Text(t) => t.clone(),
            _ => {
                return Err(SchemaError::MissingTemplate);
            },
        };
        let inputs_name = "inputs".to_owned();
        let ij = crate::store::find_field(fields, &inputs_name, 0);
        if ij >= fields.len() {
            return Err(SchemaError::BadInputs);
        }
        match &fields[ij].1 {
            Node::Arr(es) => {
                match decode_inputs_prefix(es, es.len()) {
                    Some(inputs) => {
                        proof {
                            lemma_arr_view(es@);
                            assert(arr_view(es@).take(es@.len() as int) =~= arr_view(es@));
                        }
                        Ok(Scenario { template, inputs })
                    }
                    None => {
                        proof {
                            lemma_arr_view(es@);
                            assert(arr_view(es@).take(es@.len() as int) =~= arr_view(es@));
                        }
                        Err(SchemaError::BadInputs)
                    }
                }
            }
            _ => Err(SchemaError::BadInputs),
        }
    }
}

/// Law (round trip, scenarios): decoding an encoded scenario gives it back.
pub proof fn lemma_scenario_roundtrip(s: ScenarioV)
    requires
        inputs_bounded(s.inputs),
    ensures
        scenario_of_val(scenario_val(s)) == Ok::<ScenarioV, SchemaError>(s),
{
    lemma_keys_distinct();
    let fs = seq![
        ("template"@, Val::Str(s.template)),
        ("inputs"@, Val::Arr(inputs_vals(s.inputs))),
    ];
    lemma_obj_lookup_at(fs, "template"@, 0);
    lemma_obj_lookup_at(fs, "inputs"@, 1);
    lemma_inputs_roundtrip(s.inputs);
    assert(scenario_of_val(scenario_val(s)) == Ok::<ScenarioV, SchemaError>(
        ScenarioV { template: s.template, inputs: s.inputs },
    ));
    assert(ScenarioV { template: s.template, inputs: s.inputs } == s);
}

} // verus!
