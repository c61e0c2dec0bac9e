//! The session controller: the sole owner and mutator of session state. It
//! loads a document into a scenario with fresh data, applies edits through
//! the store, renders through the engine, and persists and restores
//! snapshots — staying responsive on every bad input.

use vstd::prelude::*;
use crate::node::{Node, Val};
use crate::path::PathExpr;
use crate::store::{
    PathStore, StoreError, LeafOpV, update_val, remove_val, val_wf,
};
use crate::scenario::{
    Scenario, ScenarioV, SchemaError, scenario_of_val, inputs_vals, inputs_bounded, inputs_wf,
    lemma_inputs_roundtrip, lemma_keys_distinct, encode_inputs_prefix, lemma_inputs_view,
    lemma_inputs_vals_wf, lemma_scenario_of_val_wf, lemma_scenario_view_bounded,
};
use crate::text::{push_dec, dec_digits};
use crate::engine::{TemplateEngine, CompileError, RenderError, PartV, compile_tpl};
use crate::store::{obj_lookup, lemma_obj_lookup_at};
use vstd::string::StringExecFns;

verus! {

broadcast use vstd::std_specs::vec::group_vec_axioms;

/// Model of the session state.
pub enum SessionV {
    Init,
    Loaded { scenario: ScenarioV, data: Val },
}

/// The session state machine: nothing loaded, or a scenario with its data.
/// The two are always replaced together.
#[derive(Debug)]
pub enum SessionState {
    Init,
    Loaded { scenario: Scenario, inputs_data: PathStore },
}

impl SessionState {
    pub open spec fn view(&self) -> SessionV {
        match self {
            SessionState::Init => SessionV::Init,
            SessionState::Loaded { scenario, inputs_data } => SessionV::Loaded {
                scenario: scenario@,
                data: inputs_data@,
            },
        }
    }
}

/// A failed load: the document text, its schema, or its template is bad.
#[derive(Debug, PartialEq, Eq)]
pub enum LoadError {
    /// The document text is not valid JSON.
    BadDocument,
    /// The document does not decode into a scenario.
    Schema(SchemaError),
    /// The template does not compile.
    Compile(CompileError),
}

/// A failed edit: nothing is loaded, or the store refused the path.
#[derive(Debug, PartialEq, Eq)]
pub enum EditError {
    NotLoaded,
    Store(StoreError),
}

/// What restoring a snapshot did.
#[derive(Debug, PartialEq, Eq, Clone, Copy, Structural)]
pub enum RestoreOutcome {
    /// The snapshot was decoded, its template compiled, the session is loaded.
    Restored,
    /// No snapshot, or one that does not decode: nothing to restore.
    NothingToRestore,
    /// The snapshot decoded but its template no longer compiles: the caller
    /// must delete the snapshot; the session is back at the start.
    CorruptDeleted,
}

/// The snapshot document for a loaded session: the state tag, the scenario
/// and the data tree, under well-known keys.
pub open spec fn snap_val(s: ScenarioV, data: Val) -> Val {
    Val::Obj(
        seq![
            ("state"@, Val::Str("loaded"@)),
            ("template"@, Val::Str(s.template)),
            ("inputs"@, Val::Arr(inputs_vals(s.inputs))),
            ("data"@, data),
        ],
    )
}

/// Whether a document carries the loaded-state tag; anything else is no
/// snapshot of this library's.
pub open spec fn snap_tag_ok(doc: Val) -> bool {
    match doc {
        Val::Obj(fs) => obj_lookup(fs, "state"@) == Some(Val::Str("loaded"@)),
        _ => false,
    }
}

/// The data tree a snapshot document carries; absent data defaults to the
/// empty mapping.
pub open spec fn data_of_val(doc: Val) -> Val {
    match doc {
        Val::Obj(fs) => match obj_lookup(fs, "data"@) {
            Some(v) => v,
            None => Val::Obj(Seq::<(Seq<char>, Val)>::empty()),
        },
        _ => Val::Obj(Seq::<(Seq<char>, Val)>::empty()),
    }
}

/// Law (round trip, snapshots): a persisted snapshot of a loaded session
/// decodes back to the same scenario and an observationally identical data
/// tree.
pub proof fn lemma_snapshot_restore(s: ScenarioV, data: Val)
    requires
        inputs_bounded(s.inputs),
    ensures
        snap_tag_ok(snap_val(s, data)),
        scenario_of_val(snap_val(s, data)) == Ok::<ScenarioV, SchemaError>(s),
        data_of_val(snap_val(s, data)) == data,
{
    lemma_keys_distinct();
    let fs = seq![
        ("state"@, Val::Str("loaded"@)),
        ("template"@, Val::Str(s.template)),
        ("inputs"@, Val::Arr(inputs_vals(s.inputs))),
        ("data"@, data),
    ];
    lemma_obj_lookup_at(fs, "state"@, 0);
    lemma_obj_lookup_at(fs, "template"@, 1);
    lemma_obj_lookup_at(fs, "inputs"@, 2);
    lemma_obj_lookup_at(fs, "data"@, 3);
    lemma_inputs_roundtrip(s.inputs);
    assert(ScenarioV { template: s.template, inputs: s.inputs } == s);
}

/// The snapshot of a loaded session is itself a well-formed document (its
/// printed text then parses back exactly, as far as the JSON boundary's
/// parser accepts its nesting).
pub proof fn lemma_snap_val_wf(s: ScenarioV, data: Val)
    requires
        inputs_wf(s.inputs),
        val_wf(data),
    ensures
        val_wf(snap_val(s, data)),
{
    lemma_keys_distinct();
    lemma_inputs_vals_wf(s.inputs);
    let fs = seq![
        ("state"@, Val::Str("loaded"@)),
        ("template"@, Val::Str(s.template)),
        ("inputs"@, Val::Arr(inputs_vals(s.inputs))),
        ("data"@, data),
    ];
    assert forall|u: int| 0 <= u < fs.len() implies val_wf(#[trigger] fs[u].1) by {
        if u == 0 || u == 1 {
            assert(val_wf(fs[u].1));
        }
    }
    assert forall|a: int, b: int| 0 <= a < b < fs.len() implies (#[trigger] fs[a].0)
        != (#[trigger] fs[b].0) by {}
    assert(val_wf(Val::Obj(fs)));
}

/// An event the session reacts to.
#[derive(Debug)]
pub enum Msg {
    /// Reset to the initial state.
    Init,
    /// A navigation request.
    NavEvent(NavEvent),
    /// A raw scenario document arrived.
    FetchedJsonData(String),
    /// Persist the current session under the well-known key.
    SaveToLocalStorage,
    /// An input was edited: write the value at the path.
    EditedInput(PathExpr, Node),
    /// A list input's length changed: resize the array at the path.
    ListInputSizeChanged(PathExpr, usize),
    /// Remove the slot at the path.
    RemoveAt(PathExpr),
}

/// A navigation request.
#[derive(Debug, PartialEq, Eq, Clone, Copy, Structural)]
pub enum NavEvent {
    LoadDebugScenario,
    LoadFromLocalStorage,
    UnloadScenario,
}

/// A severity for user-visible feedback.
#[derive(Debug, PartialEq, Eq, Clone, Copy, Structural)]
pub enum Level {
    Info,
    Success,
    Warn,
    Error,
}

/// An outside action the host must perform for the session: the session
/// itself does no storage, transport or display work.
#[derive(Debug)]
pub enum Effect {
    /// Store this snapshot blob under the well-known key.
    Persist(String),
    /// Remove the snapshot under the well-known key.
    DeleteSnapshot,
    /// Show user-visible feedback.
    Notify(Level, String),
    /// Deliver the sample document back as `Msg::FetchedJsonData`.
    FetchSampleDocument,
}

/// The user-visible cause of a failed load, per spec'd failure kind.
pub open spec fn load_fail_text(e: LoadError) -> Seq<char> {
    match e {
        LoadError::BadDocument => "failed to load the scenario: the document is not valid JSON"@,
        LoadError::Schema(SchemaError::MissingTemplate) => "failed to load the scenario: the document has no template"@,
        LoadError::Schema(SchemaError::BadInputs) => "failed to load the scenario: the declared inputs do not decode"@,
        LoadError::Compile(ce) => "failed to load the scenario: the template does not compile at position "@.add(
            dec_digits(ce.pos as int),
        ),
    }
}

/// The effect list is exactly one error notification carrying the failed
/// load's cause.
pub open spec fn notifies_load_failure(fx: Seq<Effect>, e: LoadError) -> bool {
    &&& fx.len() == 1
    &&& fx[0] matches Effect::Notify(l, m)
    &&& (fx[0] matches Effect::Notify(l, m) ==> l == Level::Error && m@ == load_fail_text(e))
}

/// The effect list is exactly one persistence of the given session snapshot.
pub open spec fn persists_snap(fx: Seq<Effect>, s: ScenarioV, data: Val) -> bool {
    &&& fx.len() == 1
    &&& fx[0] matches Effect::Persist(b)
    &&& (fx[0] matches Effect::Persist(b) ==> b@ == crate::jsonio::json_text_of(
        snap_val(s, data),
    ))
}

/// The effect list is exactly one notification, at the given level.
pub open spec fn notifies_once(fx: Seq<Effect>, level: Level) -> bool {
    &&& fx.len() == 1
    &&& fx[0] matches Effect::Notify(l, _)
    &&& (fx[0] matches Effect::Notify(l, _) ==> l == level)
}

/// The effect list is exactly a snapshot deletion, then a notification at the
/// given level.
pub open spec fn deletes_then_notifies(fx: Seq<Effect>, level: Level) -> bool {
    &&& fx.len() == 2
    &&& fx[0] is DeleteSnapshot
    &&& fx[1] matches Effect::Notify(l, _)
    &&& (fx[1] matches Effect::Notify(l, _) ==> l == level)
}

/// Orchestrates load, edit, unload, persistence and restore; owns the store
/// and the engine exclusively.
#[derive(Debug)]
pub struct SessionController {
    state: SessionState,
    engine: TemplateEngine,
}

impl SessionController {
    /// The session state this controller holds.
    pub closed spec fn view(&self) -> SessionV {
        self.state@
    }

    /// The compiled template the engine holds, if any.
    pub closed spec fn engine_view(&self) -> Option<Seq<PartV>> {
        self.engine@
    }

    /// The controller's invariant: loaded data is a well-formed tree, the
    /// loaded schema's default values are well-formed trees, and its array
    /// indices fit the machine range (so the snapshot law applies to every
    /// loaded session).
    pub open spec fn inv(&self) -> bool {
        match self@ {
            SessionV::Loaded { scenario, data } => val_wf(data) && inputs_wf(scenario.inputs)
                && inputs_bounded(scenario.inputs),
            SessionV::Init => true,
        }
    }

    /// A fresh controller: nothing loaded, no template compiled.
    pub fn new() -> (r: SessionController)
        ensures
            r@ is Init,
            r.engine_view() is None,
            r.inv(),
    {
        SessionController { state: SessionState::Init, engine: TemplateEngine::new_uninit() }
    }

    /// Loads a decoded document: on success the session holds the document's
    /// scenario with fresh (empty) data and the compiled template; on any
    /// failure the prior state is left unchanged.
    pub fn load_from_node(&mut self, doc: &Node) -> (r: Result<(), LoadError>)
        requires
            old(self).inv(),
            val_wf(doc@),
        ensures
            final(self).inv(),
            match r {
                Ok(()) => {
                    &&& scenario_of_val(doc@) matches Ok(s)
                    &&& (scenario_of_val(doc@) matches Ok(s) ==> {
                        &&& compile_tpl(s.template, 0) is Ok
                        &&& final(self)@ == (SessionV::Loaded {
                            scenario: s,
                            data: Val::Obj(Seq::<(Seq<char>, Val)>::empty()),
                        })
                        &&& final(self).engine_view() == Some(compile_tpl(s.template, 0)->Ok_0)
                    })
                },
                Err(LoadError::Schema(e)) => {
                    &&& scenario_of_val(doc@) == Err::<ScenarioV, SchemaError>(e)
                    &&& final(self)@ == old(self)@
                    &&& final(self).engine_view() == old(self).engine_view()
                },
                Err(LoadError::Compile(e)) => {
                    &&& scenario_of_val(doc@) matches Ok(s)
                    &&& (scenario_of_val(doc@) matches Ok(s) ==> compile_tpl(s.template, 0)
                        == Err::<Seq<PartV>, int>(e.pos as int))
                    &&& final(self)@ == old(self)@
                    &&& final(self).engine_view() == old(self).engine_view()
                },
                Err(LoadError::BadDocument) => false,
            },
    {
        match Scenario::of_node(doc) {
            Err(e) => Err(LoadError::Schema(e)),
            Ok(sc) => {
                proof {
                    lemma_scenario_of_val_wf(doc@);
                    lemma_scenario_view_bounded(&sc);
                }
                match self.engine.set_template(sc.template.as_str()) {
                    Err(e) => Err(LoadError::Compile(e)),
                    Ok(()) => {
                        self.state = SessionState::Loaded {
                            scenario: sc,
                            inputs_data: PathStore::new(),
                        };
                        Ok(())
                    }
                }
            }
        }
    }

    /// Loads a raw JSON document: text that does not parse is rejected, and
    /// any failure leaves the prior state unchanged. The outcome is a
    /// function of the text alone.
    pub fn load_document(&mut self, text: &str) -> (r: Result<(), LoadError>)
        requires
            old(self).inv(),
        ensures
            final(self).inv(),
            r == Err::<(), LoadError>(LoadError::BadDocument) <==> crate::jsonio::json_doc_of(
                text@,
            ) is None,
            r is Err ==> final(self)@ == old(self)@ && final(self).engine_view() == old(
                self,
            ).engine_view(),
            crate::jsonio::json_doc_of(text@) matches Some(doc) ==> match r {
                Ok(()) => {
                    &&& scenario_of_val(doc) matches Ok(s)
                    &&& (scenario_of_val(doc) matches Ok(s) ==> {
                        &&& compile_tpl(s.template, 0) is Ok
                        &&& final(self)@ == (SessionV::Loaded {
                            scenario: s,
                            data: Val::Obj(Seq::<(Seq<char>, Val)>::empty()),
                        })
                        &&& final(self).engine_view() == Some(compile_tpl(s.template, 0)->Ok_0)
                    })
                },
                Err(LoadError::Schema(e)) => scenario_of_val(doc) == Err::<ScenarioV, SchemaError>(
                    e,
                ),
                Err(LoadError::Compile(e)) => {
                    &&& scenario_of_val(doc) matches Ok(s)
                    &&& (scenario_of_val(doc) matches Ok(s) ==> compile_tpl(s.template, 0) == Err::<
                        Seq<PartV>,
                        int,
                    >(e.pos as int))
                },
                Err(LoadError::BadDocument) => false,
            },
    {
        match crate::jsonio::text_to_node(text) {
            None => Err(LoadError::BadDocument),
            Some(doc) => self.load_from_node(&doc),
        }
    }

    /// Writes `v` at `p` in the loaded data; valid only in the loaded state,
    /// and a failed edit is dropped without changing the session.
    pub fn insert_at(&mut self, p: &PathExpr, v: Node) -> (r: Result<(), EditError>)
        requires
            old(self).inv(),
            val_wf(v@),
        ensures
            final(self).inv(),
            final(self).engine_view() == old(self).engine_view(),
            match r {
                Ok(()) => {
                    &&& old(self)@ matches SessionV::Loaded { scenario, data }
                    &&& (old(self)@ matches SessionV::Loaded { scenario, data } ==> final(self)@
                        == (SessionV::Loaded {
                        scenario,
                        data: update_val(Some(data), p@, 0, LeafOpV::Put(v@))->Ok_0,
                    }) && update_val(Some(data), p@, 0, LeafOpV::Put(v@)) is Ok)
                },
                Err(EditError::NotLoaded) => old(self)@ is Init && final(self)@ == old(self)@,
                Err(EditError::Store(e)) => {
                    &&& final(self)@ == old(self)@
                    &&& old(self)@ is Loaded
                    &&& e matches StoreError::TypeMismatch(q)
                    &&& (old(self)@ matches SessionV::Loaded { scenario, data } ==> (
                    e matches StoreError::TypeMismatch(q) ==> q@ == p@.take(q@.len() as int)
                        && update_val(Some(data), p@, 0, LeafOpV::Put(v@)) == Err::<Val, int>(
                        q@.len() as int,
                    )))
                },
            },
    {
        let mut st = SessionState::Init;
        core::mem::swap(&mut self.state, &mut st);
        match st {
            SessionState::Init => {
                self.state = SessionState::Init;
                Err(EditError::NotLoaded)
            }
            SessionState::Loaded { scenario, mut inputs_data } => {
                let r = inputs_data.insert_at(p, v);
                self.state = SessionState::Loaded { scenario, inputs_data };
                match r {
                    Ok(()) => Ok(()),
                    Err(e) => Err(EditError::Store(e)),
                }
            }
        }
    }

    /// Resizes the array at `p` in the loaded data; valid only in the loaded
    /// state, and a failed edit is dropped without changing the session.
    pub fn resize_array_at(&mut self, p: &PathExpr, n: usize) -> (r: Result<(), EditError>)
        requires
            old(self).inv(),
        ensures
            final(self).inv(),
            final(self).engine_view() == old(self).engine_view(),
            match r {
                Ok(()) => {
                    &&& old(self)@ matches SessionV::Loaded { scenario, data }
                    &&& (old(self)@ matches SessionV::Loaded { scenario, data } ==> final(self)@
                        == (SessionV::Loaded {
                        scenario,
                        data: update_val(Some(data), p@, 0, LeafOpV::Resize(n as int))->Ok_0,
                    }) && update_val(Some(data), p@, 0, LeafOpV::Resize(n as int)) is Ok)
                },
                Err(EditError::NotLoaded) => old(self)@ is Init && final(self)@ == old(self)@,
                Err(EditError::Store(e)) => {
                    &&& final(self)@ == old(self)@
                    &&& old(self)@ is Loaded
                    &&& e matches StoreError::TypeMismatch(q)
                    &&& (old(self)@ matches SessionV::Loaded { scenario, data } ==> (
                    e matches StoreError::TypeMismatch(q) ==> q@ == p@.take(q@.len() as int)
                        && update_val(Some(data), p@, 0, LeafOpV::Resize(n as int)) == Err::<
                        Val,
                        int,
                    >(q@.len() as int)))
                },
            },
    {
        let mut st = SessionState::Init;
        core::mem::swap(&mut self.state, &mut st);
        match st {
            SessionState::Init => {
                self.state = SessionState::Init;
                Err(EditError::NotLoaded)
            }
            SessionState::Loaded { scenario, mut inputs_data } => {
                let r = inputs_data.resize_array_at(p, n);
                self.state = SessionState::Loaded { scenario, inputs_data };
                match r {
                    Ok(()) => Ok(()),
                    Err(e) => Err(EditError::Store(e)),
                }
            }
        }
    }

    /// Removes the slot at `p` in the loaded data; valid only in the loaded
    /// state, and a failed edit is dropped without changing the session.
    pub fn remove_at(&mut self, p: &PathExpr) -> (r: Result<(), EditError>)
        requires
            old(self).inv(),
        ensures
            final(self).inv(),
            final(self).engine_view() == old(self).engine_view(),
            match r {
                Ok(()) => {
                    &&& old(self)@ matches SessionV::Loaded { scenario, data }
                    &&& (old(self)@ matches SessionV::Loaded { scenario, data } ==> final(self)@
                        == (SessionV::Loaded {
                        scenario,
                        data: remove_val(data, p@, 0)->Some_0,
                    }) && remove_val(data, p@, 0) is Some)
                },
                Err(EditError::NotLoaded) => old(self)@ is Init && final(self)@ == old(self)@,
                Err(EditError::Store(e)) => {
                    &&& final(self)@ == old(self)@
                    &&& old(self)@ is Loaded
                    &&& e == StoreError::NotFound
                    &&& (old(self)@ matches SessionV::Loaded { scenario, data } ==> remove_val(
                        data,
                        p@,
                        0,
                    ) is None)
                },
            },
    {
        let mut st = SessionState::Init;
        core::mem::swap(&mut self.state, &mut st);
        match st {
            SessionState::Init => {
                self.state = SessionState::Init;
                Err(EditError::NotLoaded)
            }
            SessionState::Loaded { scenario, mut inputs_data } => {
                let r = inputs_data.remove_at(p);
                self.state = SessionState::Loaded { scenario, inputs_data };
                match r {
                    Ok(()) => Ok(()),
                    Err(e) => Err(EditError::Store(e)),
                }
            }
        }
    }

    /// Unloads the session: back to the start, discarding only the in-memory
    /// copy — a persisted snapshot survives.
    pub fn unload(&mut self)
        ensures
            final(self).inv(),
            final(self)@ is Init,
            final(self).engine_view() == old(self).engine_view(),
    {
        self.state = SessionState::Init;
    }

    /// Renders the compiled template against the loaded data. A render
    /// failure never aborts: the caller surfaces it in place of the output.
    pub fn render_current(&self) -> (r: Result<String, RenderError>)
        ensures
            self@ is Init ==> r == Err::<String, RenderError>(RenderError::NotReady),
            self@ matches SessionV::Loaded { data, .. } ==> {
                &&& self.engine_view() is None ==> r == Err::<String, RenderError>(
                    RenderError::NotReady,
                )
                &&& self.engine_view() matches Some(parts) ==> match r {
                    Ok(s) => crate::engine::render_parts(parts, 0, data) == Ok::<Seq<char>, int>(
                        s@,
                    ),
                    Err(RenderError::Unresolved { part }) => crate::engine::render_parts(
                        parts,
                        0,
                        data,
                    ) == Err::<Seq<char>, int>(part as int),
                    Err(RenderError::NotReady) => false,
                }
            },
    {
        match &self.state {
            SessionState::Init => Err(RenderError::NotReady),
            SessionState::Loaded { inputs_data, .. } => {
                self.engine.render(inputs_data.root_node())
            }
        }
    }

    /// The snapshot document for the loaded session; nothing in the initial
    /// state.
    pub fn snapshot_node(&self) -> (r: Option<Node>)
        ensures
            self@ is Init <==> r is None,
            self@ matches SessionV::Loaded { scenario, data } ==> (r matches Some(n) && (
            r matches Some(n) ==> n@ == snap_val(scenario, data))),
    {
        match &self.state {
            SessionState::Init => None,
            SessionState::Loaded { scenario, inputs_data } => {
                let mut fields: Vec<(String, Node)> = Vec::new();
                fields.push(("state".to_owned(), Node::Text("loaded".to_owned())));
                fields.push(("template".to_owned(), Node::Text(scenario.template.clone())));
                fields.push(
                    (
                        "inputs".to_owned(),
                        encode_inputs_prefix(&scenario.inputs, scenario.inputs.len()),
                    ),
                );
                fields.push(("data".to_owned(), inputs_data.root_node().duplicate()));
                let n = Node::Obj(fields);
                proof {
                    crate::node::lemma_obj_view(fields@);
                    lemma_inputs_view(scenario.inputs@);
                    assert(crate::scenario::inputs_view(scenario.inputs@).take(
                        scenario.inputs@.len() as int,
                    ) =~= crate::scenario::inputs_view(scenario.inputs@));
                    assert(crate::node::obj_view(fields@) =~= seq![
                        ("state"@, Val::Str("loaded"@)),
                        ("template"@, Val::Str(scenario.template@)),
                        ("inputs"@, Val::Arr(inputs_vals(scenario@.inputs))),
                        ("data"@, inputs_data@),
                    ]);
                }
                Some(n)
            }
        }
    }

    /// The snapshot as JSON text, for the storage port; nothing in the
    /// initial state. The blob is exactly the printed snapshot document, and
    /// — as far as the JSON boundary's parser accepts its nesting — it parses
    /// back to exactly that document.
    pub fn snapshot_text(&self) -> (r: Option<String>)
        requires
            self.inv(),
        ensures
            self@ is Init <==> r is None,
            self@ matches SessionV::Loaded { scenario, data } ==> (r matches Some(b) && (
            r matches Some(b) ==> {
                &&& b@ == crate::jsonio::json_text_of(snap_val(scenario, data))
                &&& (crate::node::val_depth(snap_val(scenario, data)) <= 126
                    ==> crate::jsonio::json_doc_of(b@) == Some(snap_val(scenario, data)))
            })),
    {
        match self.snapshot_node() {
            None => None,
            Some(n) => {
                proof {
                    match self@ {
                        SessionV::Loaded { scenario, data } => {
                            lemma_snap_val_wf(scenario, data);
                        }
                        SessionV::Init => {}
                    }
                }
                Some(crate::jsonio::node_to_text(&n))
            }
        }
    }

    /// Applies one event: the decision core of the session. Loads and
    /// restores drive the state machine; edits are delegated to the store and
    /// a failed edit is dropped without changing the session. Every
    /// successful edit or load is followed by exactly one persistence effect
    /// and a failed one by exactly one notification; unloading and resetting
    /// emit nothing, so the persisted snapshot survives them. The returned
    /// flag says whether the view changed; the effects are the outside work
    /// the host must perform, in order. `stored` is the snapshot currently
    /// under the well-known key, if any.
    pub fn update(&mut self, msg: Msg, stored: Option<&str>) -> (r: (bool, Vec<Effect>))
        requires
            old(self).inv(),
            msg matches Msg::EditedInput(_, v) ==> val_wf(v@),
        ensures
            final(self).inv(),
            match msg {
                Msg::Init => {
                    &&& final(self)@ is Init
                    &&& final(self).engine_view() == old(self).engine_view()
                    &&& r.0 == true
                    &&& r.1@.len() == 0
                },
                Msg::NavEvent(nav) => match nav {
                    NavEvent::UnloadScenario => {
                        &&& final(self)@ is Init
                        &&& final(self).engine_view() == old(self).engine_view()
                        &&& r.0 == true
                        &&& r.1@.len() == 0
                    },
                    NavEvent::LoadDebugScenario => {
                        &&& final(self)@ == old(self)@
                        &&& final(self).engine_view() == old(self).engine_view()
                        &&& r.0 == false
                        &&& r.1@.len() == 1
                        &&& r.1@[0] is FetchSampleDocument
                    },
                    NavEvent::LoadFromLocalStorage => {
                        &&& r.0 == true
                        &&& (stored is None ==> final(self)@ is Init && final(self).engine_view()
                            == old(self).engine_view() && deletes_then_notifies(
                            r.1@,
                            Level::Warn,
                        ))
                        &&& (stored matches Some(t) ==> {
                            &&& (crate::jsonio::json_doc_of(t@) is None ==> final(self)@ is Init
                                && final(self).engine_view() == old(self).engine_view()
                                && deletes_then_notifies(r.1@, Level::Warn))
                            &&& (crate::jsonio::json_doc_of(t@) matches Some(d) ==> {
                                &&& ((!snap_tag_ok(d) || scenario_of_val(d) is Err)
                                    ==> final(self)@ is Init && final(self).engine_view()
                                    == old(self).engine_view() && deletes_then_notifies(
                                    r.1@,
                                    Level::Warn,
                                ))
                                &&& (scenario_of_val(d) matches Ok(s) ==> (snap_tag_ok(d)
                                    ==> match compile_tpl(s.template, 0) {
                                    Err(_) => final(self)@ is Init && final(self).engine_view()
                                        == old(self).engine_view() && deletes_then_notifies(
                                        r.1@,
                                        Level::Error,
                                    ),
                                    Ok(parts) => final(self)@ == (SessionV::Loaded {
                                        scenario: s,
                                        data: data_of_val(d),
                                    }) && final(self).engine_view() == Some(parts)
                                        && notifies_once(r.1@, Level::Success),
                                }))
                            })
                        })
                    },
                },
                Msg::FetchedJsonData(text) => {
                    &&& (crate::jsonio::json_doc_of(text@) is None ==> final(self)@ == old(self)@
                        && final(self).engine_view() == old(self).engine_view() && r.0 == false
                        && notifies_load_failure(r.1@, LoadError::BadDocument))
                    &&& (crate::jsonio::json_doc_of(text@) matches Some(doc)
                        ==> match scenario_of_val(doc) {
                        Err(se) => final(self)@ == old(self)@ && final(self).engine_view() == old(
                            self,
                        ).engine_view() && r.0 == false && notifies_load_failure(
                            r.1@,
                            LoadError::Schema(se),
                        ),
                        Ok(s) => match compile_tpl(s.template, 0) {
                            Err(epos) => final(self)@ == old(self)@ && final(self).engine_view()
                                == old(self).engine_view() && r.0 == false && notifies_load_failure(
                                r.1@,
                                LoadError::Compile((CompileError { pos: epos as usize })),
                            ),
                            Ok(parts) => {
                                &&& final(self)@ == (SessionV::Loaded {
                                    scenario: s,
                                    data: Val::Obj(Seq::<(Seq<char>, Val)>::empty()),
                                })
                                &&& final(self).engine_view() == Some(parts)
                                &&& r.0 == true
                                &&& persists_snap(
                                    r.1@,
                                    s,
                                    Val::Obj(Seq::<(Seq<char>, Val)>::empty()),
                                )
                            },
                        },
                    })
                },
                Msg::SaveToLocalStorage => {
                    &&& final(self)@ == old(self)@
                    &&& final(self).engine_view() == old(self).engine_view()
                    &&& r.0 == false
                    &&& (old(self)@ matches SessionV::Loaded { scenario, data } ==> persists_snap(
                        r.1@,
                        scenario,
                        data,
                    ))
                    &&& (old(self)@ is Init ==> r.1@.len() == 0)
                },
                Msg::EditedInput(p, v) => {
                    &&& final(self).engine_view() == old(self).engine_view()
                    &&& (old(self)@ is Init ==> final(self)@ == old(self)@ && r.0 == false
                        && notifies_once(r.1@, Level::Warn))
                    &&& (old(self)@ matches SessionV::Loaded { scenario, data } ==> r.0 == true
                        && match update_val(Some(data), p@, 0, LeafOpV::Put(v@)) {
                        Ok(d2) => final(self)@ == (SessionV::Loaded { scenario, data: d2 })
                            && persists_snap(r.1@, scenario, d2),
                        Err(_) => final(self)@ == old(self)@ && notifies_once(r.1@, Level::Error),
                    })
                },
                Msg::ListInputSizeChanged(p, n) => {
                    &&& final(self).engine_view() == old(self).engine_view()
                    &&& (old(self)@ is Init ==> final(self)@ == old(self)@ && r.0 == false
                        && notifies_once(r.1@, Level::Warn))
                    &&& (old(self)@ matches SessionV::Loaded { scenario, data } ==> r.0 == true
                        && match update_val(Some(data), p@, 0, LeafOpV::Resize(n as int)) {
                        Ok(d2) => final(self)@ == (SessionV::Loaded { scenario, data: d2 })
                            && persists_snap(r.1@, scenario, d2),
                        Err(_) => final(self)@ == old(self)@ && notifies_once(r.1@, Level::Warn),
                    })
                },
                Msg::RemoveAt(p) => {
                    &&& final(self).engine_view() == old(self).engine_view()
                    &&& (old(self)@ is Init ==> final(self)@ == old(self)@ && r.0 == false
                        && notifies_once(r.1@, Level::Warn))
                    &&& (old(self)@ matches SessionV::Loaded { scenario, data } ==> r.0 == true
                        && match remove_val(data, p@, 0) {
                        Some(d2) => final(self)@ == (SessionV::Loaded { scenario, data: d2 })
                            && persists_snap(r.1@, scenario, d2),
                        None => final(self)@ == old(self)@ && notifies_once(r.1@, Level::Warn),
                    })
                },
            },
    {
        let mut fx: Vec<Effect> = Vec::new();
        match msg {
            Msg::Init => {
                self.state = SessionState::Init;
                (true, fx)
            }
            Msg::NavEvent(NavEvent::LoadDebugScenario) => {
                fx.push(Effect::FetchSampleDocument);
                (false, fx)
            }
            Msg::NavEvent(NavEvent::LoadFromLocalStorage) => {
                match self.restore_text(stored) {
                    RestoreOutcome::Restored => {
                        fx.push(
                            Effect::Notify(Level::Success, "restored previous session".to_owned()),
                        );
                    }
                    RestoreOutcome::NothingToRestore => {
                        fx.push(Effect::DeleteSnapshot);
                        fx.push(
                            Effect::Notify(
                                Level::Warn,
                                "nothing to restore from storage".to_owned(),
                            ),
                        );
                    }
                    RestoreOutcome::CorruptDeleted => {
                        fx.push(Effect::DeleteSnapshot);
                        fx.push(
                            Effect::Notify(
                                Level::Error,
                                "the stored template no longer compiles".to_owned(),
                            ),
                        );
                    }
                }
                (true, fx)
            }
            Msg::NavEvent(NavEvent::UnloadScenario) => {
                self.unload();
                (true, fx)
            }
            Msg::FetchedJsonData(text) => {
                match self.load_document(text.as_str()) {
                    Ok(()) => {
                        match self.snapshot_text() {
                            Some(blob) => fx.push(Effect::Persist(blob)),
                            None => {}
                        }
                        (true, fx)
                    }
                    Err(e) => {
                        let message = load_fail_message(&e);
                        fx.push(Effect::Notify(Level::Error, message));
                        (false, fx)
                    }
                }
            }
            Msg::SaveToLocalStorage => {
                match self.snapshot_text() {
                    Some(blob) => fx.push(Effect::Persist(blob)),
                    None => {}
                }
                (false, fx)
            }
            Msg::EditedInput(p, v) => {
                match self.insert_at(&p, v) {
                    Ok(()) => {
                        match self.snapshot_text() {
                            Some(blob) => fx.push(Effect::Persist(blob)),
                            None => {}
                        }
                        (true, fx)
                    }
                    Err(EditError::NotLoaded) => {
                        fx.push(Effect::Notify(Level::Warn, "no scenario is loaded".to_owned()));
                        (false, fx)
                    }
                    Err(EditError::Store(_)) => {
                        let message = "failed to write the edited value at ".to_owned().concat(
                            p.format().as_str(),
                        );
                        fx.push(Effect::Notify(Level::Error, message));
                        (true, fx)
                    }
                }
            }
            Msg::ListInputSizeChanged(p, n) => {
                match self.resize_array_at(&p, n) {
                    Ok(()) => {
                        match self.snapshot_text() {
                            Some(blob) => fx.push(Effect::Persist(blob)),
                            None => {}
                        }
                        (true, fx)
                    }
                    Err(EditError::NotLoaded) => {
                        fx.push(Effect::Notify(Level::Warn, "no scenario is loaded".to_owned()));
                        (false, fx)
                    }
                    Err(EditError::Store(_)) => {
                        let message = "failed to resize the array at ".to_owned().concat(
                            p.format().as_str(),
                        );
                        fx.push(Effect::Notify(Level::Warn, message));
                        (true, fx)
                    }
                }
            }
            Msg::RemoveAt(p) => {
                match self.remove_at(&p) {
                    Ok(()) => {
                        match self.snapshot_text() {
                            Some(blob) => fx.push(Effect::Persist(blob)),
                            None => {}
                        }
                        (true, fx)
                    }
                    Err(EditError::NotLoaded) => {
                        fx.push(Effect::Notify(Level::Warn, "no scenario is loaded".to_owned()));
                        (false, fx)
                    }
                    Err(EditError::Store(_)) => {
                        let message = "failed to remove the slot at ".to_owned().concat(
                            p.format().as_str(),
                        );
                        fx.push(Effect::Notify(Level::Warn, message));
                        (true, fx)
                    }
                }
            }
        }
    }

    /// Restores a decoded snapshot. An absent snapshot, one without the
    /// loaded-state tag, or one that does not decode is nothing to restore; a
    /// snapshot whose template no longer compiles tells the caller to delete
    /// it; both leave the session back at the start. The outcome is a
    /// function of the document alone.
    pub fn restore_from_node(&mut self, doc: Option<&Node>) -> (r: RestoreOutcome)
        requires
            old(self).inv(),
            doc matches Some(d) ==> val_wf(d@),
        ensures
            final(self).inv(),
            doc is None ==> r == RestoreOutcome::NothingToRestore,
            match r {
                RestoreOutcome::NothingToRestore => {
                    &&& final(self)@ is Init
                    &&& (doc matches Some(d) ==> !snap_tag_ok(d@) || scenario_of_val(d@) is Err)
                    &&& final(self).engine_view() == old(self).engine_view()
                },
                RestoreOutcome::CorruptDeleted => {
                    &&& final(self)@ is Init
                    &&& doc matches Some(d)
                    &&& (doc matches Some(d) ==> snap_tag_ok(d@) && (scenario_of_val(d@) matches Ok(
                        s,
                    )) && (scenario_of_val(d@) matches Ok(s) ==> compile_tpl(s.template, 0) is Err))
                    &&& final(self).engine_view() == old(self).engine_view()
                },
                RestoreOutcome::Restored => {
                    &&& doc matches Some(d)
                    &&& (doc matches Some(d) ==> snap_tag_ok(d@) && (scenario_of_val(d@) matches Ok(
                        s,
                    )) && (scenario_of_val(d@) matches Ok(s) ==> {
                        &&& compile_tpl(s.template, 0) is Ok
                        &&& final(self)@ == (SessionV::Loaded {
                            scenario: s,
                            data: data_of_val(d@),
                        })
                        &&& final(self).engine_view() == Some(compile_tpl(s.template, 0)->Ok_0)
                    }))
                },
            },
    {
        let d = match doc {
            None => {
                self.state = SessionState::Init;
                return RestoreOutcome::NothingToRestore;
            },
            Some(d) => d,
        };
        if !has_snap_tag(d) {
            self.state = SessionState::Init;
            return RestoreOutcome::NothingToRestore;
        }
        match Scenario::of_node(d) {
            Err(_) => {
                self.state = SessionState::Init;
                RestoreOutcome::NothingToRestore
            }
            Ok(sc) => {
                proof {
                    lemma_scenario_of_val_wf(d@);
                    lemma_scenario_view_bounded(&sc);
                }
                match self.engine.set_template(sc.template.as_str()) {
                    Err(_) => {
                        self.state = SessionState::Init;
                        RestoreOutcome::CorruptDeleted
                    }
                    Ok(()) => {
                        let data = restore_data(d);
                        self.state = SessionState::Loaded {
                            scenario: sc,
                            inputs_data: data,
                        };
                        RestoreOutcome::Restored
                    }
                }
            }
        }
    }

    /// Restores a snapshot from its JSON text: absent or unparsable text, a
    /// missing state tag and an undecodable document are all nothing to
    /// restore; a decoded snapshot whose template no longer compiles tells
    /// the caller to delete it. The outcome is a function of the text alone.
    pub fn restore_text(&mut self, text: Option<&str>) -> (r: RestoreOutcome)
        requires
            old(self).inv(),
        ensures
            final(self).inv(),
            text is None ==> r == RestoreOutcome::NothingToRestore,
            text matches Some(t) ==> (crate::jsonio::json_doc_of(t@) is None ==> r
                == RestoreOutcome::NothingToRestore),
            match r {
                RestoreOutcome::NothingToRestore => {
                    &&& final(self)@ is Init
                    &&& final(self).engine_view() == old(self).engine_view()
                    &&& (text matches Some(t) ==> (crate::jsonio::json_doc_of(t@) matches Some(d)
                        ==> !snap_tag_ok(d) || scenario_of_val(d) is Err))
                },
                RestoreOutcome::CorruptDeleted => {
                    &&& final(self)@ is Init
                    &&& final(self).engine_view() == old(self).engine_view()
                    &&& text matches Some(t)
                    &&& (text matches Some(t) ==> (crate::jsonio::json_doc_of(t@) matches Some(d))
                        && (crate::jsonio::json_doc_of(t@) matches Some(d) ==> snap_tag_ok(d)
                        && (scenario_of_val(d) matches Ok(s)) && (scenario_of_val(d) matches Ok(s)
                        ==> compile_tpl(s.template, 0) is Err)))
                },
                RestoreOutcome::Restored => {
                    &&& text matches Some(t)
                    &&& (text matches Some(t) ==> (crate::jsonio::json_doc_of(t@) matches Some(d))
                        && (crate::jsonio::json_doc_of(t@) matches Some(d) ==> snap_tag_ok(d)
                        && (scenario_of_val(d) matches Ok(s)) && (scenario_of_val(d) matches Ok(s)
                        ==> {
                        &&& compile_tpl(s.template, 0) is Ok
                        &&& final(self)@ == (SessionV::Loaded {
                            scenario: s,
                            data: data_of_val(d),
                        })
                        &&& final(self).engine_view() == Some(compile_tpl(s.template, 0)->Ok_0)
                    })))
                },
            },
    {
        let n = match text {
            None => None,
            Some(t) => crate::jsonio::text_to_node(t),
        };
        match n {
            None => {
                self.state = SessionState::Init;
                RestoreOutcome::NothingToRestore
            }
            Some(d) => self.restore_from_node(Some(&d)),
        }
    }
}

/// Builds the user-visible cause text of a failed load.
fn load_fail_message(e: &LoadError) -> (r: String)
    ensures
        r@ == load_fail_text(*e),
{
    match e {
        LoadError::BadDocument => {
            "failed to load the scenario: the document is not valid JSON".to_owned()
        }
        LoadError::Schema(SchemaError::MissingTemplate) => {
            "failed to load the scenario: the document has no template".to_owned()
        }
        LoadError::Schema(SchemaError::BadInputs) => {
            "failed to load the scenario: the declared inputs do not decode".to_owned()
        }
        LoadError::Compile(ce) => {
            let mut s =
                "failed to load the scenario: the template does not compile at position ".to_owned();
            push_dec(&mut s, ce.pos as u64);
            s
        }
    }
}

/// Tests the loaded-state tag of a snapshot document.
fn has_snap_tag(d: &Node) -> (r: bool)
    ensures
        r == snap_tag_ok(d@),
{
    match d {
        Node::Obj(fields) => {
            proof {
                crate::node::lemma_obj_view(fields@);
            }
            let state_name = "state".to_owned();
            let j = crate::store::find_field(fields, &state_name, 0);
            if j < fields.len() {
                match &fields[j].1 {
                    Node::Text(tag) => *tag == "loaded".to_owned(),
                    _ => false,
                }
            } else {
                false
            }
        }
        _ => false,
    }
}

/// Pulls the data tree out of a snapshot document.
fn restore_data(d: &Node) -> (r: PathStore)
    requires
        val_wf(d@),
    ensures
        r@ == data_of_val(d@),
        r.wf(),
{
    match d {
        Node::Obj(fields) => {
            proof {
                crate::node::lemma_obj_view(fields@);
            }
            let data_name = "data".to_owned();
            let j = crate::store::find_field(fields, &data_name, 0);
            if j < fields.len() {
                proof {
                    assert(val_wf(crate::node::obj_view(fields@)[j as int].1));
                }
                PathStore::from_root(fields[j].1.duplicate())
            } else {
                PathStore::new()
            }
        }
        _ => PathStore::new(),
    }
}

} // verus!
