use pathstore::engine::RenderError;
use pathstore::node::Node;
use pathstore::path::PathExpr;
use pathstore::scenario::{decode_input, encode_input, InputTypes, SchemaError};
use pathstore::session::{
    EditError, Effect, Level, LoadError, Msg, NavEvent, RestoreOutcome, SessionController,
};

const DOC: &str = r#"{
  "template": "Hello {{user.name}} ({{user.age}})",
  "inputs": [
    {"type": "group", "label": "User", "path": [{"key": "user"}], "children": [
      {"type": "scalar", "label": "Name", "path": [{"key": "name"}]},
      {"type": "scalar", "label": "Age", "path": [{"key": "age"}], "value": 0}
    ]}
  ]
}"#;

fn p(s: &str) -> PathExpr {
    PathExpr::parse(s).unwrap()
}

#[test]
fn load_edit_and_render() {
    let mut session = SessionController::new();
    assert_eq!(session.render_current(), Err(RenderError::NotReady));
    session.load_document(DOC).unwrap();
    session
        .insert_at(&p("user.name"), Node::Text("Ada".to_owned()))
        .unwrap();
    session.insert_at(&p("user.age"), Node::Int(36)).unwrap();
    assert_eq!(session.render_current(), Ok("Hello Ada (36)".to_owned()));
    session.remove_at(&p("user.age")).unwrap();
    assert_eq!(
        session.render_current(),
        Err(RenderError::Unresolved { part: 3 })
    );
}

#[test]
fn loading_a_document_missing_the_template_fails_and_keeps_prior_state() {
    let mut session = SessionController::new();
    session.load_document(DOC).unwrap();
    session
        .insert_at(&p("user.name"), Node::Text("Ada".to_owned()))
        .unwrap();
    session.insert_at(&p("user.age"), Node::Int(1)).unwrap();
    let before = session.snapshot_node().unwrap();

    let bad = r#"{"inputs": []}"#;
    assert_eq!(
        session.load_document(bad),
        Err(LoadError::Schema(SchemaError::MissingTemplate))
    );
    // the prior session is untouched: same snapshot, same rendering
    assert_eq!(session.snapshot_node().unwrap(), before);
    assert_eq!(session.render_current(), Ok("Hello Ada (1)".to_owned()));
}

#[test]
fn loading_undecodable_inputs_fails_with_a_schema_error() {
    let mut session = SessionController::new();
    let bad = r#"{"template": "x", "inputs": [{"type": "mystery"}]}"#;
    assert_eq!(
        session.load_document(bad),
        Err(LoadError::Schema(SchemaError::BadInputs))
    );
    assert_eq!(session.render_current(), Err(RenderError::NotReady));
}

#[test]
fn loading_a_document_missing_the_inputs_fails_with_a_schema_error() {
    let mut session = SessionController::new();
    let bad = r#"{"template": "x"}"#;
    assert_eq!(
        session.load_document(bad),
        Err(LoadError::Schema(SchemaError::BadInputs))
    );
}

#[test]
fn edits_outside_a_loaded_session_are_refused() {
    let mut session = SessionController::new();
    assert_eq!(
        session.insert_at(&p("a"), Node::Int(1)),
        Err(EditError::NotLoaded)
    );
}

#[test]
fn persist_then_restore_reproduces_the_session() {
    let mut session = SessionController::new();
    session.load_document(DOC).unwrap();
    session
        .insert_at(&p("user.name"), Node::Text("Ada".to_owned()))
        .unwrap();
    session.insert_at(&p("user.tags[1]"), Node::Bool(true)).unwrap();
    session.insert_at(&p("user.age"), Node::Int(36)).unwrap();
    let blob = session.snapshot_text().unwrap();

    let mut restored = SessionController::new();
    assert_eq!(
        restored.restore_text(Some(blob.as_str())),
        RestoreOutcome::Restored
    );
    // observationally identical: the same snapshot document and rendering
    // (mapping order survives the text boundary)
    assert_eq!(restored.snapshot_node(), session.snapshot_node());
    assert_eq!(restored.render_current(), session.render_current());
    assert_eq!(
        restored.render_current(),
        Ok("Hello Ada (36)".to_owned())
    );
}

#[test]
fn restoring_nothing_or_garbage_is_nothing_to_restore() {
    let mut session = SessionController::new();
    assert_eq!(session.restore_text(None), RestoreOutcome::NothingToRestore);
    assert_eq!(
        session.restore_text(Some("not json")),
        RestoreOutcome::NothingToRestore
    );
    assert_eq!(
        session.restore_text(Some(r#"{"data": {}}"#)),
        RestoreOutcome::NothingToRestore
    );
    // a decodable document without the loaded-state tag is no snapshot
    assert_eq!(
        session.restore_text(Some(r#"{"template": "x", "inputs": []}"#)),
        RestoreOutcome::NothingToRestore
    );
}

#[test]
fn restoring_a_snapshot_whose_template_no_longer_compiles_deletes_it() {
    let mut session = SessionController::new();
    let corrupt =
        r#"{"state": "loaded", "template": "{{broken", "inputs": [], "data": {"a": 1}}"#;
    assert_eq!(
        session.restore_text(Some(corrupt)),
        RestoreOutcome::CorruptDeleted
    );
    // back at the start: nothing loaded, nothing to persist
    assert_eq!(session.render_current(), Err(RenderError::NotReady));
    assert_eq!(session.snapshot_text(), None);
}

#[test]
fn unload_discards_only_the_in_memory_copy() {
    let mut session = SessionController::new();
    session.load_document(DOC).unwrap();
    session
        .insert_at(&p("user.name"), Node::Text("Ada".to_owned()))
        .unwrap();
    let blob = session.snapshot_text().unwrap();
    session.unload();
    assert_eq!(session.snapshot_text(), None);
    // the persisted blob still restores
    assert_eq!(
        session.restore_text(Some(blob.as_str())),
        RestoreOutcome::Restored
    );
}

#[test]
fn update_drives_the_state_machine_and_schedules_persistence() {
    let mut session = SessionController::new();

    // an edit before anything is loaded warns, persists nothing, no redraw
    let (rendered, fx) = session.update(Msg::EditedInput(p("a"), Node::Int(1)), None);
    assert!(!rendered);
    assert!(matches!(fx.as_slice(), [Effect::Notify(Level::Warn, _)]));

    // asking for the sample scenario only requests a fetch
    let (rendered, fx) = session.update(Msg::NavEvent(NavEvent::LoadDebugScenario), None);
    assert!(!rendered);
    assert!(matches!(fx.as_slice(), [Effect::FetchSampleDocument]));

    // the fetched document loads and is persisted
    let (rendered, fx) = session.update(Msg::FetchedJsonData(DOC.to_owned()), None);
    assert!(rendered);
    let blob = match fx.as_slice() {
        [Effect::Persist(blob)] => blob.clone(),
        other => panic!("expected one persist effect, got {other:?}"),
    };

    // a successful edit is followed by a persistence effect
    let (rendered, fx) = session.update(
        Msg::EditedInput(p("user.name"), Node::Text("Ada".to_owned())),
        None,
    );
    assert!(rendered);
    assert!(matches!(fx.as_slice(), [Effect::Persist(_)]));

    // a failed edit is dropped with a notification, the session stays usable
    let (_, fx) = session.update(
        Msg::EditedInput(p("user.name.deeper"), Node::Int(1)),
        None,
    );
    assert!(matches!(fx.as_slice(), [Effect::Notify(Level::Error, _)]));

    let (_, fx) = session.update(Msg::ListInputSizeChanged(p("user.tags"), 2), None);
    assert!(matches!(fx.as_slice(), [Effect::Persist(_)]));
    let (_, fx) = session.update(Msg::RemoveAt(p("user.tags[0]")), None);
    assert!(matches!(fx.as_slice(), [Effect::Persist(_)]));
    let (_, fx) = session.update(Msg::RemoveAt(p("user.missing")), None);
    assert!(matches!(fx.as_slice(), [Effect::Notify(Level::Warn, _)]));

    // unloading returns to the start; the stored blob still restores
    let (rendered, _) = session.update(Msg::NavEvent(NavEvent::UnloadScenario), None);
    assert!(rendered);
    assert_eq!(session.snapshot_text(), None);
    let (_, fx) = session.update(
        Msg::NavEvent(NavEvent::LoadFromLocalStorage),
        Some(blob.as_str()),
    );
    assert!(matches!(fx.as_slice(), [Effect::Notify(Level::Success, _)]));

    // restoring with nothing stored asks the host to clear the key
    session.update(Msg::Init, None);
    let (_, fx) = session.update(Msg::NavEvent(NavEvent::LoadFromLocalStorage), None);
    assert!(matches!(
        fx.as_slice(),
        [Effect::DeleteSnapshot, Effect::Notify(Level::Warn, _)]
    ));
}

#[test]
fn failed_loads_notify_with_their_cause() {
    let mut session = SessionController::new();

    let (_, fx) = session.update(Msg::FetchedJsonData("not json".to_owned()), None);
    match fx.as_slice() {
        [Effect::Notify(Level::Error, m)] => {
            assert_eq!(m, "failed to load the scenario: the document is not valid JSON")
        }
        other => panic!("expected one error notification, got {other:?}"),
    }

    let (_, fx) = session.update(Msg::FetchedJsonData(r#"{"inputs": []}"#.to_owned()), None);
    match fx.as_slice() {
        [Effect::Notify(Level::Error, m)] => {
            assert_eq!(m, "failed to load the scenario: the document has no template")
        }
        other => panic!("expected one error notification, got {other:?}"),
    }

    let (_, fx) = session.update(
        Msg::FetchedJsonData(r#"{"template": "x {{", "inputs": []}"#.to_owned()),
        None,
    );
    match fx.as_slice() {
        [Effect::Notify(Level::Error, m)] => {
            assert_eq!(
                m,
                "failed to load the scenario: the template does not compile at position 2"
            )
        }
        other => panic!("expected one error notification, got {other:?}"),
    }
}

#[test]
fn input_declarations_round_trip_through_their_document_encoding() {
    let schema = InputTypes::Group {
        label: "User".to_owned(),
        path: p("user"),
        children: vec![
            InputTypes::Scalar {
                label: "Name".to_owned(),
                path: p("name"),
                fallback: Node::Null,
            },
            InputTypes::Boolean {
                label: "Active".to_owned(),
                path: p("active"),
            },
            InputTypes::List {
                label: "Tags".to_owned(),
                path: p("tags[0]"),
                items: vec![InputTypes::Scalar {
                    label: "Tag".to_owned(),
                    path: PathExpr::root(),
                    fallback: Node::Text("".to_owned()),
                }],
            },
        ],
    };
    let encoded = encode_input(&schema);
    assert_eq!(decode_input(&encoded), Some(schema));
}
