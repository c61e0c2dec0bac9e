use pathstore::engine::{TemplateEngine, RenderError, CompileError};
use pathstore::node::Node;

fn data(fields: Vec<(&str, Node)>) -> Node {
    Node::Obj(fields.into_iter().map(|(k, v)| (k.to_owned(), v)).collect())
}

#[test]
fn render_resolves_a_reference_against_the_snapshot() {
    let mut engine = TemplateEngine::new_uninit();
    engine.set_template("{{name}}").unwrap();
    let snapshot = data(vec![("name", Node::Text("Ada".to_owned()))]);
    assert_eq!(engine.render(&snapshot), Ok("Ada".to_owned()));
}

#[test]
fn render_of_an_absent_reference_is_an_error_not_a_crash() {
    let mut engine = TemplateEngine::new_uninit();
    engine.set_template("{{name}}").unwrap();
    let snapshot = data(vec![]);
    assert_eq!(
        engine.render(&snapshot),
        Err(RenderError::Unresolved { part: 0 })
    );
}

#[test]
fn render_mixes_literals_and_references() {
    let mut engine = TemplateEngine::new_uninit();
    engine.set_template("Hello {{user.name}}, age {{user.age}}!").unwrap();
    let snapshot = data(vec![(
        "user",
        data(vec![
            ("name", Node::Text("Ada".to_owned())),
            ("age", Node::Int(36)),
        ]),
    )]);
    assert_eq!(engine.render(&snapshot), Ok("Hello Ada, age 36!".to_owned()));
}

#[test]
fn render_prints_scalars_canonically() {
    let mut engine = TemplateEngine::new_uninit();
    engine.set_template("{{a}}|{{b}}|{{c}}|{{d}}").unwrap();
    let snapshot = data(vec![
        ("a", Node::Bool(true)),
        ("b", Node::Bool(false)),
        ("c", Node::Int(-42)),
        ("d", Node::Null),
    ]);
    assert_eq!(engine.render(&snapshot), Ok("true|false|-42|".to_owned()));
}

#[test]
fn render_of_a_container_reference_is_an_error() {
    let mut engine = TemplateEngine::new_uninit();
    engine.set_template("x {{a}}").unwrap();
    let snapshot = data(vec![("a", Node::Arr(vec![Node::Int(1)]))]);
    assert_eq!(
        engine.render(&snapshot),
        Err(RenderError::Unresolved { part: 1 })
    );
}

#[test]
fn uninitialized_engine_is_distinct_from_an_empty_template() {
    let mut engine = TemplateEngine::new_uninit();
    let snapshot = data(vec![]);
    assert_eq!(engine.render(&snapshot), Err(RenderError::NotReady));
    engine.set_template("").unwrap();
    assert_eq!(engine.render(&snapshot), Ok(String::new()));
}

#[test]
fn unclosed_or_malformed_references_do_not_compile() {
    let mut engine = TemplateEngine::new_uninit();
    assert_eq!(engine.set_template("oops {{name"), Err(CompileError { pos: 5 }));
    assert_eq!(engine.set_template("{{a..b}}"), Err(CompileError { pos: 4 }));
    // a failed compile keeps the previous template
    engine.set_template("{{v}}").unwrap();
    assert!(engine.set_template("{{broken").is_err());
    let snapshot = data(vec![("v", Node::Int(1))]);
    assert_eq!(engine.render(&snapshot), Ok("1".to_owned()));
}
