use chirograph::adapters::java::{extract_java_facts, JavaAdapterError, JavaFactKind};
use chirograph::adapters::python::{
    extract_python_facts, fact_kind_name, observe_python_source, PythonAdapterError, PythonFactKind,
};
use chirograph::model::Revision;
#[test]
fn extracts_field_declarations_with_exact_source_ranges() {
    let source = r#"class ProducerConfig {
    public static final String ENABLE_IDEMPOTENCE_CONFIG = "enable.idempotence";
}
"#;

    let facts = extract_java_facts("ProducerConfig.java", source).expect("valid Java");
    let field = facts
        .iter()
        .find(|fact| fact.kind == JavaFactKind::FieldDeclaration)
        .expect("field declaration fact");

    assert_eq!(field.name.as_deref(), Some("ENABLE_IDEMPOTENCE_CONFIG"));
    assert_eq!(field.path, "ProducerConfig.java");
    assert_eq!(field.span.start_line, 2);
    assert_eq!(field.span.end_line, 2);
    assert!(field.text.contains("enable.idempotence"));
}

#[test]
fn extracts_method_invocations_without_framework_knowledge() {
    let source = r#"class ProducerConfig {
    void build() {
        new ConfigDef().define(ENABLE_IDEMPOTENCE_CONFIG, Type.BOOLEAN, true, Importance.LOW, ENABLE_IDEMPOTENCE_DOC);
    }
}
"#;

    let facts = extract_java_facts("ProducerConfig.java", source).expect("valid Java");
    let define = facts
        .iter()
        .find(|fact| {
            fact.kind == JavaFactKind::MethodInvocation && fact.name.as_deref() == Some("define")
        })
        .expect("define invocation fact");

    assert!(define.text.contains("ENABLE_IDEMPOTENCE_CONFIG"));
    assert!(define.text.contains("true"));
}

#[test]
fn collapses_if_with_throw_into_a_conditional_throw_fact() {
    let source = r#"class ProducerConfig {
    void validate(int inFlightConnection) {
        if (MAX_IN_FLIGHT_REQUESTS_PER_CONNECTION_FOR_IDEMPOTENCE < inFlightConnection) {
            throw new ConfigException("must be set to at most 5");
        }
    }
}
"#;

    let facts = extract_java_facts("ProducerConfig.java", source).expect("valid Java");
    let failure = facts
        .iter()
        .find(|fact| fact.kind == JavaFactKind::ConditionalThrow)
        .expect("conditional throw fact");

    assert_eq!(failure.name.as_deref(), Some("ConfigException"));
    assert!(
        failure
            .condition
            .as_deref()
            .expect("condition")
            .contains("MAX_IN_FLIGHT_REQUESTS_PER_CONNECTION_FOR_IDEMPOTENCE < inFlightConnection")
    );
    assert!(failure.text.contains("must be set to at most 5"));
}

#[test]
fn classifies_assertion_calls_as_test_assertions() {
    let source = r#"class KafkaProducerTest {
    void rejectsInvalidConfiguration() {
        assertThrows(ConfigException.class, () -> new ProducerConfig(props));
    }
}
"#;

    let facts = extract_java_facts("KafkaProducerTest.java", source).expect("valid Java");
    let assertion = facts
        .iter()
        .find(|fact| fact.kind == JavaFactKind::TestAssertion)
        .expect("test assertion fact");

    assert_eq!(assertion.name.as_deref(), Some("assertThrows"));
    assert!(assertion.text.contains("ConfigException.class"));
}

const SOURCE: &str = r#""""Module contract docs."""

from typing import Any

class ValidatorModel(BaseModel):
    """Validation model docs."""
    value: str

    @field_validator("value", mode="before", json_schema_input_type=int | str)
    @classmethod
    def cast_ints(cls, value: Any) -> Any:
        # Normalize integers before validation.
        if isinstance(value, int):
            return str(value)
        raise ValueError("unsupported")

def test_validator():
    result = ValidatorModel(value="x")
    assert result.value == "x"
"#;

#[test]
fn extracts_python_contract_relevant_facts_from_a_valid_module() {
    let facts = extract_python_facts("models.py", SOURCE).expect("valid Python should parse");

    assert!(facts.iter().any(|fact| fact.kind == PythonFactKind::Module));
    assert!(facts.iter().any(|fact| {
        fact.kind == PythonFactKind::ClassDefinition
            && fact.name.as_deref() == Some("ValidatorModel")
    }));
    assert!(facts.iter().any(|fact| {
        fact.kind == PythonFactKind::FunctionDefinition
            && fact.name.as_deref() == Some("cast_ints")
            && fact.annotation.as_deref() == Some("Any")
    }));
    assert!(facts.iter().any(|fact| {
        fact.kind == PythonFactKind::AnnotatedAssignment
            && fact.name.as_deref() == Some("value")
            && fact.annotation.as_deref() == Some("str")
    }));
    assert!(facts.iter().any(|fact| {
        fact.kind == PythonFactKind::Decorator
            && fact.name.as_deref() == Some("field_validator")
            && fact.text.contains("json_schema_input_type=int | str")
    }));
    assert!(facts.iter().any(|fact| {
        fact.kind == PythonFactKind::Conditional
            && fact.condition.as_deref() == Some("isinstance(value, int)")
    }));
    assert!(facts.iter().any(|fact| fact.kind == PythonFactKind::Return));
    assert!(facts.iter().any(|fact| fact.kind == PythonFactKind::Raise));
    assert!(facts.iter().any(|fact| fact.kind == PythonFactKind::Call));
    assert!(facts.iter().any(|fact| fact.kind == PythonFactKind::Comment));
    assert_eq!(
        facts
            .iter()
            .filter(|fact| fact.kind == PythonFactKind::Docstring)
            .count(),
        2
    );
    assert!(facts.iter().any(|fact| fact.kind == PythonFactKind::TestAssertion));
}

#[test]
fn preserves_exact_byte_and_source_spans_of_a_valid_module() {
    let facts = extract_python_facts("models.py", SOURCE).expect("valid Python should parse");
    let field = facts
        .iter()
        .find(|fact| fact.kind == PythonFactKind::AnnotatedAssignment)
        .expect("annotated assignment should be observed");
    let expected_start = SOURCE.find("value: str").expect("fixture contains field");

    assert_eq!(field.span.start_byte, expected_start);
    assert_eq!(field.span.end_byte, expected_start + "value: str".len());
    assert!(field.span.start_line > 0);
    assert!(field.span.start_column > 0);
    assert_eq!(field.path, "models.py");
}

#[test]
fn fails_closed_on_syntax_errors() {
    let error = extract_python_facts("broken.py", "def broken(:\n")
        .expect_err("syntax errors must not become partial source facts");

    assert_eq!(error, PythonAdapterError::SyntaxError);
}

#[test]
fn java_facts_are_ordered_by_position_then_kind() {
    let source = r#"class A {
    // note
    int x = 1;
    void f() { g(); assertTrue(x > 0); }
}
"#;
    let facts = extract_java_facts("A.java", source).expect("valid Java");
    let kinds = facts.iter().map(|fact| fact.kind).collect::<Vec<_>>();
    assert_eq!(
        kinds,
        vec![
            JavaFactKind::Comment,
            JavaFactKind::FieldDeclaration,
            JavaFactKind::MethodInvocation,
            JavaFactKind::TestAssertion,
        ]
    );
    assert_eq!(facts[0].span.start_line, 2);
    assert_eq!(facts[0].span.start_column, 5);
    assert_eq!(facts[1].name.as_deref(), Some("x"));
    assert_eq!(facts[2].name.as_deref(), Some("g"));
    assert_eq!(facts[3].text, "assertTrue(x > 0)");
}

#[test]
fn java_syntax_errors_fail_closed() {
    let error = extract_java_facts("Broken.java", "class {").unwrap_err();
    assert_eq!(error, JavaAdapterError::SyntaxError);
    assert_eq!(error.message(), "Java source contains syntax errors");
    assert_eq!(
        JavaAdapterError::Language("version".into()).message(),
        "cannot load Java grammar: version"
    );
}

#[test]
fn python_facts_start_with_the_module_and_keep_source_order() {
    let facts = extract_python_facts("m.py", "x: int = 1\nreturn_value = f(x)\n").expect("valid Python");
    assert_eq!(facts[0].kind, PythonFactKind::Module);
    assert_eq!(facts[0].name.as_deref(), Some("m.py"));
    assert_eq!(facts[0].span.start_byte, 0);
    assert_eq!(facts[1].kind, PythonFactKind::AnnotatedAssignment);
    assert_eq!(facts[1].name.as_deref(), Some("x"));
    assert_eq!(facts[1].annotation.as_deref(), Some("int"));
    assert_eq!(facts[1].span.start_line, 1);
    assert_eq!(facts[2].kind, PythonFactKind::Call);
    assert_eq!(facts[2].name.as_deref(), Some("f"));
    assert_eq!(facts[2].span.start_line, 2);
    assert_eq!(facts[2].span.start_column, 16);
    assert_eq!(facts.len(), 3);
    assert_eq!(fact_kind_name(PythonFactKind::TestAssertion), "test assertion");
    assert_eq!(
        PythonAdapterError::ParseFailed.message(),
        "Tree-sitter did not produce a Python syntax tree"
    );
}

#[test]
fn emits_core_observations_at_the_supplied_exact_revision_for_a_valid_module() {
    let revision = Revision::Exact("0123456789abcdef0123456789abcdef01234567".to_owned());
    let acquisition = observe_python_source("python.fixture".to_owned(), revision.clone(), "models.py", SOURCE)
        .expect("valid Python should be observed");

    assert_eq!(acquisition.facts.len(), acquisition.observations.len());
    assert!(!acquisition.observations.is_empty());
    assert!(acquisition.observations.iter().all(|observation| {
        observation.source == "python.fixture"
            && observation.revision == revision
            && observation.locator.starts_with("models.py:B")
            && observation.locator.contains(":L")
    }));

    let module = &acquisition.observations[0];
    let end = acquisition.facts[0].span.end_byte;
    assert_eq!(module.fact, "Python module: models.py");
    assert_eq!(module.id, format!("obs.python.python.fixture.models.py.0.{end}.module"));
    let field = acquisition
        .facts
        .iter()
        .position(|fact| fact.kind == PythonFactKind::AnnotatedAssignment)
        .expect("annotated assignment");
    assert_eq!(acquisition.observations[field].fact, "Python annotated assignment: value: str");

    let broken = observe_python_source("python.fixture".to_owned(), revision, "broken.py", "def broken(:\n");
    assert_eq!(broken, Err(PythonAdapterError::SyntaxError));
}

#[test]
fn backslash_quotes_outside_string_literals_fail_closed() {
    let source = r#"\"\"\"Module contract docs.\"\"\"

class ValidatorModel(BaseModel):
    value: str
"#;
    assert_eq!(extract_python_facts("models.py", source), Err(PythonAdapterError::SyntaxError));
}
