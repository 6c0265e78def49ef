use artigo::context::{Context, ContextValue};
use artigo::errors::RenderError;
use artigo::templates::render;

fn ctx(pairs: &[(&str, &str)]) -> Context {
    let mut c = Context::new();
    for (k, v) in pairs {
        c.insert(k.to_string(), ContextValue::Text(v.to_string()));
    }
    c
}

#[test]
fn it_works() {
    let result = render(
        "Your name is {{ nome }}.".to_string(),
        ctx(&[("nome", "Viktor")]),
    );
    assert_eq!(result.unwrap(), "Your name is Viktor.".to_string());
}

#[test]
fn works_with_multiple_vars() {
    let result = render(
        "Hello, {{friendName}}. I am {{ name }}".to_string(),
        ctx(&[("name", "Viktor"), ("friendName", "John Doe")]),
    );
    assert_eq!(result.unwrap(), "Hello, John Doe. I am Viktor".to_string());
}

#[test]
fn literal_only_template_round_trips() {
    let text = "plain text with no delimiter characters at all.";
    let result = render(text.to_string(), ctx(&[("unused", "value")]));
    assert_eq!(result.unwrap(), text.to_string());
}

#[test]
fn empty_template_renders_empty() {
    let result = render(String::new(), ctx(&[]));
    assert_eq!(result.unwrap(), String::new());
}

#[test]
fn upper_filter_applies() {
    let result = render("{{ name |> upper }}".to_string(), ctx(&[("name", "ventura")]));
    assert_eq!(result.unwrap(), "VENTURA".to_string());
}

#[test]
fn lower_filter_applies() {
    let result = render("{{ name |> lower }}".to_string(), ctx(&[("name", "VenturA")]));
    assert_eq!(result.unwrap(), "ventura".to_string());
}

#[test]
fn chained_filters_apply_left_to_right() {
    let result = render(
        "{{ name |> upper |> lower }}".to_string(),
        ctx(&[("name", "VenTura")]),
    );
    assert_eq!(result.unwrap(), "ventura".to_string());
}

#[test]
fn long_filter_chains_apply_left_to_right() {
    let result = render(
        "{{ name |> upper |> lower |> upper }}".to_string(),
        ctx(&[("name", "vEnTura")]),
    );
    assert_eq!(result.unwrap(), "VENTURA".to_string());
}

#[test]
fn missing_variable_is_a_lookup_error() {
    let result = render("Hi {{ name }}".to_string(), ctx(&[("nome", "Viktor")]));
    assert_eq!(result.unwrap_err(), RenderError::ContextLookup);
}

#[test]
fn non_string_value_is_a_type_error() {
    let mut c = Context::new();
    c.insert("count".to_string(), ContextValue::Other);
    let result = render("{{ count }}".to_string(), c);
    assert_eq!(result.unwrap_err(), RenderError::ValueType);
}

#[test]
fn dangling_pipe_is_a_grammar_error() {
    let result = render("{{ name |> }}".to_string(), ctx(&[("name", "Viktor")]));
    assert_eq!(result.unwrap_err(), RenderError::Grammar);
}

#[test]
fn consecutive_filters_without_pipe_are_a_grammar_error() {
    let result = render(
        "{{ name |> upper lower }}".to_string(),
        ctx(&[("name", "Viktor")]),
    );
    assert_eq!(result.unwrap_err(), RenderError::Grammar);
}

#[test]
fn filter_directly_after_variable_is_a_grammar_error() {
    let result = render("{{ name upper }}".to_string(), ctx(&[("name", "Viktor")]));
    assert_eq!(result.unwrap_err(), RenderError::Grammar);
}

#[test]
fn variable_in_filter_position_is_a_grammar_error() {
    let result = render(
        "{{ name other }}".to_string(),
        ctx(&[("name", "Viktor"), ("other", "x")]),
    );
    assert_eq!(result.unwrap_err(), RenderError::Grammar);
}

#[test]
fn logic_keyword_inside_value_block_is_a_grammar_error() {
    let result = render("{{ if }}".to_string(), ctx(&[("if", "x")]));
    assert_eq!(result.unwrap_err(), RenderError::Grammar);
}

#[test]
fn unterminated_block_is_a_segmentation_error() {
    let result = render("Hello {{ name".to_string(), ctx(&[("name", "Viktor")]));
    assert_eq!(result.unwrap_err(), RenderError::Segmentation);
}

#[test]
fn rendering_is_idempotent_across_calls() {
    let template = "Hello, {{friendName}}. I am {{ name |> upper }}";
    let first = render(
        template.to_string(),
        ctx(&[("name", "Viktor"), ("friendName", "John Doe")]),
    )
    .unwrap();
    let second = render(
        template.to_string(),
        ctx(&[("name", "Viktor"), ("friendName", "John Doe")]),
    )
    .unwrap();
    assert_eq!(first.into_bytes(), second.into_bytes());
}

#[test]
fn logic_block_renders_its_marker() {
    let result = render("{% if x %}".to_string(), ctx(&[]));
    assert_eq!(result.unwrap(), "Logic block".to_string());
}

#[test]
fn logic_block_keeps_surrounding_literals() {
    let result = render("a {% endif %} b".to_string(), ctx(&[]));
    assert_eq!(result.unwrap(), "a Logic block b".to_string());
}

#[test]
fn single_brace_block_substitutes_too() {
    let result = render("{name}!".to_string(), ctx(&[("name", "Viktor")]));
    assert_eq!(result.unwrap(), "Viktor!".to_string());
}

#[test]
fn adjacent_blocks_both_substitute() {
    let result = render(
        "{{ a }}{{ b }}".to_string(),
        ctx(&[("a", "left"), ("b", "right")]),
    );
    assert_eq!(result.unwrap(), "leftright".to_string());
}

#[test]
fn template_starting_with_a_block_substitutes() {
    let result = render("{{ name }} speaking".to_string(), ctx(&[("name", "Viktor")]));
    assert_eq!(result.unwrap(), "Viktor speaking".to_string());
}

#[test]
fn later_insert_overrides_earlier_one() {
    let mut c = Context::new();
    c.insert("name".to_string(), ContextValue::Text("old".to_string()));
    c.insert("name".to_string(), ContextValue::Text("new".to_string()));
    let result = render("{{ name }}".to_string(), c);
    assert_eq!(result.unwrap(), "new".to_string());
}

#[test]
fn error_descriptions_name_each_kind() {
    assert_eq!(
        RenderError::Segmentation.describe(),
        "unterminated code block"
    );
    assert_eq!(
        RenderError::ContextLookup.describe(),
        "variable is not present in the context"
    );
}
