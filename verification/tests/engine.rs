use sitegen::{Renderer, RenderError, StrMap};

fn store(entries: &[(&str, &str)]) -> StrMap {
    let mut m = StrMap::new();
    for (k, v) in entries {
        m.insert(k.to_string(), v.to_string());
    }
    m
}

#[test]
fn val_substitutes_argument() {
    let r = Renderer::new(store(&[("greet", "Hello {{val(name)}}!")]));
    let args = store(&[("name", "World")]);
    assert_eq!(r.render_layout("greet", &args).unwrap(), "Hello World!");
}

#[test]
fn val_missing_argument_is_error() {
    let r = Renderer::new(store(&[("t", "{{val(missing)}}")]));
    let args = store(&[]);
    match r.render_layout("t", &args) {
        Err(RenderError::ArgumentNotFound(name)) => assert_eq!(name, "missing"),
        other => panic!("expected ArgumentNotFound, got {:?}", other.is_ok()),
    }
}

#[test]
fn opt_chooses_by_flag() {
    let r = Renderer::new(store(&[("t", "{{opt(flag,yes,no)}}")]));
    assert_eq!(r.render_layout("t", &store(&[("flag", "true")])).unwrap(), "yes");
    assert_eq!(r.render_layout("t", &store(&[("flag", "false")])).unwrap(), "no");
    assert_eq!(r.render_layout("t", &store(&[])).unwrap(), "no");
}

#[test]
fn opt_tokens_are_literal_not_looked_up() {
    let r = Renderer::new(store(&[("t", "{{opt(flag,yes,no)}}")]));
    // Even with arguments named like the tokens, the token text itself is
    // the result.
    let args = store(&[("flag", "true"), ("yes", "SHADOW")]);
    assert_eq!(r.render_layout("t", &args).unwrap(), "yes");
}

#[test]
fn layout_splices_sub_template() {
    let r = Renderer::new(store(&[
        ("header", "Hi {{val(title)}}"),
        ("page", "<{{layout(header)}}>"),
    ]));
    let args = store(&[("title", "X")]);
    assert_eq!(r.render_layout("page", &args).unwrap(), "<Hi X>");
}

#[test]
fn layout_header_alone_renders() {
    let r = Renderer::new(store(&[("header", "Hi {{val(title)}}")]));
    let args = store(&[("title", "X")]);
    assert_eq!(r.render_layout("header", &args).unwrap(), "Hi X");
}

#[test]
fn self_recursive_layout_is_too_deep() {
    let r = Renderer::new(store(&[("a", "{{layout(a)}}")]));
    let args = store(&[]);
    match r.render_layout("a", &args) {
        Err(RenderError::RecursionTooDeep) => {}
        other => panic!("expected RecursionTooDeep, got {:?}", other.is_ok()),
    }
}

#[test]
fn unknown_template_is_not_found() {
    let r = Renderer::new(store(&[]));
    match r.render_layout("nope", &store(&[])) {
        Err(RenderError::TemplateNotFound(name)) => assert_eq!(name, "nope"),
        other => panic!("expected TemplateNotFound, got {:?}", other.is_ok()),
    }
}

#[test]
fn unknown_function_is_error() {
    let r = Renderer::new(store(&[("t", "{{frobnicate(x)}}")]));
    match r.render_layout("t", &store(&[])) {
        Err(RenderError::UnrecognizedFunction(name)) => assert_eq!(name, "frobnicate"),
        other => panic!("expected UnrecognizedFunction, got {:?}", other.is_ok()),
    }
}

#[test]
fn opt_with_too_few_arguments_is_error() {
    let r = Renderer::new(store(&[("t", "{{opt(flag)}}")]));
    match r.render_layout("t", &store(&[("flag", "true")])) {
        Err(RenderError::UnrecognizedFunction(name)) => assert_eq!(name, "opt"),
        other => panic!("expected UnrecognizedFunction, got {:?}", other.is_ok()),
    }
}

#[test]
fn evaluation_uses_original_text_offsets() {
    // Values containing placeholder-like text must not be re-evaluated:
    // every match is found and judged against the original template.
    let r = Renderer::new(store(&[("t", "{{val(a)}}{{val(b)}}")]));
    let args = store(&[("a", "{{val(b)}}"), ("b", "B")]);
    assert_eq!(r.render_layout("t", &args).unwrap(), "{{val(b)}}B");
}

#[test]
fn non_placeholder_text_is_untouched() {
    let r = Renderer::new(store(&[("t", "a {{ b }} {{val()}} {{x(}} c")]));
    assert_eq!(r.render_layout("t", &store(&[])).unwrap(), "a {{ b }} {{val()}} {{x(}} c");
}

#[test]
fn first_error_in_text_order_wins() {
    let r = Renderer::new(store(&[("t", "{{val(a)}} {{frob(x)}}")]));
    match r.render_layout("t", &store(&[])) {
        Err(RenderError::ArgumentNotFound(name)) => assert_eq!(name, "a"),
        other => panic!("expected ArgumentNotFound, got {:?}", other.is_ok()),
    }
}

#[test]
fn unknown_function_needs_no_arguments() {
    let r = Renderer::new(store(&[]));
    let no_args: Vec<String> = Vec::new();
    match r.apply_placeholder_function("frob", &no_args, &store(&[]), 4) {
        Err(RenderError::UnrecognizedFunction(name)) => assert_eq!(name, "frob"),
        other => panic!("expected UnrecognizedFunction, got {:?}", other.is_ok()),
    }
}

#[test]
fn strmap_last_insert_wins() {
    let mut m = StrMap::new();
    m.insert("k".to_string(), "one".to_string());
    m.insert("k".to_string(), "two".to_string());
    assert_eq!(m.get("k").unwrap().as_str(), "two");
    assert!(m.get("absent").is_none());
    assert!(m.contains_key("k"));
}
