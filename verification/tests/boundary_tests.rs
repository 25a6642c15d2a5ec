use haske_core::json::parse_json_bytes;
use haske_core::template::TemplateRegistry;
use haske_core::CoreError;

#[test]
fn json_parses_valid_bytes() {
    let value = parse_json_bytes(b"{\"a\": [1, 2, 3]}").unwrap();
    assert_eq!(value["a"][2], serde_json::Value::from(3));
}

#[test]
fn json_rejects_invalid_bytes() {
    assert!(matches!(parse_json_bytes(b"{nope"), Err(CoreError::InvalidData)));
}

#[test]
fn render_falls_back_to_raw_template() {
    let registry = TemplateRegistry::new();
    let mut ctx = tera::Context::new();
    ctx.insert("name", "world");
    let out = registry.render("unregistered", "hello {{ name }}", &ctx).unwrap();
    assert_eq!(out, "hello world");
}

#[test]
fn render_uses_registered_engine() {
    let mut registry = TemplateRegistry::new();
    let mut engine = tera::Tera::default();
    engine.add_raw_template("greet", "hi {{ name }}").unwrap();
    registry.register("main".to_string(), engine);
    let mut ctx = tera::Context::new();
    ctx.insert("name", "there");
    let out = registry.render("main", "greet", &ctx).unwrap();
    assert_eq!(out, "hi there");
}

#[test]
fn render_reports_template_errors() {
    let registry = TemplateRegistry::new();
    let ctx = tera::Context::new();
    assert!(registry.render("none", "{{ unclosed", &ctx).is_err());
}
