use tera::context::{Context, Value};
use tera::nodes::{Node, Operator, Root};
use tera::parser::{parse, Parser, SyntaxError};
use tera::render::{Arith, RenderError, Renderer};

fn evaluate(a: &Arith) -> f64 {
    match a {
        Arith::Int(v) => *v as f64,
        Arith::Number(s) => s.parse::<f64>().unwrap(),
        Arith::Op { operator, lhs, rhs } => {
            let l = evaluate(lhs);
            let r = evaluate(rhs);
            match operator {
                Operator::Add => l + r,
                Operator::Sub => l - r,
                Operator::Mul => l * r,
                Operator::Div => l / r,
            }
        }
    }
}

fn render_from_string(template: &str, data: Value) -> Result<String, RenderError> {
    let parser = Parser::new(template).map_err(RenderError::Syntax)?;
    let mut renderer = Renderer::new(parser, Context::new(data));
    let plan = renderer.arithmetic()?;
    let values: Vec<String> = plan
        .iter()
        .map(|a| match a {
            Some(a) => evaluate(a).to_string(),
            None => String::new(),
        })
        .collect();
    renderer.render(&values)?;
    Ok(renderer.output)
}

fn object(entries: Vec<(&str, Value)>) -> Value {
    Value::Object(entries.into_iter().map(|(k, v)| (k.to_owned(), v)).collect())
}

fn empty() -> Value {
    Value::Str(String::new())
}

#[test]
fn test_render_simple_string() {
    let result = render_from_string("<h1>Hello world</h1>", empty()).unwrap();
    assert_eq!(result, "<h1>Hello world</h1>".to_owned());
}

#[test]
fn test_render_math() {
    let result = render_from_string("This is {{ 2000 + 16 }}.", empty()).unwrap();
    assert_eq!(result, "This is 2016.".to_owned());
}

#[test]
fn test_render_basic_variable() {
    let d = object(vec![("name", Value::Str("Vincent".to_owned()))]);
    let result = render_from_string("My name is {{ name }}.", d).unwrap();
    assert_eq!(result, "My name is Vincent.".to_owned());
}

#[test]
fn test_render_math_with_variable() {
    let d = object(vec![("vat_rate", Value::Number(0.20f64.to_string()))]);
    let result = render_from_string("Vat: £{{ 100 * vat_rate }}.", d).unwrap();
    assert_eq!(result, "Vat: £20.".to_owned());
}

#[test]
fn literal_text_passes_through() {
    for s in ["", "plain", "a { b } c", "one { { two", "}} closing only", "ünïcödé £"] {
        assert_eq!(render_from_string(s, empty()).unwrap(), s.to_owned());
        let root = parse(s).unwrap();
        assert_eq!(root.children.len(), 1);
        assert!(matches!(&root.children[0], Node::Text(t) if t == s));
    }
}

#[test]
fn integer_operators_follow_floating_point() {
    let cases = [
        ("{{ 7 + 2 }}", (7.0f64 + 2.0).to_string()),
        ("{{ 7 - 9 }}", (7.0f64 - 9.0).to_string()),
        ("{{ 7 * 6 }}", (7.0f64 * 6.0).to_string()),
        ("{{ 7 / 2 }}", (7.0f64 / 2.0).to_string()),
        ("{{ 1 / 3 }}", (1.0f64 / 3.0).to_string()),
    ];
    for (t, expected) in cases {
        assert_eq!(render_from_string(t, empty()).unwrap(), expected);
    }
    assert_eq!(render_from_string("{{ 7 / 2 }}", empty()).unwrap(), "3.5");
    assert_eq!(render_from_string("{{ 1 / 0 }}", empty()).unwrap(), "inf");
}

#[test]
fn precedence_and_associativity() {
    assert_eq!(render_from_string("{{ 2 + 3 * 4 }}", empty()).unwrap(), "14");
    assert_eq!(render_from_string("{{ 2 * 3 + 4 }}", empty()).unwrap(), "10");
    assert_eq!(render_from_string("{{ 10 - 4 - 3 }}", empty()).unwrap(), "3");
    assert_eq!(render_from_string("{{ 16 / 4 / 2 }}", empty()).unwrap(), "2");
}

#[test]
fn literals_alone_in_a_block() {
    assert_eq!(render_from_string("{{ 5 }}", empty()).unwrap(), "5");
    assert_eq!(render_from_string("{{ -5 }}", empty()).unwrap(), "-5");
    assert_eq!(render_from_string("{{ 2.50 }}", empty()).unwrap(), "2.5");
    assert_eq!(render_from_string("{{ 2.5 * 2 }}", empty()).unwrap(), "5");
}

#[test]
fn missing_identifier_fails() {
    let r = render_from_string("{{ missing }}", object(vec![]));
    assert!(matches!(r, Err(RenderError::UndefinedVariable(n)) if n == "missing"));
    let r = render_from_string("{{ 1 + missing }}", object(vec![]));
    assert!(matches!(r, Err(RenderError::UndefinedVariable(n)) if n == "missing"));
}

#[test]
fn unterminated_block_fails() {
    let r = render_from_string("{{ incomplete", object(vec![]));
    assert!(matches!(r, Err(RenderError::Syntax(SyntaxError::UnterminatedBlock))));
    assert!(matches!(parse("a {{ b }} {{"), Err(SyntaxError::UnterminatedBlock)));
}

#[test]
fn invalid_expression_fails() {
    assert!(matches!(parse("x {{ 1 + }} y"), Err(SyntaxError::InvalidExpression(t)) if t == "1 +"));
    assert!(matches!(parse("{{   }}"), Err(SyntaxError::InvalidExpression(t)) if t.is_empty()));
    assert!(matches!(parse("{{ a b }}"), Err(SyntaxError::InvalidExpression(t)) if t == "a b"));
    assert!(matches!(parse("{{ 1.2.3 }}"), Err(SyntaxError::InvalidExpression(t)) if t == "1.2.3"));
}

#[test]
fn first_fault_in_source_order() {
    assert!(matches!(parse("{{ ? }} {{ open"), Err(SyntaxError::InvalidExpression(t)) if t == "?"));
    let d = object(vec![("list", Value::Array(vec![]))]);
    let r = render_from_string("{{ list }} {{ gone }}", d);
    assert!(matches!(r, Err(RenderError::NotRenderable(n)) if n == "list"));
}

#[test]
fn non_numeric_operand_fails() {
    let d = object(vec![("name", Value::Str("Vincent".to_owned()))]);
    let r = render_from_string("{{ name * 2 }}", d);
    assert!(matches!(r, Err(RenderError::NotNumeric(n)) if n == "name"));
}

#[test]
fn mapping_is_not_renderable() {
    let d = object(vec![("m", object(vec![]))]);
    let r = render_from_string("{{ m }}", d);
    assert!(matches!(r, Err(RenderError::NotRenderable(n)) if n == "m"));
}

#[test]
fn misplaced_node_is_internal_error() {
    let root = Root { children: vec![Node::Identifier("x".to_owned())] };
    let mut renderer = Renderer::new(Parser { root }, Context::new(object(vec![])));
    assert!(matches!(renderer.arithmetic(), Err(RenderError::InternalError)));
    assert!(matches!(renderer.render(&vec![String::new()]), Err(RenderError::InternalError)));
}

#[test]
fn scalar_kinds_render() {
    let d = object(vec![
        ("yes", Value::Bool(true)),
        ("no", Value::Bool(false)),
        ("nothing", Value::Null),
        ("n", Value::Number("42".to_owned())),
    ]);
    let r = render_from_string("[{{ yes }}|{{no}}|{{ nothing }}|{{ n }}]", d).unwrap();
    assert_eq!(r, "[true|false||42]");
}

#[test]
fn parse_builds_the_tree() {
    let root = parse("a{{ x }}b{{ 1 - y * 2 }}").unwrap();
    assert_eq!(root.get_children().len(), 5);
    assert!(matches!(&root.children[0], Node::Text(t) if t == "a"));
    match &root.children[1] {
        Node::VariableBlock(e) => assert!(matches!(&**e, Node::Identifier(n) if n == "x")),
        _ => panic!("expected a block"),
    }
    assert!(matches!(&root.children[2], Node::Text(t) if t == "b"));
    match &root.children[3] {
        Node::VariableBlock(e) => match &**e {
            Node::Math { operator: Operator::Sub, lhs, rhs } => {
                assert!(matches!(&**lhs, Node::Int(1)));
                match &**rhs {
                    Node::Math { operator: Operator::Mul, lhs, rhs } => {
                        assert!(matches!(&**lhs, Node::Identifier(n) if n == "y"));
                        assert!(matches!(&**rhs, Node::Int(2)));
                    }
                    _ => panic!("expected a product"),
                }
            }
            _ => panic!("expected a difference"),
        },
        _ => panic!("expected a block"),
    }
    assert!(matches!(&root.children[4], Node::Text(t) if t.is_empty()));
}

#[test]
fn integer_literal_limits() {
    let root = parse("{{ 9223372036854775807 }}{{ -9223372036854775808 }}{{ 9223372036854775808 }}").unwrap();
    match &root.children[1] {
        Node::VariableBlock(e) => assert!(matches!(&**e, Node::Int(i64::MAX))),
        _ => panic!("expected a block"),
    }
    match &root.children[3] {
        Node::VariableBlock(e) => assert!(matches!(&**e, Node::Int(i64::MIN))),
        _ => panic!("expected a block"),
    }
    match &root.children[5] {
        Node::VariableBlock(e) => assert!(matches!(&**e, Node::Float(t) if t == "9223372036854775808")),
        _ => panic!("expected a block"),
    }
}

#[test]
fn context_lookup() {
    let c = Context::new(object(vec![("a", Value::Bool(true)), ("b", Value::Null)]));
    assert!(matches!(c.get("a"), Some(Value::Bool(true))));
    assert!(matches!(c.get("b"), Some(Value::Null)));
    assert!(c.get("c").is_none());
    let c = Context::new(Value::Str("a".to_owned()));
    assert!(c.get("a").is_none());
    assert!(Value::Array(vec![]).render().is_none());
    assert_eq!(Value::Number("0.5".to_owned()).to_number().unwrap(), "0.5");
    assert!(Value::Bool(true).to_number().is_none());
}

#[test]
fn renderer_appends_to_output() {
    let parser = Parser::new("x={{ x }}").unwrap();
    let mut renderer = Renderer::new(parser, Context::new(object(vec![("x", Value::Str("1".to_owned()))])));
    let values = vec![String::new(), String::new(), String::new()];
    renderer.render(&values).unwrap();
    renderer.render(&values).unwrap();
    assert_eq!(renderer.output, "x=1x=1");
}
