use rbatis::engine::RbatisEngine;
use rbatis::template::{find_convert_string, DriverType, StringNode, TemplateError};
use rbatis::value::Value;

fn obj(entries: Vec<(&str, Value)>) -> Value {
    Value::Object(entries.into_iter().map(|(k, v)| (k.to_string(), v)).collect())
}

#[test]
pub fn test_string_node() {
    let john = obj(vec![("arg", Value::Number(2))]);
    let mut engine = RbatisEngine::new();
    let s_node = StringNode::new("arg+1=#{arg+1}");
    let mut arg_array = vec![];
    let r = s_node.eval(&DriverType::Mysql, &john, &mut engine, &mut arg_array).unwrap();
    println!("{}", r);
    assert_eq!(r, "arg+1=?");
    assert_eq!(arg_array.len(), 1);
}

#[test]
pub fn test_string_node_replace() {
    let john = obj(vec![("arg", Value::Number(2))]);
    let mut engine = RbatisEngine::new();
    let s_node = StringNode::new("arg+1=${arg+1}");
    let mut arg_array = vec![];
    let r = s_node.eval(&DriverType::Mysql, &john, &mut engine, &mut arg_array).unwrap();
    println!("r:{}", r);
    assert_eq!(r, "arg+1=3");
    assert_eq!(arg_array.len(), 0);
}

#[test]
fn bind_and_substitute_scenario() {
    let env = obj(vec![("id", Value::Number(7)), ("name", Value::Str("Bob".to_string()))]);
    let mut engine = RbatisEngine::new();
    let node = StringNode::new("id = #{id} and name = ${name}");
    let mut args = vec![];
    let r = node.eval(&DriverType::Mysql, &env, &mut engine, &mut args).unwrap();
    assert_eq!(r, "id = ? and name = Bob");
    assert_eq!(args, vec![Value::Number(7)]);
}

#[test]
fn substitute_number_is_inlined_in_decimal() {
    let env = obj(vec![("a", Value::Number(5)), ("b", Value::Number(-5))]);
    let mut engine = RbatisEngine::new();
    let node = StringNode::new("limit ${a * 2} offset ${b}");
    let mut args = vec![];
    let r = node.eval(&DriverType::Mysql, &env, &mut engine, &mut args).unwrap();
    assert_eq!(r, "limit 10 offset -5");
    assert!(args.is_empty());
}

#[test]
fn compile_twice_gives_equal_segments() {
    let t = "select * from t where a = #{a} and b = ${b} and c = #{a}";
    let x = StringNode::new(t);
    let y = StringNode::new(t);
    assert_eq!(x.express_map, y.express_map);
    assert_eq!(x.express_map.len(), 2);
}

#[test]
fn repeated_markers_are_recorded_once() {
    let m = find_convert_string("#{a} and ${b} or #{a} #{c");
    assert_eq!(
        m,
        vec![
            ("a".to_string(), "#{a}".to_string()),
            ("b".to_string(), "${b}".to_string()),
        ]
    );
}

#[test]
fn postgres_placeholders_count_from_one() {
    let env = obj(vec![("a", Value::Number(1)), ("b", Value::Str("x".to_string()))]);
    let mut engine = RbatisEngine::new();
    let node = StringNode::new("a = #{a} and b = #{b}");
    let mut args = vec![];
    let r = node.eval(&DriverType::Postgres, &env, &mut engine, &mut args).unwrap();
    assert_eq!(r, "a = $1 and b = $2");
    assert_eq!(args, vec![Value::Number(1), Value::Str("x".to_string())]);
    assert_eq!(DriverType::Mssql.stmt_convert(4), "@p5");
    assert_eq!(DriverType::Sqlite.stmt_convert(4), "?");
}

#[test]
fn bind_prefers_direct_key() {
    let env = obj(vec![("a.b", Value::Number(9)), ("a", obj(vec![("b", Value::Number(1))]))]);
    let mut engine = RbatisEngine::new();
    let node = StringNode::new("x = #{a.b}");
    let mut args = vec![];
    node.eval(&DriverType::Mysql, &env, &mut engine, &mut args).unwrap();
    assert_eq!(args, vec![Value::Number(9)]);
    let node = StringNode::new("x = ${a.b}");
    let r = node.eval(&DriverType::Mysql, &env, &mut engine, &mut args).unwrap();
    assert_eq!(r, "x = 1");
}

#[test]
fn template_errors() {
    let env = obj(vec![("arr", Value::Array(vec![Value::Number(1)]))]);
    let mut engine = RbatisEngine::new();
    let mut args = vec![Value::Null];
    let node = StringNode::new("x = #{arr} and y = #{missing}");
    let r = node.eval(&DriverType::Mysql, &env, &mut engine, &mut args);
    assert!(matches!(r, Err(TemplateError::Expr(_))));
    assert_eq!(args, vec![Value::Null]);
    let node = StringNode::new("x = #{arr} and y = ${arr");
    let r = node.eval(&DriverType::Mysql, &env, &mut engine, &mut args);
    assert_eq!(r, Err(TemplateError::Unterminated));
    assert_eq!(args, vec![Value::Null]);
}

#[test]
fn compound_values_inline_as_json() {
    let env = obj(vec![
        ("arr", Value::Array(vec![Value::Number(1), Value::Null, Value::Bool(true)])),
        ("o", obj(vec![("k", Value::Str("a\"b\n\u{1}".to_string())), ("n", Value::Number(-2))])),
    ]);
    let mut engine = RbatisEngine::new();
    let node = StringNode::new("x = ${arr} and y = ${o}");
    let mut args = vec![];
    let r = node.eval(&DriverType::Mysql, &env, &mut engine, &mut args).unwrap();
    assert_eq!(r, "x = [1,null,true] and y = {\"k\":\"a\\\"b\\n\\u0001\",\"n\":-2}");
    assert!(args.is_empty());
}

#[test]
fn empty_placeholder_is_removed() {
    let env = obj(vec![]);
    let mut engine = RbatisEngine::new();
    let node = StringNode::new("a#{}b");
    let mut args = vec![];
    let r = node.eval(&DriverType::Mysql, &env, &mut engine, &mut args).unwrap();
    assert_eq!(r, "ab");
}
