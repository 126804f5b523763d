use rbatis::ast::DeleteNode;
use rbatis::engine::{ExprError, RbatisEngine};
use rbatis::expr::EvalError;
use rbatis::operators::OptMap;
use rbatis::parser::{parse, ParseError};
use rbatis::template::StringNode;
use rbatis::tokenizer::{is_number, parser_tokens, trim_push_back};
use rbatis::value::Value;

fn obj(entries: Vec<(&str, Value)>) -> Value {
    Value::Object(entries.into_iter().map(|(k, v)| (k.to_string(), v)).collect())
}

fn toks(s: &str) -> Vec<String> {
    parser_tokens(&s.to_string(), &OptMap::new())
}

#[test]
fn tokenize_simple_and_coalesced() {
    assert_eq!(toks("a+b"), vec!["a", "+", "b"]);
    assert_eq!(toks("a && b"), vec!["a", "&&", "b"]);
    assert_eq!(toks("a >= 1 || b != 2"), vec!["a", ">=", "1", "||", "b", "!=", "2"]);
    assert_eq!(toks("a*(b)"), vec!["a", "*", "(", "b", ")"]);
    assert_eq!(toks("2*-3"), vec!["2", "*", "-", "3"]);
}

#[test]
fn tokenize_quoted_literal_verbatim() {
    assert_eq!(toks("name == 'x + y && z'"), vec!["name", "==", "'x + y && z'"]);
    assert_eq!(toks("`a b`+c"), vec!["`a b`", "+", "c"]);
    assert_eq!(toks("name = 'O'Brien'"), vec!["name", "=", "'O'", "Brien", "'"]);
    assert_eq!(toks("'a`b'"), vec!["'a`b'"]);
    assert_eq!(toks("`it's`"), vec!["`it's`"]);
}

#[test]
fn tokenize_empty_and_blank() {
    assert!(toks("").is_empty());
    assert!(toks("   ").is_empty());
    let opt = OptMap::new();
    assert_eq!(parse(&vec![], &opt).err(), Some(ParseError::Empty));
}

#[test]
fn precedence_multiplication_first() {
    let mut engine = RbatisEngine::new();
    let env = obj(vec![]);
    assert_eq!(engine.eval("2 + 3 * 4", &env), Ok(Value::Number(14)));
    assert_eq!(engine.eval("10 - 4 - 3", &env), Ok(Value::Number(3)));
    assert_eq!(engine.eval("7 / 2", &env), Ok(Value::Number(3)));
    assert_eq!(engine.eval("-7 / 2", &env), Ok(Value::Number(-3)));
    assert_eq!(engine.eval("(2 + 3)", &env), Ok(Value::Number(5)));
    assert_eq!(engine.eval("1 + 1 == 2 && 3 > 2", &env), Ok(Value::Bool(true)));
    assert_eq!(engine.eval("'abc' < 'abd'", &env), Ok(Value::Bool(true)));
    assert_eq!(engine.eval("null == null", &env), Ok(Value::Bool(true)));
    assert_eq!(engine.eval("!true", &env), Ok(Value::Bool(false)));
    assert_eq!(engine.eval("2 * (3 + 4)", &env), Ok(Value::Number(14)));
    assert_eq!(engine.eval("(1 + 2) * 3", &env), Ok(Value::Number(9)));
    assert_eq!(engine.eval("4 * -1", &env), Ok(Value::Number(-4)));
    assert_eq!(engine.eval("7 % 3", &env), Ok(Value::Number(1)));
    assert_eq!(engine.eval("-7 % 3", &env), Ok(Value::Number(-1)));
    assert_eq!(engine.eval("1 + 7 % 3", &env), Ok(Value::Number(2)));
    assert_eq!(engine.eval("6 ^ 3", &env), Ok(Value::Number(5)));
    assert_eq!(engine.eval("7 % 0", &env), Err(ExprError::Eval(EvalError::DivisionByZero)));
}

#[test]
fn mixed_comparisons_coerce() {
    let mut engine = RbatisEngine::new();
    let env = obj(vec![("s", Value::Str("10".to_string()))]);
    assert_eq!(engine.eval("s < 9", &env), Ok(Value::Bool(false)));
    assert_eq!(engine.eval("'12' > 3", &env), Ok(Value::Bool(true)));
    assert_eq!(engine.eval("'abc' < 5", &env), Ok(Value::Bool(false)));
    assert_eq!(engine.eval("true <= 'x'", &env), Ok(Value::Bool(true)));
    assert_eq!(engine.eval("1 == '1'", &env), Ok(Value::Bool(true)));
    assert_eq!(engine.eval("1 != '1'", &env), Ok(Value::Bool(false)));
    assert_eq!(engine.eval("s == 10", &env), Ok(Value::Bool(true)));
    let env = obj(vec![("a", Value::Array(vec![]))]);
    assert_eq!(engine.eval("a < 1", &env), Err(ExprError::Eval(EvalError::TypeMismatch)));
}

#[test]
fn paths_into_the_environment() {
    let env = obj(vec![
        ("user", obj(vec![("name", Value::Str("Ann".to_string()))])),
        ("items", Value::Array(vec![Value::Number(4), Value::Number(5)])),
    ]);
    let mut engine = RbatisEngine::new();
    assert_eq!(engine.eval("user.name", &env), Ok(Value::Str("Ann".to_string())));
    assert_eq!(engine.eval("items[1] * 2", &env), Ok(Value::Number(10)));
    assert_eq!(engine.eval("items[2]", &env), Err(ExprError::Eval(EvalError::MissingKey)));
}

#[test]
fn cache_and_no_cache_agree() {
    let mut engine = RbatisEngine::new();
    let v1 = obj(vec![("a", Value::Number(1))]);
    let v2 = obj(vec![("a", Value::Number(10))]);
    let fresh = engine.eval_no_cache("a * 3", &v1);
    assert!(engine.cache.is_empty());
    assert_eq!(engine.eval("a * 3", &v1), fresh);
    assert_eq!(engine.eval("a * 3", &v2), Ok(Value::Number(30)));
    assert_eq!(engine.eval("a * 3", &v1), Ok(Value::Number(3)));
    assert_eq!(engine.cache.len(), 1);
}

#[test]
fn remove_and_clear_cache() {
    let mut engine = RbatisEngine::new();
    let env = obj(vec![("a", Value::Number(2))]);
    engine.eval("a + 1", &env).unwrap();
    engine.eval("a + 2", &env).unwrap();
    engine.remove_cache("absent");
    assert_eq!(engine.cache.len(), 2);
    assert_eq!(engine.eval("a + 2", &env), Ok(Value::Number(4)));
    engine.remove_cache("a + 1");
    assert_eq!(engine.cache.len(), 1);
    assert_eq!(engine.cache[0].0, "a + 2");
    engine.clear_cache();
    assert!(engine.cache.is_empty());
    engine.eval("a + 1", &env).unwrap();
    assert_eq!(engine.cache.len(), 1);
    assert!(engine.eval("a +", &env).is_err());
    assert_eq!(engine.cache.len(), 1);
}

#[test]
fn parse_errors() {
    let mut engine = RbatisEngine::new();
    let env = obj(vec![]);
    assert_eq!(engine.eval("", &env), Err(ExprError::Parse(ParseError::Empty)));
    assert_eq!(engine.eval("(a", &env), Err(ExprError::Parse(ParseError::Unbalanced)));
    assert_eq!(engine.eval("a +", &env), Err(ExprError::Parse(ParseError::MissingOperand)));
    assert_eq!(engine.eval("a 'x'", &env), Err(ExprError::Parse(ParseError::UnexpectedToken)));
    assert_eq!(engine.eval("'abc", &env), Err(ExprError::Parse(ParseError::UnexpectedToken)));
    assert_eq!(engine.eval("a b", &env), Err(ExprError::Eval(EvalError::MissingKey)));
    assert_eq!(engine.eval("1.5", &env), Err(ExprError::Parse(ParseError::BadNumber)));
}

#[test]
fn eval_errors() {
    let mut engine = RbatisEngine::new();
    let env = obj(vec![("s", Value::Str("x".to_string()))]);
    assert_eq!(engine.eval("missing", &env), Err(ExprError::Eval(EvalError::MissingKey)));
    assert_eq!(engine.eval("s + 1", &env), Err(ExprError::Eval(EvalError::TypeMismatch)));
    assert_eq!(engine.eval("1 / 0", &env), Err(ExprError::Eval(EvalError::DivisionByZero)));
    assert_eq!(
        engine.eval("9223372036854775807 + 1", &env),
        Err(ExprError::Eval(EvalError::Overflow))
    );
    assert_eq!(engine.eval("false && missing", &env), Ok(Value::Bool(false)));
}

#[test]
fn operator_registry() {
    let opt = OptMap::new();
    assert!(opt.is_opt("&&"));
    assert!(opt.is_opt("("));
    assert!(!opt.is_opt("a"));
    assert!(opt.is_allow_opt("<="));
    assert!(opt.is_allow_opt("%"));
    assert!(opt.is_allow_opt("^"));
    assert!(!opt.is_allow_opt("("));
    assert_eq!(
        opt.priority_array(),
        vec!["*", "/", "%", "^", "+", "-", "<=", "<", ">=", ">", "!=", "==", "&&", "||"]
    );
    assert_eq!(opt.list.len(), 23);
    assert_eq!(opt.mul_ops.len(), 6);
}

#[test]
fn number_and_trim_helpers() {
    assert!(is_number(&"12.5".to_string()));
    assert!(is_number(&"".to_string()));
    assert!(!is_number(&"1a".to_string()));
    let mut list = vec![];
    trim_push_back(&"  x y ".to_string(), &mut list);
    trim_push_back(&" \t ".to_string(), &mut list);
    assert_eq!(list, vec!["x y"]);
}

#[test]
fn delete_node_prints_markup() {
    let node = DeleteNode {
        id: "del".to_string(),
        childs: vec![StringNode::new("delete from t"), StringNode::new(" where id = #{id}")],
    };
    assert_eq!(node.print(), "<delete id=del>delete from t where id = #{id}</delete>");
}
