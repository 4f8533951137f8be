use processr::template::{IncludeFiles, TemplateParser};
use processr::template_spec::TemplateError;
use processr::value::{Properties, Value};

fn run(template: &str, props: &Properties) -> Result<String, TemplateError> {
    TemplateParser::default().interpret(template, props, &IncludeFiles::new())
}

fn text(s: &str) -> Value {
    Value::Text(String::from(s))
}

#[test]
fn template_plain() {
    let props = Properties::new();
    assert_eq!(Ok(String::from("meow meow")), run("meow meow", &props));
}

#[test]
fn text_access() {
    let mut props = Properties::new();
    props.insert(String::from("mrrp"), text("prrr"));
    assert_eq!(Ok(String::from("prrr")), run("$mrrp$", &props));
}

#[test]
fn list_access() {
    let mut props = Properties::new();
    props.insert(String::from("mrrp"), Value::List(vec![text("prrr")]));
    assert_eq!(Ok(String::from("prrr")), run("$mrrp$", &props));
}

#[test]
fn map_access() {
    let mut props = Properties::new();
    let mut map = Properties::new();
    map.insert(String::from("bwa"), text("pain"));
    props.insert(String::from("mrrp"), Value::Mapping(map));
    assert_eq!(Ok(String::from("")), run("$mrrp$", &props));
}

#[test]
fn included_partial() {
    let props = Properties::new();
    let mut files = IncludeFiles::new();
    let partial = "<footer>a partial template</footer>\n";
    files.insert(String::from("test/templates/partial.txt"), String::from(partial));
    let res = TemplateParser::default().interpret("$include(\"test/templates/partial.txt\")$", &props, &files);
    assert_eq!(Ok(String::from(partial)), res);
}

#[test]
fn include_missing_is_reported() {
    let props = Properties::new();
    assert_eq!(
        Err(TemplateError::MissingInclude(String::from("x.txt"))),
        run("a$include(\"x.txt\")$b", &props)
    );
}

#[test]
fn for_each() {
    let mut props = Properties::new();
    let mut m1 = Properties::new();
    m1.insert(String::from("url"), text("test1"));
    m1.insert(String::from("body"), text("meow"));
    m1.insert(String::from("field1"), text("pr"));
    let mut m2 = Properties::new();
    m2.insert(String::from("url"), text("test2"));
    m2.insert(String::from("body"), text("meow meow"));
    m2.insert(String::from("field1"), text("prr"));
    let mut m3 = Properties::new();
    m3.insert(String::from("url"), text("test3"));
    m3.insert(String::from("body"), text("meow meow meow"));
    m3.insert(String::from("field1"), text("prrr"));
    let l = vec![Value::Mapping(m1), Value::Mapping(m2), Value::Mapping(m3)];
    props.insert(String::from("items"), Value::List(l));
    assert_eq!(
        Ok(String::from("test1meowprtest2meow meowprrtest3meow meow meowprrr")),
        run("$for(items)$$url$$body$$field1$$endfor$", &props)
    );
}

#[test]
fn if_else_true() {
    let mut props = Properties::new();
    props.insert(String::from("b"), text("yay"));
    assert_eq!(Ok(String::from("meow")), run("$if(b)$meow$else$prrr$endif$", &props));
}

#[test]
fn if_else_false() {
    let props = Properties::new();
    assert_eq!(Ok(String::from("prrr")), run("$if(b)$meow$else$prrr$endif$", &props));
}

#[test]
fn if_true() {
    let mut props = Properties::new();
    props.insert(String::from("b"), text("yay"));
    assert_eq!(Ok(String::from("meow")), run("$if(b)$meow$endif$", &props));
}

#[test]
fn if_false() {
    let props = Properties::new();
    assert_eq!(Ok(String::from("")), run("$if(b)$meow$endif$", &props));
}

#[test]
fn for_over_absent_key_is_empty() {
    let props = Properties::new();
    assert_eq!(Ok(String::from("")), run("$for(key)$...$endfor$", &props));
}

#[test]
fn for_over_two_urls() {
    let mut props = Properties::new();
    let mut a = Properties::new();
    a.insert(String::from("url"), text("a"));
    let mut b = Properties::new();
    b.insert(String::from("url"), text("b"));
    props.insert(String::from("items"), Value::List(vec![Value::Mapping(a), Value::Mapping(b)]));
    assert_eq!(Ok(String::from("ab")), run("$for(items)$$url$$endfor$", &props));
}

#[test]
fn for_hides_outer_scope_and_exposes_text_as_i() {
    let mut props = Properties::new();
    props.insert(String::from("outer"), text("o"));
    props.insert(String::from("xs"), Value::List(vec![text("1"), text("2")]));
    assert_eq!(Ok(String::from("[1][2]")), run("$for(xs)$[$i$$outer$]$endfor$", &props));
}

#[test]
fn nested_for() {
    let mut props = Properties::new();
    let mut a = Properties::new();
    a.insert(String::from("ys"), Value::List(vec![text("1"), text("2")]));
    props.insert(String::from("xs"), Value::Mapping(a));
    assert_eq!(Ok(String::from("<12>")), run("$for(xs)$<$for(ys)$$i$$endfor$>$endfor$", &props));
}

#[test]
fn list_reads_joined() {
    let mut props = Properties::new();
    props.insert(String::from("tags"), Value::List(vec![text("a"), text("b")]));
    assert_eq!(Ok(String::from("a, b")), run("$tags$", &props));
}

#[test]
fn unclosed_if_is_an_error() {
    let props = Properties::new();
    assert_eq!(Err(TemplateError::UnclosedIf(1)), run("x$if(b)$meow", &props));
}

#[test]
fn unclosed_for_is_an_error() {
    let props = Properties::new();
    assert_eq!(Err(TemplateError::UnclosedFor(0)), run("$for(b)$meow", &props));
}

#[test]
fn stray_closer_is_an_error() {
    let props = Properties::new();
    assert_eq!(Err(TemplateError::StrayDirective(2)), run("ab$endif$", &props));
}

#[test]
fn lone_dollar_is_literal() {
    let props = Properties::new();
    assert_eq!(Ok(String::from("costs $5")), run("costs $5", &props));
}
