use processr::front_matter::{parse, FrontMatterError};
use processr::markdown::MarkdownParser;
use processr::value::Value;

fn texts(items: &[&str]) -> Value {
    Value::List(items.iter().map(|s| Value::Text(String::from(*s))).collect())
}

#[test]
fn text() {
    let (props, _) = parse("---\nitem1: prrr\n---").unwrap();
    assert_eq!(Some(&texts(&["prrr"])), props.get("item1"));
}

#[test]
fn list() {
    let (props, _) = parse("---\nitem2: meow, mrrow\n---").unwrap();
    assert_eq!(Some(&texts(&["meow", "mrrow"])), props.get("item2"));
}

#[test]
fn mixed() {
    let (props, _) = parse("---\nitem1: prrr\nitem2: meow, mrrow\n---").unwrap();
    assert_eq!(Some(&texts(&["prrr"])), props.get("item1"));
    assert_eq!(Some(&texts(&["meow", "mrrow"])), props.get("item2"));
    assert_eq!(None, props.get("item3"));
}

#[test]
fn body_follows_front_matter() {
    let (_, body) = parse("---\na: b\n---\nthe body").unwrap();
    assert_eq!(String::from("the body"), body);
}

#[test]
fn missing_opening() {
    assert_eq!(Err(FrontMatterError::MissingOpening), parse("a: b\n---\n").map(|_| ()));
    assert!(matches!(MarkdownParser::default().compile("# meow"), Err(FrontMatterError::MissingOpening)));
}

#[test]
fn missing_closing() {
    assert_eq!(Err(FrontMatterError::MissingClosing), parse("---\na: b\n").map(|_| ()));
}

#[test]
fn malformed_entry() {
    assert_eq!(Err(FrontMatterError::MalformedEntry(3)), parse("---\na: b\nno colon here\n---\n").map(|_| ()));
}
