use processr::markdown::{small, MarkdownExtension, MarkdownParser, Wrapper};

fn render(input: &str) -> String {
    MarkdownParser::default().render(input)
}

#[test]
fn header1() {
    assert_eq!(String::from("<h1>meow</h1>"), render("# meow"));
}

#[test]
fn header2() {
    assert_eq!(String::from("<h2>meow</h2>"), render("## meow"));
}

#[test]
fn header3() {
    assert_eq!(String::from("<h3>meow</h3>"), render("### meow"));
}

#[test]
fn paragraph() {
    assert_eq!(String::from("<p>meow</p>"), render("\n\n\nmeow"));
}

#[test]
fn paragraph_with_bold_and_italics() {
    assert_eq!(String::from("<p><b><i>meow</i></b></p>"), render("\n\n\n***meow***"));
}

#[test]
fn paragraph_followed_by_header() {
    assert_eq!(String::from("<p>meow<h1>Some header</h1></p>"), render("\n\n\nmeow\n# Some header"));
}

#[test]
fn paragraph_followed_by_fake_header() {
    assert_eq!(String::from("<p>meow# Some header</p>"), render("\n\n\nmeow# Some header"));
}

#[test]
fn image_embed() {
    assert_eq!(
        String::from("<img src=\"https://it.is.from.here\" alt=\"this is an image\"/>"),
        render("![this is an image](https://it.is.from.here)")
    );
}

#[test]
fn link_embed() {
    assert_eq!(
        String::from("<a href=\"https://it.goes.here\">this is a link</a>"),
        render("[this is a link](https://it.goes.here)")
    );
}

#[test]
fn code_block() {
    assert_eq!(String::from("<pre><code>meow</code></pre>"), render("```meow```"));
}

#[test]
fn code_line() {
    assert_eq!(String::from("<code>meow</code>"), render("`meow`"));
}

#[test]
fn mod_bold() {
    assert_eq!(String::from("<b>meow</b>"), render("**meow**"));
    assert_eq!(String::from("meow<b>meow</b>meow"), render("meow**meow**meow"));
}

#[test]
fn mod_italic() {
    assert_eq!(String::from("<i>meow</i>"), render("*meow*"));
    assert_eq!(String::from("meow<i>meow</i>meow"), render("meow*meow*meow"));
}

#[test]
fn bold_and_italic() {
    assert_eq!(String::from("<b><i>meow</i></b>"), render("***meow***"));
}

#[test]
fn mod_strikethrough() {
    assert_eq!(String::from("<s>meow</s>"), render("~~meow~~"));
    assert_eq!(String::from("meow<s>meow</s>meow"), render("meow~~meow~~meow"));
}

#[test]
fn underline() {
    assert_eq!(String::from("<u>meow</u>"), render("__meow__"));
}

#[test]
fn mod_plain() {
    assert_eq!(String::from("meow meow mrrp"), render("meow meow mrrp"));
}

#[test]
fn mod_single_newline() {
    assert_eq!(String::from(""), render("\n"));
    assert_eq!(String::from("meowmeow"), render("meow\nmeow"));
}

#[test]
fn mod_double_newline() {
    assert_eq!(String::from("<br/>"), render("\n\n"));
    assert_eq!(String::from("meow<br/>meow"), render("meow\n\nmeow"));
}

#[test]
fn mod_triple_newline() {
    assert_eq!(String::from("<p>meow</p>"), render("\n\n\nmeow"));
    assert_eq!(String::from("meow<p>meow</p>"), render("meow\n\n\nmeow"));
}

#[test]
fn mod_code() {
    assert_eq!(String::from("<code>meow</code>"), render("`meow`"));
    assert_eq!(String::from("meow<code>meow</code>meow"), render("meow`meow`meow"));
}

#[test]
fn extension_small() {
    let p = MarkdownParser::default().extend(small());
    assert_eq!(String::from("<br/><small>meow</small>"), p.render("-# meow"));
}

#[test]
fn quote() {
    let p = MarkdownParser::default().extend(processr::markdown::quote());
    assert_eq!(
        String::from("<blockquote>a quote<br/>with two lines, wow!</blockquote>"),
        p.render("> a quote\n> with two lines, wow!")
    );
}

#[test]
fn code_is_escaped() {
    assert_eq!(String::from("<code>&lt;a href=&quot;&#x2F;&quot;&gt;</code>"), render("`<a href=\"/\">`"));
}

#[test]
fn fence_with_file_name() {
    assert_eq!(
        String::from("<pre><small>main.rs</small><code class=\"language-rs\">fn main() {}\n</code></pre>"),
        render("```main.rs\nfn main() {}\n```")
    );
    assert_eq!(
        String::from("<pre><code class=\"language-rust\">x &amp; y</code></pre>"),
        render("```rust\nx & y```")
    );
}

#[test]
fn escaped_marker_is_literal() {
    assert_eq!(String::from("*meow*"), render("\\*meow\\*"));
}

#[test]
fn unterminated_marker_is_literal() {
    assert_eq!(String::from("**meow"), render("**meow"));
}

#[test]
fn thematic_break() {
    assert_eq!(String::from("<hr/>"), render("---"));
    assert_eq!(String::from("---x"), render("---x"));
}

#[test]
fn inline_extension_in_order() {
    let p = MarkdownParser::default()
        .extend(MarkdownExtension::inline("||", "||", Wrapper::new("<mark>", "</mark>")));
    assert_eq!(String::from("a<mark><b>b</b></mark>c"), p.render("a||**b**||c"));
}

#[test]
fn compile_with_front_matter() {
    let p = MarkdownParser::default();
    let c = p.compile("---\ntitle: Hello\n---\n\n# meow").unwrap();
    let d = p.compile("---\ntitle: Hello\n---\n  meow").unwrap();
    assert_eq!(String::from("<p>meow</p>"), d.html);
    assert_eq!(String::from("<h1>meow</h1>"), c.html);
    assert_eq!(
        Some(&processr::value::Value::List(vec![processr::value::Value::Text(String::from("Hello"))])),
        c.metadata.get("title")
    );
}

#[test]
fn compile_is_deterministic() {
    let p = MarkdownParser::default().extend(processr::markdown::quote());
    let text = "---\na: b, c\n---\n> q\n**x** and *y*";
    let one = p.compile(text).unwrap();
    let two = p.compile(text).unwrap();
    assert_eq!(one.html, two.html);
    assert_eq!(one.metadata, two.metadata);
}

#[test]
fn built_ins_come_before_block_extensions() {
    let p = MarkdownParser::default().extend(processr::markdown::quote());
    let c = p.compile("---\n---\n> q").unwrap();
    assert_eq!(String::from("<p><blockquote>q</blockquote></p>"), c.html);
    assert_eq!(String::from("<br/><blockquote>q</blockquote>"), p.render("\n\n> q"));
}
