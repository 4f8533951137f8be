use processr::error::FsError;
use processr::item::{apply_template, change_directory, compile_item, create, load_date, ItemError};
use processr::markdown::MarkdownParser;
use processr::template::IncludeFiles;
use processr::value::Value;

#[test]
fn file_names() {
    assert_eq!(Ok(String::from("x.html")), create("/posts/x.html").get_filename());
    assert_eq!(Ok(String::from("posts")), create("/posts/").get_filename());
    assert_eq!(Err(FsError::InvalidFileName), create("/").get_filename());
    assert_eq!(Err(FsError::InvalidFileName), create("a/..").get_filename());
}

#[test]
fn paths_change() {
    let it = create("posts/2024-01-02-hello.md").set_extension("html");
    assert_eq!(String::from("posts/2024-01-02-hello.html"), it.path);
    let it = create("posts/readme").set_extension("txt");
    assert_eq!(String::from("posts/readme.txt"), it.path);
    let it = change_directory("blog", create("src/posts/a.md")).unwrap();
    assert_eq!(String::from("blog/a.md"), it.path);
}

#[test]
fn url_and_body() {
    let mut it = create("posts/a.html");
    it.bytes = b"hello".to_vec();
    let it = it.set_property("title", Value::Text(String::from("T")));
    let props = it.properties_with_url_and_body().unwrap();
    assert_eq!(Some(&Value::Text(String::from("/posts/a.html"))), props.get("url"));
    assert_eq!(Some(&Value::Text(String::from("hello"))), props.get("body"));
    assert_eq!(Some(&Value::Text(String::from("T"))), props.get("title"));
    let mut bad = create("x");
    bad.bytes = vec![0xff, 0xfe];
    assert_eq!(Err(ItemError::NotUtf8), bad.into_meta().map(|_| ()));
}

#[test]
fn compile_then_apply_template() {
    let mut page = create("posts/a.html");
    page.bytes = b"---\ntitle: Hi\n---\n**bold**".to_vec();
    let page = compile_item(&MarkdownParser::default(), page).unwrap();
    assert_eq!(b"<p><b>bold</b></p>".to_vec(), page.bytes);
    let mut template = create("templates/page.html");
    template.bytes = b"<title>$title$</title><main>$body$</main><a href=\"$url$\"></a>".to_vec();
    let out = apply_template(page, &template, &IncludeFiles::new()).unwrap();
    assert_eq!(
        String::from("<title>Hi</title><main><p><b>bold</b></p></main><a href=\"/posts/a.html\"></a>"),
        String::from_utf8(out.bytes).unwrap()
    );
    assert_eq!(String::from("posts/a.html"), out.path);
}

#[test]
fn cache_insertion_on_item_is_idempotent() {
    let mut it = create("x.html");
    let mut manifest = processr::cache::StringTable::new();
    let a = it.insert_into_cache(&mut manifest, String::from("https://a"), b"data".to_vec(), None);
    let b = it.insert_into_cache(&mut manifest, String::from("https://a"), b"data".to_vec(), None);
    assert_eq!(a, b);
    assert_eq!(1, it.cache.blobs().len());
}

#[test]
fn change_directory_needs_a_file_name() {
    assert!(matches!(change_directory("blog", create("/")), Err(FsError::InvalidFileName)));
}

#[test]
fn dates_from_file_names() {
    let it = load_date(create("posts/2024-01-02-hello.md"), "[day].[month].[year]").unwrap();
    assert_eq!(Some(&Value::Text(String::from("2024-01-02"))), it.properties.get("dateRaw"));
    assert_eq!(Some(&Value::Text(String::from("02.01.2024"))), it.properties.get("date"));
    assert_eq!(Some(&Value::Text(String::from("2024"))), it.properties.get("dateYear"));
    assert_eq!(Some(&Value::Text(String::from("01"))), it.properties.get("dateMonth"));
    assert_eq!(Some(&Value::Text(String::from("02"))), it.properties.get("dateDay"));
    assert!(matches!(load_date(create("posts/2024-02-30-x.md"), "[year]"), Err(ItemError::Date)));
    assert!(matches!(load_date(create("posts/hello.md"), "[year]"), Err(ItemError::Date)));
}
