use processr::cache::{cache_file_name, PendingBlobs, StringTable};
use processr::html::{document_directory, extension_for, FetchOutcome, HtmlParser, Rewrite};

fn replaced(r: Rewrite) -> Option<String> {
    match r {
        Rewrite::Replace(s) => Some(s),
        _ => None,
    }
}

fn is_keep(r: &Rewrite) -> bool {
    matches!(r, Rewrite::Keep)
}

fn is_fetch(r: &Rewrite) -> bool {
    matches!(r, Rewrite::Fetch)
}

#[test]
fn relativize() {
    let p = HtmlParser::default().relativize_urls();
    let m = StringTable::new();
    let doc = "/posts/thing1.html";
    assert_eq!(Some(String::from("./../css/default.css")), replaced(p.rewrite(doc, "link", "/css/default.css", &m)));
    assert_eq!(Some(String::from("./../another/file.html")), replaced(p.rewrite(doc, "a", "/another/file.html", &m)));
    assert_eq!(Some(String::from("./../images/profile.png")), replaced(p.rewrite(doc, "img", "/images/profile.png", &m)));
}

#[test]
fn relativize_with_unapplied_caching() {
    let p = HtmlParser::default().relativize_urls().cache_linked_resources();
    let m = StringTable::new();
    let doc = "/posts/thing1.html";
    assert_eq!(Some(String::from("./../css/default.css")), replaced(p.rewrite(doc, "link", "/css/default.css", &m)));
    assert_eq!(Some(String::from("./../another/file.html")), replaced(p.rewrite(doc, "a", "/another/file.html", &m)));
    assert_eq!(Some(String::from("./../images/profile.png")), replaced(p.rewrite(doc, "img", "/images/profile.png", &m)));
}

#[test]
fn image_path_made_relative() {
    let p = HtmlParser::default().relativize_urls();
    let m = StringTable::new();
    assert_eq!(Some(String::from("./../images/p.png")), replaced(p.rewrite("/posts/x.html", "img", "/images/p.png", &m)));
}

#[test]
fn anchors_are_not_fetched_images_are() {
    let p = HtmlParser::default().relativize_urls().cache_linked_resources();
    let mut m = StringTable::new();
    let mut pending = PendingBlobs::new();
    let doc = "/posts/x.html";
    assert!(is_keep(&p.rewrite(doc, "a", "https://example.com/page", &m)));
    assert!(is_keep(&p.rewrite(doc, "link", "https://example.com/style.css", &m)));
    assert!(is_fetch(&p.rewrite(doc, "img", "https://example.com/a.png", &m)));
    let bytes = b"png bytes".to_vec();
    let name = cache_file_name(&bytes, Some("png"));
    let out = p.after_fetch(
        doc,
        "https://example.com/a.png",
        FetchOutcome::Fetched { bytes, content_type: Some(String::from("image/png")) },
        &mut m,
        &mut pending,
    );
    assert_eq!(format!("./../.cache/{}", name), out);
    assert_eq!(Some(&format!("/.cache/{}", name)), m.get("https://example.com/a.png"));
    assert!(pending.contains(&name));
    assert_eq!(
        Some(format!("./../.cache/{}", name)),
        replaced(p.rewrite(doc, "img", "https://example.com/a.png", &m))
    );
}

#[test]
fn failed_fetch_keeps_link() {
    let p = HtmlParser::default().relativize_urls().cache_linked_resources();
    let mut m = StringTable::new();
    let mut pending = PendingBlobs::new();
    let link = "https://example.com/gone.png";
    let out = p.after_fetch("/posts/x.html", link, FetchOutcome::Failed, &mut m, &mut pending);
    assert_eq!(String::from(link), out);
    assert_eq!(Some(&String::from(link)), m.get(link));
    assert!(pending.blobs().is_empty());
}

#[test]
fn without_relativization_cache_path_is_absolute() {
    let p = HtmlParser::default().cache_linked_resources();
    let mut m = StringTable::new();
    let mut pending = PendingBlobs::new();
    let bytes = b"abc".to_vec();
    let out = p.after_fetch("/x.html", "http://e.org/a", FetchOutcome::Fetched { bytes, content_type: None }, &mut m, &mut pending);
    assert_eq!(
        String::from("/.cache/ba7816bf8f01cfea414140de5dae2223b00361a396177a9cb410ff61f20015ad-3"),
        out
    );
}

#[test]
fn local_paths_stay_without_relativization() {
    let p = HtmlParser::default();
    let m = StringTable::new();
    assert!(is_keep(&p.rewrite("/posts/x.html", "img", "/images/p.png", &m)));
    assert!(is_keep(&HtmlParser::default().relativize_urls().rewrite("/posts/x.html", "img", "images/p.png", &m)));
}

#[test]
fn directories_of_documents() {
    assert_eq!(Some(String::from("/posts")), document_directory("/posts/x.html"));
    assert_eq!(Some(String::from("/posts")), document_directory("posts/x.html"));
    assert_eq!(Some(String::from("/")), document_directory("/x.html"));
    assert_eq!(None, document_directory("/"));
    assert_eq!(Some(String::from("./x.html")), processr::html::relativize("/x.html", "/x.html"));
    assert_eq!(Some(String::from("./../a/b.css")), processr::html::relativize("/posts/deep/x.html", "/posts/a/b.css"));
}

#[test]
fn extensions_of_fetched_resources() {
    assert_eq!(Some(String::from("png")), extension_for(Some("image/png"), "https://e.org/x"));
    assert_eq!(Some(String::from("gif")), extension_for(Some("application/x-unknown-thing"), "https://e.org/a/b.gif"));
    assert_eq!(Some(String::from("jpg")), extension_for(None, "https://e.org/a/b.jpg"));
    assert_eq!(None, extension_for(None, "https://e.org/page"));
}
