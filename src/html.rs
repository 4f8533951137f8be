//! How the references of compiled HTML are rewritten.
//!
//! For each element with a non-empty `href` or `src`, the caller asks
//! [`HtmlParser::rewrite`] what to do with the value. A network reference of
//! an embedded resource (any element but `a` and `link`) is cached when
//! caching is on: the caller fetches it and hands the outcome to
//! [`HtmlParser::after_fetch`]. Local absolute paths are made relative to the
//! document's directory when relativization is on.
use vstd::prelude::*;
use vstd::string::*;
use crate::cache::{StringTable, PendingBlobs, blob_name, cache_path, blobs_after, insert_into_cache};
use crate::text::{chars_of, slice_of, string_of, append_chars, occurs_at, matches_at};
use crate::value::{opt_view, str_eq};

verus! {

/// The path of `target` relative to the directory `base`, as `pathdiff` computes it.
pub uninterp spec fn relative_path_of(target: Seq<char>, base: Seq<char>) -> Option<Seq<char>>;

/// Relies on `pathdiff::diff_paths(target, base)`: the relative path from
/// `base` to `target`. Its source returns `None` at once when `target` is
/// relative and `base` is absolute.
#[verifier::external_body]
fn diff_paths(target: &str, base: &str) -> (r: Option<String>)
    ensures
        opt_view(r) == relative_path_of(target@, base@),
        (target@.len() == 0 || target@[0] != '/') && base@.len() > 0 && base@[0] == '/' ==> r is None,
{
    pathdiff::diff_paths(target, base).and_then(|p| p.to_str().map(String::from))
}

/// The first file extension `mime_guess` lists for the media type `top/sub`.
pub uninterp spec fn mime_extension_of(top: Seq<char>, sub: Seq<char>) -> Option<Seq<char>>;

/// Relies on `mime_guess::get_extensions(top, sub)`: the first of the
/// extensions it lists for the media type, if it knows the type.
#[verifier::external_body]
fn first_mime_extension(top: &str, sub: &str) -> (r: Option<String>)
    ensures
        opt_view(r) == mime_extension_of(top@, sub@),
{
    mime_guess::get_extensions(top, sub).and_then(|exts| exts.first()).map(|e| e.to_string())
}

/// The last position before `hi` that holds `c`, or -1.
pub open spec fn last_of(s: Seq<char>, hi: int, c: char) -> int
    decreases hi,
{
    if hi <= 0 || hi > s.len() {
        -1
    } else if s[hi - 1] == c {
        hi - 1
    } else {
        last_of(s, hi - 1, c)
    }
}

/// The end of `s` before any trailing slashes, looking no further than `hi`.
pub open spec fn slash_trimmed_end(s: Seq<char>, hi: int) -> int
    decreases hi,
{
    if hi <= 0 || hi > s.len() || s[hi - 1] != '/' {
        hi
    } else {
        slash_trimmed_end(s, hi - 1)
    }
}

/// The directory of a document at `path`, rooted at `/`; none for the root itself.
pub open spec fn doc_dir(path: Seq<char>) -> Option<Seq<char>> {
    let e = slash_trimmed_end(path, path.len() as int);
    let k = last_of(path, e, '/');
    let d = slash_trimmed_end(path, k);
    if e <= 0 {
        None
    } else if k <= 0 || d <= 0 {
        Some("/"@)
    } else if path[0] == '/' {
        Some(path.subrange(0, d))
    } else {
        Some("/"@ + path.subrange(0, d))
    }
}

/// `target` relative to the directory of the document at `doc`, after `./`.
pub open spec fn relativized(doc: Seq<char>, target: Seq<char>) -> Option<Seq<char>> {
    match doc_dir(doc) {
        Some(dir) => match relative_path_of(target, dir) {
            Some(r) => Some("./"@ + r),
            None => None,
        },
        None => None,
    }
}

/// Where a reference ends up: relative where that is asked for and can be
/// computed, otherwise as it is.
pub open spec fn settled(relativize: bool, doc: Seq<char>, target: Seq<char>) -> Seq<char> {
    if relativize {
        match relativized(doc, target) {
            Some(r) => r,
            None => target,
        }
    } else {
        target
    }
}

pub open spec fn starts_with(s: Seq<char>, p: Seq<char>) -> bool {
    occurs_at(s, 0, p)
}

/// A reference to the network.
pub open spec fn is_network(link: Seq<char>) -> bool {
    starts_with(link, "http://"@) || starts_with(link, "https://"@)
}

/// An element that embeds what it references, unlike anchors and links.
pub open spec fn is_embedded(tag: Seq<char>) -> bool {
    tag != "a"@ && tag != "link"@
}

/// What becomes of a reference.
pub enum Rewrite {
    /// It stays as it is.
    Keep,
    /// It is replaced by this value.
    Replace(String),
    /// It has to be fetched first; see [`HtmlParser::after_fetch`].
    Fetch,
}

pub enum RewriteModel {
    Keep,
    Replace(Seq<char>),
    Fetch,
}

pub open spec fn rewrite_model(r: Rewrite) -> RewriteModel {
    match r {
        Rewrite::Keep => RewriteModel::Keep,
        Rewrite::Replace(s) => RewriteModel::Replace(s@),
        Rewrite::Fetch => RewriteModel::Fetch,
    }
}

/// The rule for the value `link` of an attribute of a `tag` element in the
/// document at `doc`.
pub open spec fn rewrite_rule(
    relativize: bool,
    caching: bool,
    doc: Seq<char>,
    tag: Seq<char>,
    link: Seq<char>,
    manifest: Map<Seq<char>, Seq<char>>,
) -> RewriteModel {
    if is_network(link) {
        if caching && is_embedded(tag) {
            if manifest.contains_key(link) {
                RewriteModel::Replace(settled(relativize, doc, manifest[link]))
            } else {
                RewriteModel::Fetch
            }
        } else {
            RewriteModel::Keep
        }
    } else if relativize && link.len() > 0 && link[0] == '/' {
        match relativized(doc, link) {
            Some(r) => RewriteModel::Replace(r),
            None => RewriteModel::Keep,
        }
    } else {
        RewriteModel::Keep
    }
}

/// The extension of what `link` is named, after the last dot of its last part.
pub open spec fn link_extension(link: Seq<char>) -> Option<Seq<char>> {
    let k = last_of(link, link.len() as int, '/');
    let d = last_of(link, link.len() as int, '.');
    if k < 0 || d <= k {
        None
    } else {
        Some(link.subrange(d + 1, link.len() as int))
    }
}

/// The extension a fetched resource is cached under: from its media type if
/// `mime_guess` knows one, else from its link.
pub open spec fn fetched_extension(content_type: Option<Seq<char>>, link: Seq<char>) -> Option<Seq<char>> {
    match content_type {
        Some(ct) => {
            let k = crate::front_matter::find_in(ct, 0, ct.len() as int, '/');
            if k < ct.len() && mime_extension_of(ct.subrange(0, k), ct.subrange(k + 1, ct.len() as int)) is Some {
                mime_extension_of(ct.subrange(0, k), ct.subrange(k + 1, ct.len() as int))
            } else {
                link_extension(link)
            }
        },
        None => link_extension(link),
    }
}

/// What fetching a resource gave.
pub enum FetchOutcome {
    /// A successful response: its body and its `Content-Type`, if readable.
    Fetched { bytes: Vec<u8>, content_type: Option<String> },
    /// Anything else.
    Failed,
}

fn last_of_exec(s: &Vec<char>, hi: usize, c: char) -> (r: Option<usize>)
    requires
        hi <= s.len(),
    ensures
        match r {
            Some(k) => last_of(s@, hi as int, c) == k && k < hi,
            None => last_of(s@, hi as int, c) == -1,
        },
{
    let mut k = hi;
    while k > 0
        invariant
            k <= hi <= s.len(),
            last_of(s@, hi as int, c) == last_of(s@, k as int, c),
        decreases k,
    {
        if s[k - 1] == c {
            return Some(k - 1);
        }
        k -= 1;
    }
    None
}

fn slash_trimmed_end_exec(s: &Vec<char>, hi: usize) -> (r: usize)
    requires
        hi <= s.len(),
    ensures
        r == slash_trimmed_end(s@, hi as int),
        r <= hi,
{
    let mut k = hi;
    while k > 0 && s[k - 1] == '/'
        invariant
            k <= hi <= s.len(),
            slash_trimmed_end(s@, hi as int) == slash_trimmed_end(s@, k as int),
        decreases k,
    {
        k -= 1;
    }
    k
}

/// The directory of the document at `path`, as `doc_dir` says.
pub fn document_directory(path: &str) -> (r: Option<String>)
    ensures
        opt_view(r) == doc_dir(path@),
{
    let p = chars_of(path);
    let e = slash_trimmed_end_exec(&p, p.len());
    if e == 0 {
        return None;
    }
    let d = match last_of_exec(&p, e, '/') {
        None => 0,
        Some(k) => slash_trimmed_end_exec(&p, k),
    };
    proof {
        reveal_strlit("/");
        if last_of(p@, e as int, '/') <= 0 {
            assert(d == 0 || last_of(p@, e as int, '/') > 0);
        }
    }
    if d == 0 {
        return Some(String::from_str("/"));
    }
    let front = slice_of(&p, 0, d);
    if p[0] == '/' {
        Some(string_of(&front))
    } else {
        let mut out = chars_of("/");
        append_chars(&mut out, &front);
        Some(string_of(&out))
    }
}

/// `target` relative to the directory of the document at `doc`, as `relativized` says.
pub fn relativize(doc: &str, target: &str) -> (r: Option<String>)
    ensures
        opt_view(r) == relativized(doc@, target@),
{
    match document_directory(doc) {
        None => None,
        Some(dir) => match diff_paths(target, dir.as_str()) {
            None => None,
            Some(rel) => {
                let mut out = chars_of("./");
                let tail = chars_of(rel.as_str());
                append_chars(&mut out, &tail);
                Some(string_of(&out))
            },
        },
    }
}

fn settle(relativize_urls: bool, doc: &str, target: String) -> (r: String)
    ensures
        r@ == settled(relativize_urls, doc@, target@),
{
    if relativize_urls {
        match relativize(doc, target.as_str()) {
            Some(r) => r,
            None => target,
        }
    } else {
        target
    }
}

fn begins_with(s: &str, p: &str) -> (r: bool)
    ensures
        r == starts_with(s@, p@),
{
    let sc = chars_of(s);
    let pc = chars_of(p);
    matches_at(&sc, 0, &pc)
}

/// The extension a fetched resource is cached under, as `fetched_extension` says.
pub fn extension_for(content_type: Option<&str>, link: &str) -> (r: Option<String>)
    ensures
        opt_view(r) == fetched_extension(
            match content_type {
                Some(c) => Some(c@),
                None => None,
            },
            link@,
        ),
{
    match content_type {
        Some(ct) => {
            let c = chars_of(ct);
            let k = crate::front_matter::find_in_exec(&c, 0, c.len(), '/');
            if k < c.len() {
                let top = string_of(&slice_of(&c, 0, k));
                let sub = string_of(&slice_of(&c, k + 1, c.len()));
                match first_mime_extension(top.as_str(), sub.as_str()) {
                    Some(e) => {
                        return Some(e);
                    },
                    None => {},
                }
            }
        },
        None => {},
    }
    let l = chars_of(link);
    match (last_of_exec(&l, l.len(), '/'), last_of_exec(&l, l.len(), '.')) {
        (Some(k), Some(d)) => if d > k {
            Some(string_of(&slice_of(&l, d + 1, l.len())))
        } else {
            None
        },
        _ => None,
    }
}

/// The stage that rewrites the references of compiled HTML.
pub struct HtmlParser {
    relativize_urls: bool,
    cache_linked_resources: bool,
}

impl HtmlParser {
    pub closed spec fn relativizes(&self) -> bool {
        self.relativize_urls
    }

    pub closed spec fn caches(&self) -> bool {
        self.cache_linked_resources
    }

    /// Neither relativization nor caching.
    pub fn default() -> (r: HtmlParser)
        ensures
            !r.relativizes(),
            !r.caches(),
    {
        HtmlParser { relativize_urls: false, cache_linked_resources: false }
    }

    /// This stage, also making local absolute references relative.
    pub fn relativize_urls(self) -> (r: HtmlParser)
        ensures
            r.relativizes(),
            r.caches() == self.caches(),
    {
        HtmlParser { relativize_urls: true, ..self }
    }

    /// This stage, also caching network resources that elements embed.
    pub fn cache_linked_resources(self) -> (r: HtmlParser)
        ensures
            r.caches(),
            r.relativizes() == self.relativizes(),
    {
        HtmlParser { cache_linked_resources: true, ..self }
    }

    /// What becomes of the value `link` of an attribute of a `tag` element in
    /// the document at `doc`, given the cache manifest.
    pub fn rewrite(&self, doc: &str, tag: &str, link: &str, manifest: &StringTable) -> (r: Rewrite)
        ensures
            rewrite_model(r) == rewrite_rule(self.relativizes(), self.caches(), doc@, tag@, link@, manifest.model()),
    {
        let network = begins_with(link, "http://") || begins_with(link, "https://");
        if network {
            if self.cache_linked_resources && !str_eq(tag, "a") && !str_eq(tag, "link") {
                match manifest.get(link) {
                    Some(target) => Rewrite::Replace(settle(self.relativize_urls, doc, target.clone())),
                    None => Rewrite::Fetch,
                }
            } else {
                Rewrite::Keep
            }
        } else {
            let l = chars_of(link);
            if self.relativize_urls && l.len() > 0 && l[0] == '/' {
                match relativize(doc, link) {
                    Some(r) => Rewrite::Replace(r),
                    None => Rewrite::Keep,
                }
            } else {
                Rewrite::Keep
            }
        }
    }

    /// The new value of a reference to `link` that was fetched with
    /// `outcome`. A fetched resource goes into the cache and the manifest; a
    /// failed fetch is recorded in the manifest as the link itself, so that
    /// it is not fetched again, and the link stays.
    pub fn after_fetch(
        &self,
        doc: &str,
        link: &str,
        outcome: FetchOutcome,
        manifest: &mut StringTable,
        pending: &mut PendingBlobs,
    ) -> (r: String)
        requires
            outcome matches FetchOutcome::Fetched { bytes, .. } ==> bytes@.len() < 0x1000_0000_0000_0000,
        ensures
            match outcome {
                FetchOutcome::Fetched { bytes, content_type } => {
                    let ext = fetched_extension(
                        match content_type {
                            Some(c) => Some(c@),
                            None => None,
                        },
                        link@,
                    );
                    let path = cache_path(blob_name(bytes@, ext));
                    &&& final(manifest).model() == old(manifest).model().insert(link@, path)
                    &&& final(pending).model() == blobs_after(old(pending).model(), blob_name(bytes@, ext), bytes@)
                    &&& r@ == settled(self.relativizes(), doc@, path)
                },
                FetchOutcome::Failed => {
                    &&& final(manifest).model() == old(manifest).model().insert(link@, link@)
                    &&& final(pending).model() == old(pending).model()
                    &&& r@ == settled(self.relativizes(), doc@, link@)
                },
            },
    {
        match outcome {
            FetchOutcome::Fetched { bytes, content_type } => {
                let ext = match &content_type {
                    Some(c) => extension_for(Some(c.as_str()), link),
                    None => extension_for(None, link),
                };
                let path = match &ext {
                    Some(e) => insert_into_cache(manifest, pending, link.to_owned(), bytes, Some(e.as_str())),
                    None => insert_into_cache(manifest, pending, link.to_owned(), bytes, None),
                };
                settle(self.relativize_urls, doc, path)
            },
            FetchOutcome::Failed => {
                manifest.insert(link.to_owned(), link.to_owned());
                settle(self.relativize_urls, doc, link.to_owned())
            },
        }
    }
}

} // verus!
