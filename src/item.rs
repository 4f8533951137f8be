//! Documents moving through a build, and the stages that transform them.
use vstd::prelude::*;
use vstd::string::*;
use vstd::utf8::{valid_utf8, decode_utf8};
use crate::cache::{StringTable, PendingBlobs, blob_name, cache_path, blobs_after, insert_into_cache as cache_insert};
use crate::error::FsError;
use crate::front_matter::FrontMatterError;
use crate::html::last_of;
use crate::markdown::{MarkdownParser, compiled};
use crate::template::{IncludeFiles, TemplateParser, INCLUDE_DEPTH};
use crate::template_spec::{TemplateError, interpret, error_model};
use crate::text::{chars_of, slice_of, string_of, append_str};
use crate::value::{Properties, Val, Value};

verus! {

/// Relies on `String::from_utf8`: the text the bytes encode, if they are UTF-8.
#[verifier::external_body]
fn decode(bytes: &Vec<u8>) -> (r: Option<String>)
    ensures
        r is Some <==> valid_utf8(bytes@),
        r matches Some(s) ==> s@ == decode_utf8(bytes@),
{
    String::from_utf8(bytes.clone()).ok()
}

/// Relies on `String::into_bytes`: the UTF-8 encoding of the text.
#[verifier::external_body]
fn encode(s: String) -> (r: Vec<u8>)
    ensures
        valid_utf8(r@),
        decode_utf8(r@) == s@,
{
    s.into_bytes()
}

/// Why a stage could not process a document.
#[derive(Debug, PartialEq)]
pub enum ItemError {
    /// The document's bytes are not UTF-8 where text is needed.
    NotUtf8,
    /// The document is too long to index.
    TooLong,
    /// Its front matter could not be read.
    FrontMatter(FrontMatterError),
    /// Its template could not be interpreted.
    Template(TemplateError),
    /// Its path is unusable.
    Fs(FsError),
    /// Its file name does not start with a valid date.
    Date,
}

/// What `time` prints for the calendar date `year`-`month`-`day` with the
/// format description `format`, or none where the date or the description
/// is invalid.
pub uninterp spec fn calendar_date_formatted(year: int, month: int, day: int, format: Seq<char>) -> Option<Seq<char>>;

/// Relies on the `time` crate: `Date::from_calendar_date` (which rejects a
/// month or day out of range), then `Date::format` with the description that
/// `format_description::parse` reads from `format`.
#[verifier::external_body]
fn format_calendar_date(year: i32, month: u8, day: u8, format: &str) -> (r: Option<String>)
    ensures
        crate::value::opt_view(r) == calendar_date_formatted(year as int, month as int, day as int, format@),
{
    let month = time::Month::try_from(month).ok()?;
    let date = time::Date::from_calendar_date(year, month, day).ok()?;
    let description = time::format_description::parse(format).ok()?;
    date.format(&description).ok()
}

pub open spec fn is_digit(c: char) -> bool {
    '0' <= c && c <= '9'
}

/// The number that a run of decimal digits stands for.
pub open spec fn digits_value(d: Seq<char>) -> int
    decreases d.len(),
{
    if d.len() == 0 {
        0
    } else {
        10 * digits_value(d.drop_last()) + (d.last() as int - '0' as int)
    }
}

pub open spec fn all_digits(d: Seq<char>) -> bool {
    forall|i: int| 0 <= i < d.len() ==> is_digit(#[trigger] d[i])
}

/// The date a file name starts with: `YYYY-MM-DD`, then a dash or the end.
/// Gives the three parts as written.
pub open spec fn date_prefix(name: Seq<char>) -> Option<(Seq<char>, Seq<char>, Seq<char>)> {
    if name.len() >= 10 && name[4] == '-' && name[7] == '-' && (name.len() == 10 || name[10] == '-')
        && all_digits(name.subrange(0, 4)) && all_digits(name.subrange(5, 7)) && all_digits(name.subrange(8, 10)) {
        Some((name.subrange(0, 4), name.subrange(5, 7), name.subrange(8, 10)))
    } else {
        None
    }
}

/// A document: its output path (rooted at `/`), its bytes, its metadata and
/// the cache blobs found while processing it.
pub struct Item {
    pub path: String,
    pub bytes: Vec<u8>,
    pub properties: Properties,
    pub cache: PendingBlobs,
}

/// An empty document at `path`.
pub fn create(path: &str) -> (r: Item)
    ensures
        r.path@ == path@,
        r.bytes@.len() == 0,
        r.properties.model() == Map::<Seq<char>, Val>::empty(),
        r.cache.model() == Map::<Seq<char>, Seq<u8>>::empty(),
{
    Item { path: path.to_owned(), bytes: Vec::new(), properties: Properties::new(), cache: PendingBlobs::new() }
}

/// The file name of `path`: its last segment, trailing slashes aside; none
/// when that is empty or `..`.
pub open spec fn file_name_of(path: Seq<char>) -> Option<Seq<char>> {
    let e = crate::html::slash_trimmed_end(path, path.len() as int);
    let k = last_of(path, e, '/');
    let name = path.subrange(k + 1, e);
    if e <= 0 || name.len() == 0 || name == ".."@ {
        None
    } else {
        Some(name)
    }
}

/// `path` with its extension set to `ext`: what follows the last dot of its
/// file name is replaced, or `.ext` is added where the name has no dot
/// (a leading dot does not count).
pub open spec fn with_extension(path: Seq<char>, ext: Seq<char>) -> Seq<char> {
    let k = last_of(path, path.len() as int, '/');
    let d = last_of(path, path.len() as int, '.');
    if d > k + 1 {
        path.subrange(0, d + 1) + ext
    } else {
        path + "."@ + ext
    }
}

impl Item {
    /// This document with `value` stored under `key`.
    pub fn set_property(self, key: &str, value: Value) -> (r: Item)
        ensures
            r.path == self.path,
            r.bytes == self.bytes,
            r.properties.model() == self.properties.model().insert(key@, value.model()),
            r.cache == self.cache,
    {
        let mut properties = self.properties;
        properties.insert(key.to_owned(), value);
        Item { path: self.path, bytes: self.bytes, properties, cache: self.cache }
    }

    /// This document at `path`.
    pub fn set_path(self, path: &str) -> (r: Item)
        ensures
            r.path@ == path@,
            r.bytes == self.bytes,
            r.properties == self.properties,
            r.cache == self.cache,
    {
        Item { path: path.to_owned(), bytes: self.bytes, properties: self.properties, cache: self.cache }
    }

    /// The file name of the document's path.
    pub fn get_filename(&self) -> (r: Result<String, FsError>)
        ensures
            match file_name_of(self.path@) {
                Some(n) => r matches Ok(s) && s@ == n,
                None => r == Err::<String, FsError>(FsError::InvalidFileName),
            },
    {
        let p = chars_of(self.path.as_str());
        let mut e = p.len();
        while e > 0 && p[e - 1] == '/'
            invariant
                e <= p.len(),
                crate::html::slash_trimmed_end(p@, p@.len() as int) == crate::html::slash_trimmed_end(p@, e as int),
            decreases e,
        {
            e -= 1;
        }
        if e == 0 {
            return Err(FsError::InvalidFileName);
        }
        let mut k = e;
        while k > 0 && p[k - 1] != '/'
            invariant
                k <= e <= p.len(),
                last_of(p@, e as int, '/') == last_of(p@, k as int, '/'),
            decreases k,
        {
            k -= 1;
        }
        let name = slice_of(&p, k, e);
        proof { reveal_strlit(".."); }
        if name.len() == 0 || (name.len() == 2 && name[0] == '.' && name[1] == '.') {
            proof {
                if name.len() == 2 && name[0] == '.' && name[1] == '.' {
                    assert(name@ =~= ".."@);
                }
            }
            return Err(FsError::InvalidFileName);
        }
        proof {
            if name@ == ".."@ {
                assert(name@[0] == '.' && name@[1] == '.');
            }
        }
        Ok(string_of(&name))
    }

    /// This document with the extension of its path set to `ext`.
    pub fn set_extension(self, ext: &str) -> (r: Item)
        ensures
            r.path@ == with_extension(self.path@, ext@),
            r.bytes == self.bytes,
            r.properties == self.properties,
            r.cache == self.cache,
    {
        let p = chars_of(self.path.as_str());
        let mut k = p.len();
        while k > 0 && p[k - 1] != '/'
            invariant
                k <= p.len(),
                last_of(p@, p@.len() as int, '/') == last_of(p@, k as int, '/'),
            decreases k,
        {
            k -= 1;
        }
        let mut d = p.len();
        while d > 0 && p[d - 1] != '.'
            invariant
                d <= p.len(),
                last_of(p@, p@.len() as int, '.') == last_of(p@, d as int, '.'),
            decreases d,
        {
            d -= 1;
        }
        let mut out: Vec<char>;
        if d > 0 && d - 1 > k {
            out = slice_of(&p, 0, d);
            append_str(&mut out, ext);
        } else {
            out = p;
            append_str(&mut out, ".");
            append_str(&mut out, ext);
        }
        Item { path: string_of(&out), bytes: self.bytes, properties: self.properties, cache: self.cache }
    }

    /// The document's metadata with its `url` (its path after `/`) and its
    /// `body` (its text) added.
    pub fn properties_with_url_and_body(&self) -> (r: Result<Properties, ItemError>)
        ensures
            valid_utf8(self.bytes@) ==> (r matches Ok(p) && p.model() == self.properties.model().insert(
                "url"@,
                Val::Text("/"@ + self.path@),
            ).insert("body"@, Val::Text(decode_utf8(self.bytes@)))),
            !valid_utf8(self.bytes@) ==> r == Err::<Properties, ItemError>(ItemError::NotUtf8),
    {
        let body = match decode(&self.bytes) {
            Some(b) => b,
            None => {
                return Err(ItemError::NotUtf8);
            },
        };
        let mut props = self.properties.duplicate();
        let mut url = chars_of("/");
        append_str(&mut url, self.path.as_str());
        props.insert(String::from_str("url"), Value::Text(string_of(&url)));
        props.insert(String::from_str("body"), Value::Text(body));
        Ok(props)
    }

    /// The document as one value: its metadata with its url and body.
    pub fn into_meta(&self) -> (r: Result<Value, ItemError>)
        ensures
            valid_utf8(self.bytes@) ==> (r matches Ok(v) && v.model() == Val::Mapping(
                self.properties.model().insert("url"@, Val::Text("/"@ + self.path@)).insert(
                    "body"@,
                    Val::Text(decode_utf8(self.bytes@)),
                ),
            )),
            !valid_utf8(self.bytes@) ==> r == Err::<Value, ItemError>(ItemError::NotUtf8),
    {
        match self.properties_with_url_and_body() {
            Ok(p) => Ok(Value::Mapping(p)),
            Err(e) => Err(e),
        }
    }

    /// Puts `bytes`, fetched from `link`, into the cache on behalf of this
    /// document: the blob joins the document's pending blobs and the
    /// manifest maps `link` to the returned cache path.
    pub fn insert_into_cache(
        &mut self,
        manifest: &mut StringTable,
        link: String,
        bytes: Vec<u8>,
        extension: Option<&str>,
    ) -> (r: String)
        requires
            bytes@.len() < 0x1000_0000_0000_0000,
        ensures
            r@ == cache_path(blob_name(bytes@, match extension { Some(e) => Some(e@), None => None })),
            final(self).cache.model() == blobs_after(
                old(self).cache.model(),
                blob_name(bytes@, match extension { Some(e) => Some(e@), None => None }),
                bytes@,
            ),
            final(manifest).model() == old(manifest).model().insert(link@, r@),
            final(self).path == old(self).path,
            final(self).bytes == old(self).bytes,
            final(self).properties == old(self).properties,
    {
        cache_insert(manifest, &mut self.cache, link, bytes, extension)
    }
}

/// The document moved into the directory `new_dir`, keeping its file name.
pub fn change_directory(new_dir: &str, item: Item) -> (r: Result<Item, FsError>)
    ensures
        match file_name_of(item.path@) {
            Some(n) => r matches Ok(it) && it.path@ == new_dir@ + "/"@ + n && it.bytes == item.bytes
                && it.properties == item.properties && it.cache == item.cache,
            None => r matches Err(e) && e == FsError::InvalidFileName,
        },
{
    match item.get_filename() {
        Err(e) => Err(e),
        Ok(name) => {
            let mut out = chars_of(new_dir);
            append_str(&mut out, "/");
            append_str(&mut out, name.as_str());
            Ok(Item { path: string_of(&out), bytes: item.bytes, properties: item.properties, cache: item.cache })
        },
    }
}

/// What compiling a document gives: its HTML in place of its bytes, its
/// front matter over its metadata.
pub fn compile_item(parser: &MarkdownParser, item: Item) -> (r: Result<Item, ItemError>)
    ensures
        !valid_utf8(item.bytes@) ==> r == Err::<Item, ItemError>(ItemError::NotUtf8),
        valid_utf8(item.bytes@) && decode_utf8(item.bytes@).len() + 32 >= usize::MAX ==> r == Err::<
            Item,
            ItemError,
        >(ItemError::TooLong),
        valid_utf8(item.bytes@) && decode_utf8(item.bytes@).len() + 32 < usize::MAX ==> match compiled(
            decode_utf8(item.bytes@),
            parser.models(),
        ) {
            Ok((h, m)) => r matches Ok(it) && decode_utf8(it.bytes@) == h && valid_utf8(it.bytes@)
                && it.properties.model() == item.properties.model().union_prefer_right(m)
                && it.path == item.path,
            Err(e) => r == Err::<Item, ItemError>(ItemError::FrontMatter(e)),
        },
{
    let text = match decode(&item.bytes) {
        Some(t) => t,
        None => {
            return Err(ItemError::NotUtf8);
        },
    };
    if text.unicode_len() >= usize::MAX - 32 {
        return Err(ItemError::TooLong);
    }
    match parser.compile(text.as_str()) {
        Err(e) => Err(ItemError::FrontMatter(e)),
        Ok(c) => {
            let mut properties = item.properties;
            properties.extend(&c.metadata);
            Ok(Item { path: item.path, bytes: encode(c.html), properties, cache: item.cache })
        },
    }
}

/// What applying `template` to a document gives: the template interpreted
/// against the template's metadata, overridden by the document's metadata
/// with its url and body; the document keeps its path and gains the
/// template's pending blobs.
pub fn apply_template(item: Item, template: &Item, files: &IncludeFiles) -> (r: Result<Item, ItemError>)
    ensures
        !valid_utf8(item.bytes@) || !valid_utf8(template.bytes@) ==> r == Err::<Item, ItemError>(ItemError::NotUtf8),
        valid_utf8(item.bytes@) && valid_utf8(template.bytes@) && decode_utf8(template.bytes@).len() + 16
            >= usize::MAX ==> r == Err::<Item, ItemError>(ItemError::TooLong),
        valid_utf8(item.bytes@) && valid_utf8(template.bytes@) && decode_utf8(template.bytes@).len() + 16
            < usize::MAX ==> {
            let scope = template.properties.model().union_prefer_right(
                item.properties.model().insert("url"@, Val::Text("/"@ + item.path@)).insert(
                    "body"@,
                    Val::Text(decode_utf8(item.bytes@)),
                ),
            );
            match interpret(decode_utf8(template.bytes@), scope, files.model(), INCLUDE_DEPTH as nat) {
                Ok(o) => r matches Ok(it) && decode_utf8(it.bytes@) == o && valid_utf8(it.bytes@)
                    && it.properties.model() == scope && it.path == item.path,
                Err(e) => r matches Err(ItemError::Template(te)) && error_model(te) == e,
            }
        },
{
    let own = match item.properties_with_url_and_body() {
        Ok(p) => p,
        Err(e) => {
            return Err(e);
        },
    };
    let text = match decode(&template.bytes) {
        Some(t) => t,
        None => {
            return Err(ItemError::NotUtf8);
        },
    };
    if text.unicode_len() >= usize::MAX - 16 {
        return Err(ItemError::TooLong);
    }
    let mut properties = template.properties.duplicate();
    properties.extend(&own);
    match TemplateParser::default().interpret(text.as_str(), &properties, files) {
        Err(e) => Err(ItemError::Template(e)),
        Ok(out) => Ok(Item { path: item.path, bytes: encode(out), properties, cache: item.cache }),
    }
}

fn digit_value(c: char) -> (r: u32)
    requires
        is_digit(c),
    ensures
        r == c as int - '0' as int,
{
    (c as u32) - ('0' as u32)
}

fn digits_value_exec(d: &Vec<char>) -> (r: u32)
    requires
        all_digits(d@),
        d.len() <= 4,
    ensures
        r == digits_value(d@),
        r < 10000,
        d.len() <= 2 ==> r < 100,
{
    let mut v: u32 = 0;
    let mut i: usize = 0;
    while i < d.len()
        invariant
            i <= d.len() <= 4,
            all_digits(d@),
            v == digits_value(d@.take(i as int)),
            v < 10000,
            i == 0 ==> v == 0,
            i == 1 ==> v < 10,
            i == 2 ==> v < 100,
            i == 3 ==> v < 1000,
        decreases d.len() - i,
    {
        let c = d[i];
        assert(is_digit(d@[i as int]));
        let x = digit_value(c);
        proof {
            assert(d@.take(i + 1).drop_last() =~= d@.take(i as int));
        }
        v = 10 * v + x;
        i += 1;
    }
    assert(d@.take(d@.len() as int) =~= d@);
    v
}

fn digits_only(s: &Vec<char>, lo: usize, hi: usize) -> (r: bool)
    requires
        lo <= hi <= s.len(),
    ensures
        r == all_digits(s@.subrange(lo as int, hi as int)),
{
    let mut k = lo;
    while k < hi
        invariant
            lo <= k <= hi <= s.len(),
            forall|i: int| lo <= i < k ==> is_digit(#[trigger] s@[i]),
        decreases hi - k,
    {
        if !('0' <= s[k] && s[k] <= '9') {
            assert(!is_digit(s@.subrange(lo as int, hi as int)[k - lo]));
            return false;
        }
        k += 1;
    }
    proof {
        assert forall|i: int| 0 <= i < hi - lo implies is_digit(#[trigger] s@.subrange(lo as int, hi as int)[i]) by {
            assert(s@.subrange(lo as int, hi as int)[i] == s@[lo + i]);
        }
    }
    true
}

/// The document with the date its file name starts with (`YYYY-MM-DD-...`)
/// stored as `dateRaw`, as `date` (printed with the `time` format
/// description `format`), and as `dateYear`, `dateMonth` and `dateDay`.
pub fn load_date(item: Item, format: &str) -> (r: Result<Item, ItemError>)
    ensures
        match file_name_of(item.path@) {
            None => r == Err::<Item, ItemError>(ItemError::Fs(FsError::InvalidFileName)),
            Some(name) => match date_prefix(name) {
                None => r == Err::<Item, ItemError>(ItemError::Date),
                Some((y, m, d)) => match calendar_date_formatted(
                    digits_value(y),
                    digits_value(m),
                    digits_value(d),
                    format@,
                ) {
                    None => r == Err::<Item, ItemError>(ItemError::Date),
                    Some(text) => r matches Ok(it) && it.path == item.path && it.bytes == item.bytes
                        && it.cache == item.cache && it.properties.model() == item.properties.model().insert(
                        "dateRaw"@,
                        Val::Text(y + "-"@ + m + "-"@ + d),
                    ).insert("date"@, Val::Text(text)).insert("dateYear"@, Val::Text(y)).insert(
                        "dateMonth"@,
                        Val::Text(m),
                    ).insert("dateDay"@, Val::Text(d)),
                },
            },
        },
{
    let name = match item.get_filename() {
        Ok(n) => n,
        Err(e) => {
            return Err(ItemError::Fs(e));
        },
    };
    let s = chars_of(name.as_str());
    if !(s.len() >= 10 && s[4] == '-' && s[7] == '-' && (s.len() == 10 || s[10] == '-') && digits_only(&s, 0, 4)
        && digits_only(&s, 5, 7) && digits_only(&s, 8, 10)) {
        return Err(ItemError::Date);
    }
    let y = slice_of(&s, 0, 4);
    let m = slice_of(&s, 5, 7);
    let d = slice_of(&s, 8, 10);
    let yv = digits_value_exec(&y);
    let mv = digits_value_exec(&m);
    let dv = digits_value_exec(&d);
    let text = match format_calendar_date(yv as i32, mv as u8, dv as u8, format) {
        Some(t) => t,
        None => {
            return Err(ItemError::Date);
        },
    };
    let mut raw = y.clone();
    append_str(&mut raw, "-");
    crate::text::append_chars(&mut raw, &m);
    append_str(&mut raw, "-");
    crate::text::append_chars(&mut raw, &d);
    let item = item.set_property("dateRaw", Value::Text(string_of(&raw)));
    let item = item.set_property("date", Value::Text(text));
    let item = item.set_property("dateYear", Value::Text(string_of(&y)));
    let item = item.set_property("dateMonth", Value::Text(string_of(&m)));
    let item = item.set_property("dateDay", Value::Text(string_of(&d)));
    Ok(item)
}

} // verus!
