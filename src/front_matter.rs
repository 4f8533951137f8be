//! Front matter: a `---` line, `key: value[, value...]` lines, a closing `---` line.
use vstd::prelude::*;
use crate::value::{Properties, Val, Value, values_model, lemma_values_model_append};
use crate::text::slice_of;

verus! {

/// Why a document's front matter could not be read.
#[derive(Debug, Clone, Copy, PartialEq, Eq)]
pub enum FrontMatterError {
    /// The document does not begin with a `---` line.
    MissingOpening,
    /// No `---` line closes the front matter.
    MissingClosing,
    /// The entry on this line (counted from 1) is not `key: values`.
    MalformedEntry(usize),
}

/// Spaces that may pad a line or a value.
pub open spec fn is_pad(c: char) -> bool {
    c == ' ' || c == '\t' || c == '\r'
}

/// Characters a key is made of.
pub open spec fn is_key_char(c: char) -> bool {
    ('a' <= c && c <= 'z') || ('A' <= c && c <= 'Z') || ('0' <= c && c <= '9') || c == '_' || c == '-'
}

/// The first position in `[k, hi)` holding `c`, or `hi`.
pub open spec fn find_in(s: Seq<char>, k: int, hi: int, c: char) -> int
    decreases hi - k,
{
    if k >= hi {
        hi
    } else if s[k] == c {
        k
    } else {
        find_in(s, k + 1, hi, c)
    }
}

/// The first position in `[k, hi)` that is no padding, or `hi`.
pub open spec fn skip_pad(s: Seq<char>, k: int, hi: int) -> int
    decreases hi - k,
{
    if k >= hi || !is_pad(s[k]) {
        k
    } else {
        skip_pad(s, k + 1, hi)
    }
}

/// The end of `[lo, h)` with trailing padding removed.
pub open spec fn back_pad(s: Seq<char>, lo: int, h: int) -> int
    decreases h - lo,
{
    if h <= lo || !is_pad(s[h - 1]) {
        h
    } else {
        back_pad(s, lo, h - 1)
    }
}

/// `[lo, hi)` of `s` without padding at either end.
pub open spec fn trimmed(s: Seq<char>, lo: int, hi: int) -> Seq<char> {
    let a = skip_pad(s, lo, hi);
    s.subrange(a, back_pad(s, a, hi))
}

/// The values of `[k, hi)`: split at commas, each without padding.
pub open spec fn values_in(s: Seq<char>, k: int, hi: int) -> Seq<Seq<char>>
    decreases hi - k,
{
    let c = find_in(s, k, hi, ',');
    if c >= hi || c < k {
        seq![trimmed(s, k, hi)]
    } else {
        seq![trimmed(s, k, c)] + values_in(s, c + 1, hi)
    }
}

/// A key: one or more key characters.
pub open spec fn is_key(k: Seq<char>) -> bool {
    k.len() > 0 && forall|i: int| 0 <= i < k.len() ==> is_key_char(#[trigger] k[i])
}

/// The entry on the line `[lo, hi)`: its key and its values.
pub open spec fn entry_in(s: Seq<char>, lo: int, hi: int) -> Option<(Seq<char>, Seq<Seq<char>>)> {
    let c = find_in(s, lo, hi, ':');
    if c < hi && is_key(trimmed(s, lo, c)) {
        Some((trimmed(s, lo, c), values_in(s, c + 1, hi)))
    } else {
        None
    }
}

/// The value an entry's values stand for: a list of texts.
pub open spec fn list_of_texts(vs: Seq<Seq<char>>) -> Val {
    Val::List(Seq::new(vs.len(), |i: int| Val::Text(vs[i])))
}

/// Whether the line `[lo, hi)` is the delimiter `---`, padding aside.
pub open spec fn is_delimiter(s: Seq<char>, lo: int, hi: int) -> bool {
    trimmed(s, lo, hi) == "---"@
}

/// Whether the line `[lo, hi)` holds only padding.
pub open spec fn is_blank_line(s: Seq<char>, lo: int, hi: int) -> bool {
    skip_pad(s, lo, hi) == hi
}

/// The entries from the line that starts at `k` (line number `n`) on, added
/// to `acc`, and the position where the body starts.
pub open spec fn entries_from(s: Seq<char>, k: int, n: nat, acc: Map<Seq<char>, Val>) -> Result<
    (Map<Seq<char>, Val>, int),
    FrontMatterError,
>
    decreases s.len() - k,
{
    if k < 0 || k >= s.len() {
        Err(FrontMatterError::MissingClosing)
    } else {
        let e = find_in(s, k, s.len() as int, '\n');
        let next = if e < s.len() { e + 1 } else { e };
        if is_delimiter(s, k, e) {
            Ok((acc, next))
        } else if is_blank_line(s, k, e) {
            if k < next <= s.len() {
                entries_from(s, next, n + 1, acc)
            } else {
                Err(FrontMatterError::MissingClosing)
            }
        } else {
            match entry_in(s, k, e) {
                Some((key, vs)) => if k < next <= s.len() {
                    entries_from(s, next, n + 1, acc.insert(key, list_of_texts(vs)))
                } else {
                    Err(FrontMatterError::MissingClosing)
                },
                None => Err(FrontMatterError::MalformedEntry(n as usize)),
            }
        }
    }
}

/// The front matter of `s` and the position where its body starts.
pub open spec fn front_matter(s: Seq<char>) -> Result<(Map<Seq<char>, Val>, int), FrontMatterError> {
    let e = find_in(s, 0, s.len() as int, '\n');
    if e < s.len() && is_delimiter(s, 0, e) {
        entries_from(s, e + 1, 2, Map::empty())
    } else {
        Err(FrontMatterError::MissingOpening)
    }
}

pub fn find_in_exec(s: &Vec<char>, k: usize, hi: usize, c: char) -> (r: usize)
    requires
        k <= hi <= s.len(),
    ensures
        r == find_in(s@, k as int, hi as int, c),
        k <= r <= hi,
{
    let mut j = k;
    while j < hi && s[j] != c
        invariant
            k <= j <= hi <= s.len(),
            find_in(s@, k as int, hi as int, c) == find_in(s@, j as int, hi as int, c),
        decreases hi - j,
    {
        j += 1;
    }
    j
}

fn pad(c: char) -> (r: bool)
    ensures
        r == is_pad(c),
{
    c == ' ' || c == '\t' || c == '\r'
}

fn trimmed_range(s: &Vec<char>, lo: usize, hi: usize) -> (r: (usize, usize))
    requires
        lo <= hi <= s.len(),
    ensures
        lo <= r.0 <= r.1 <= hi,
        r.0 == skip_pad(s@, lo as int, hi as int),
        s@.subrange(r.0 as int, r.1 as int) == trimmed(s@, lo as int, hi as int),
{
    let mut a = lo;
    while a < hi && pad(s[a])
        invariant
            lo <= a <= hi <= s.len(),
            skip_pad(s@, lo as int, hi as int) == skip_pad(s@, a as int, hi as int),
        decreases hi - a,
    {
        a += 1;
    }
    let mut b = hi;
    while b > a && pad(s[b - 1])
        invariant
            a <= b <= hi <= s.len(),
            back_pad(s@, a as int, hi as int) == back_pad(s@, a as int, b as int),
        decreases b - a,
    {
        b -= 1;
    }
    (a, b)
}

fn key_chars(s: &Vec<char>, lo: usize, hi: usize) -> (r: bool)
    requires
        lo <= hi <= s.len(),
    ensures
        r == is_key(s@.subrange(lo as int, hi as int)),
{
    if lo == hi {
        return false;
    }
    let mut k = lo;
    while k < hi
        invariant
            lo <= k <= hi <= s.len(),
            forall|i: int| lo <= i < k ==> is_key_char(#[trigger] s@[i]),
        decreases hi - k,
    {
        let c = s[k];
        if !(('a' <= c && c <= 'z') || ('A' <= c && c <= 'Z') || ('0' <= c && c <= '9') || c == '_' || c == '-') {
            assert(!is_key_char(s@.subrange(lo as int, hi as int)[k - lo]));
            return false;
        }
        k += 1;
    }
    true
}

/// The values of `[k, hi)` as a list of texts.
fn values_exec(s: &Vec<char>, k: usize, hi: usize) -> (r: Vec<Value>)
    requires
        k <= hi <= s.len(),
    ensures
        Val::List(values_model(r@)) == list_of_texts(values_in(s@, k as int, hi as int)),
{
    let mut out: Vec<Value> = Vec::new();
    let mut j = k;
    let ghost whole = values_in(s@, k as int, hi as int);
    let ghost mut texts: Seq<Seq<char>> = Seq::empty();
    assert(values_model(out@) =~= Seq::<Val>::empty());
    loop
        invariant_except_break
            whole == texts + values_in(s@, j as int, hi as int),
        invariant
            k <= j <= hi <= s.len(),
            whole == values_in(s@, k as int, hi as int),
            values_model(out@) == Seq::new(texts.len(), |i: int| Val::Text(texts[i])),
        ensures
            values_model(out@) == Seq::new(texts.len(), |i: int| Val::Text(texts[i])),
            whole == texts,
        decreases hi - j,
    {
        let c = find_in_exec(s, j, hi, ',');
        let (a, b) = trimmed_range(s, j, c);
        let piece = crate::text::string_of(&slice_of(s, a, b));
        let ghost before = out@;
        let ghost old_texts = texts;
        out.push(Value::Text(piece));
        proof {
            lemma_values_model_append(before, Value::Text(piece));
            texts = texts.push(piece@);
            assert(values_model(out@) =~= Seq::new(texts.len(), |i: int| Val::Text(texts[i])));
        }
        if c >= hi {
            proof {
                assert(values_in(s@, j as int, hi as int) == seq![trimmed(s@, j as int, hi as int)]);
                assert(whole =~= texts);
            }
            break;
        }
        proof {
            assert(values_in(s@, j as int, hi as int) == seq![trimmed(s@, j as int, c as int)] + values_in(s@, c + 1, hi as int));
            assert(whole =~= texts + values_in(s@, c + 1, hi as int));
        }
        j = c + 1;
    }
    out
}

/// Whether the line `[lo, hi)` is the delimiter `---`, padding aside.
fn delimiter_line(s: &Vec<char>, lo: usize, hi: usize) -> (r: bool)
    requires
        lo <= hi <= s.len(),
    ensures
        r == is_delimiter(s@, lo as int, hi as int),
{
    let dashes = crate::text::chars_of("---");
    let (a, b) = trimmed_range(s, lo, hi);
    let r = b - a == 3 && crate::text::matches_at(s, a, &dashes);
    proof {
        reveal_strlit("---");
        if b - a == 3 {
            assert(s@.subrange(a as int, b as int) =~= s@.subrange(a as int, a + 3));
        } else {
            assert(s@.subrange(a as int, b as int).len() != "---"@.len());
        }
    }
    r
}

/// Reads the front matter of `s`: its entries and the position where the body starts.
pub fn front_matter_exec(s: &Vec<char>) -> (r: Result<(Properties, usize), FrontMatterError>)
    requires
        s.len() < usize::MAX,
    ensures
        match front_matter(s@) {
            Ok((m, b)) => r matches Ok((p, rb)) && p.model() == m && rb == b && b <= s.len(),
            Err(e) => r == Err::<(Properties, usize), FrontMatterError>(e),
        },
{
    let e0 = find_in_exec(s, 0, s.len(), '\n');
    if !(e0 < s.len() && delimiter_line(s, 0, e0)) {
        return Err(FrontMatterError::MissingOpening);
    }
    let mut props = Properties::new();
    let mut k = e0 + 1;
    let mut n: usize = 2;
    let ghost start = front_matter(s@);
    assert(props.model() =~= Map::<Seq<char>, Val>::empty());
    loop
        invariant
            0 < k <= s.len(),
            s.len() < usize::MAX,
            n <= k + 1,
            start == front_matter(s@),
            start == entries_from(s@, k as int, n as nat, props.model()),
        decreases s.len() - k,
    {
        if k >= s.len() {
            return Err(FrontMatterError::MissingClosing);
        }
        let e = find_in_exec(s, k, s.len(), '\n');
        let next = if e < s.len() { e + 1 } else { e };
        if delimiter_line(s, k, e) {
            return Ok((props, next));
        }
        let (a, _) = trimmed_range(s, k, e);
        if a == e {
            if next > k {
                k = next;
                n += 1;
                continue;
            } else {
                return Err(FrontMatterError::MissingClosing);
            }
        }
        let c = find_in_exec(s, k, e, ':');
        if c >= e {
            return Err(FrontMatterError::MalformedEntry(n));
        }
        let (ka, kb) = trimmed_range(s, k, c);
        if !key_chars(s, ka, kb) {
            return Err(FrontMatterError::MalformedEntry(n));
        }
        let key = crate::text::string_of(&slice_of(s, ka, kb));
        let values = values_exec(s, c + 1, e);
        let ghost vm = values_model(values@);
        let ghost key_view = key@;
        props.insert(key, Value::List(values));
        if next > k {
            k = next;
            n += 1;
        } else {
            return Err(FrontMatterError::MissingClosing);
        }
    }
}

/// Reads the front matter of `text`: its entries, and the body that follows it.
pub fn parse(text: &str) -> (r: Result<(Properties, String), FrontMatterError>)
    requires
        text@.len() < usize::MAX,
    ensures
        match front_matter(text@) {
            Ok((m, b)) => r matches Ok((p, body)) && p.model() == m && body@ == text@.subrange(b, text@.len() as int),
            Err(e) => r matches Err(re) && re == e,
        },
{
    let s = crate::text::chars_of(text);
    match front_matter_exec(&s) {
        Ok((p, b)) => Ok((p, crate::text::string_of(&slice_of(&s, b, s.len())))),
        Err(e) => Err(e),
    }
}

} // verus!
