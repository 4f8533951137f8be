//! The markdown grammar, stated over sequences of characters.
//!
//! A body is read element by element. At each element start a block rule is
//! tried first (after a run of newlines: headers, the thematic break, a
//! paragraph, a line break, then registered block extensions); when none
//! applies, one inline element is read: an escaped character, a single
//! newline (dropped), an inline construct, or a run of literal text.
//! Built-in rules always come before extensions.
use vstd::prelude::*;
use crate::text::{occurs_at, escape_html};

verus! {

/// A registered extension, as the grammar sees it.
pub enum ExtModel {
    /// `left` content `right`, rendered as `before` + content + `after`.
    Inline { left: Seq<char>, right: Seq<char>, before: Seq<char>, after: Seq<char> },
    /// A run of lines that start with `prefix`; each line is rendered as
    /// `line_before` + content + `line_after`, and the lines are joined with
    /// `separator` between `block_before` and `block_after`.
    Block {
        prefix: Seq<char>,
        line_before: Seq<char>,
        line_after: Seq<char>,
        block_before: Seq<char>,
        separator: Seq<char>,
        block_after: Seq<char>,
    },
}

/// An inline construct recognised at some position, with the ranges of its parts.
pub enum SpanModel {
    Image { text_lo: int, text_hi: int, href_lo: int, href_hi: int },
    Link { text_lo: int, text_hi: int, href_lo: int, href_hi: int },
    Fence { note: Option<(int, int)>, lo: int, hi: int },
    Code { lo: int, hi: int },
    Emphasis { tag: Seq<char>, lo: int, hi: int },
    Extension { index: int, lo: int, hi: int },
}

/// The first position at or after `k` where `pat` occurs, or the length of `s`.
pub open spec fn find_from(s: Seq<char>, k: int, pat: Seq<char>) -> int
    decreases s.len() - k,
{
    if k >= s.len() {
        s.len() as int
    } else if occurs_at(s, k, pat) {
        k
    } else {
        find_from(s, k + 1, pat)
    }
}

/// The first position at or after `k` where `pat` does not occur.
pub open spec fn skip_while(s: Seq<char>, k: int, pat: Seq<char>) -> int
    decreases s.len() - k,
{
    if k >= s.len() || !occurs_at(s, k, pat) {
        k
    } else {
        skip_while(s, k + 1, pat)
    }
}

/// The end of the line that holds position `k`.
pub open spec fn line_end(s: Seq<char>, k: int) -> int {
    find_from(s, k, seq!['\n'])
}

/// Content that starts at `c` and is closed by `close`: at least one
/// character before the first `close`, then every position at which `repeat`
/// occurs is taken into the content too. Gives the end of the content.
pub open spec fn closed_content(s: Seq<char>, c: int, close: Seq<char>, repeat: Seq<char>) -> Option<int> {
    let k = find_from(s, c, close);
    let k2 = skip_while(s, k, repeat);
    if k > c && occurs_at(s, k2, close) {
        Some(k2)
    } else {
        None
    }
}

/// `[text](href)` starting at `k`: the ends of the text and of the href.
pub open spec fn bracket_pair(s: Seq<char>, k: int) -> Option<(int, int)> {
    let te = find_from(s, k + 1, seq![']']);
    let he = find_from(s, te + 2, seq![')']);
    if 0 <= k < s.len() && s[k] == '[' && te < s.len() && te + 1 < s.len() && s[te + 1] == '('
        && he < s.len() {
        Some((te, he))
    } else {
        None
    }
}

/// The code fence starting at `i`: its optional annotation, its code and its end.
pub open spec fn fence_at(s: Seq<char>, i: int) -> Option<(SpanModel, int)> {
    let p = i + 3;
    let k = if find_from(s, p, seq!['\n']) <= find_from(s, p, "```"@) {
        find_from(s, p, seq!['\n'])
    } else {
        find_from(s, p, "```"@)
    };
    let has_note = k > p && k < s.len() && s[k] == '\n';
    let c = if has_note { k + 1 } else { p };
    let q = find_from(s, c, "```"@);
    if occurs_at(s, i, "```"@) && q > c && occurs_at(s, q, "```"@) {
        Some((SpanModel::Fence { note: if has_note { Some((p, k)) } else { None }, lo: c, hi: q }, q + 3))
    } else {
        None
    }
}

/// A doubled delimiter (`**`, `~~`, `__`) at `i`, rendered with `tag`.
pub open spec fn double_at(s: Seq<char>, i: int, d: char, tag: Seq<char>) -> Option<(SpanModel, int)> {
    let dd = seq![d, d];
    let ddd = seq![d, d, d];
    if occurs_at(s, i, dd) {
        match closed_content(s, i + 2, dd, ddd) {
            Some(hi) => Some((SpanModel::Emphasis { tag, lo: i + 2, hi }, hi + 2)),
            None => None,
        }
    } else {
        None
    }
}

/// The first inline extension, from `j` on, whose delimiters enclose content at `i`.
pub open spec fn extension_span_from(s: Seq<char>, i: int, exts: Seq<ExtModel>, j: int) -> Option<(SpanModel, int)>
    decreases exts.len() - j,
{
    if j < 0 || j >= exts.len() {
        None
    } else {
        match exts[j] {
            ExtModel::Inline { left, right, .. } => {
                let c = i + left.len();
                let hi = find_from(s, c, right);
                if occurs_at(s, i, left) && hi > c && occurs_at(s, hi, right) {
                    Some((SpanModel::Extension { index: j, lo: c, hi }, hi + right.len()))
                } else {
                    extension_span_from(s, i, exts, j + 1)
                }
            },
            ExtModel::Block { .. } => extension_span_from(s, i, exts, j + 1),
        }
    }
}

/// The inline construct at `i`, trying in order: image, link, code fence,
/// code, bold, italic, strikethrough, underline, then inline extensions.
pub open spec fn span_at(s: Seq<char>, i: int, exts: Seq<ExtModel>) -> Option<(SpanModel, int)> {
    if i < 0 || i >= s.len() {
        None
    } else if s[i] == '!' && bracket_pair(s, i + 1) is Some {
        let (te, he) = bracket_pair(s, i + 1)->Some_0;
        Some((SpanModel::Image { text_lo: i + 2, text_hi: te, href_lo: te + 2, href_hi: he }, he + 1))
    } else if bracket_pair(s, i) is Some {
        let (te, he) = bracket_pair(s, i)->Some_0;
        Some((SpanModel::Link { text_lo: i + 1, text_hi: te, href_lo: te + 2, href_hi: he }, he + 1))
    } else if fence_at(s, i) is Some {
        fence_at(s, i)
    } else if s[i] == '`' && find_from(s, i + 1, seq!['`']) > i + 1 && find_from(s, i + 1, seq!['`']) < s.len() {
        let hi = find_from(s, i + 1, seq!['`']);
        Some((SpanModel::Code { lo: i + 1, hi }, hi + 1))
    } else if double_at(s, i, '*', seq!['b']) is Some {
        double_at(s, i, '*', seq!['b'])
    } else if s[i] == '*' && closed_content(s, i + 1, seq!['*'], seq!['*', '*']) is Some {
        let hi = closed_content(s, i + 1, seq!['*'], seq!['*', '*'])->Some_0;
        Some((SpanModel::Emphasis { tag: seq!['i'], lo: i + 1, hi }, hi + 1))
    } else if double_at(s, i, '~', seq!['s']) is Some {
        double_at(s, i, '~', seq!['s'])
    } else if double_at(s, i, '_', seq!['u']) is Some {
        double_at(s, i, '_', seq!['u'])
    } else {
        extension_span_from(s, i, exts, 0)
    }
}

/// Where a run of literal text that continues at `k` ends: at a newline, a
/// backslash, the start of an inline construct, or the end of the input.
pub open spec fn text_end(s: Seq<char>, k: int, exts: Seq<ExtModel>) -> int
    decreases s.len() - k,
{
    if k < 0 || k >= s.len() || s[k] == '\n' || s[k] == '\\' || span_at(s, k, exts) is Some {
        k
    } else {
        text_end(s, k + 1, exts)
    }
}

/// The lines of a block extension with `prefix`, from the line at `k` on:
/// the range of each line's content. An empty prefix matches no line.
pub open spec fn block_lines(s: Seq<char>, k: int, prefix: Seq<char>) -> Seq<(int, int)>
    decreases s.len() - k,
{
    let c = k + prefix.len();
    let e = line_end(s, c);
    if prefix.len() == 0 || k < 0 || k >= s.len() || !occurs_at(s, k, prefix) || e <= c {
        Seq::empty()
    } else if e < s.len() && e + 1 > k {
        seq![(c, e)] + block_lines(s, e + 1, prefix)
    } else {
        seq![(c, e)]
    }
}

/// The first block extension, from `j` on, that has a line at `k`.
pub open spec fn block_extension_from(s: Seq<char>, k: int, exts: Seq<ExtModel>, j: int) -> Option<(int, Seq<(int, int)>)>
    decreases exts.len() - j,
{
    if j < 0 || j >= exts.len() {
        None
    } else {
        match exts[j] {
            ExtModel::Block { prefix, .. } =>
                if block_lines(s, k, prefix).len() > 0 {
                    Some((j, block_lines(s, k, prefix)))
                } else {
                    block_extension_from(s, k, exts, j + 1)
                },
            ExtModel::Inline { .. } => block_extension_from(s, k, exts, j + 1),
        }
    }
}

/// The header level of a header line at `k`, with the range of its text.
pub open spec fn header_at(s: Seq<char>, k: int) -> Option<(int, int, int)> {
    let e3 = line_end(s, k + 4);
    let e2 = line_end(s, k + 3);
    let e1 = line_end(s, k + 2);
    if occurs_at(s, k, "### "@) && e3 > k + 4 {
        Some((3, k + 4, e3))
    } else if occurs_at(s, k, "## "@) && e2 > k + 3 {
        Some((2, k + 3, e2))
    } else if occurs_at(s, k, "# "@) && e1 > k + 2 {
        Some((1, k + 2, e1))
    } else {
        None
    }
}

/// Whether a thematic break (`---` alone up to the end of its line) is at `k`.
pub open spec fn rule_at(s: Seq<char>, k: int) -> bool {
    occurs_at(s, k, "---"@) && (k + 3 == s.len() || (k + 3 < s.len() && s[k + 3] == '\n'))
}

pub open spec fn header_tag(level: int) -> Seq<char> {
    if level == 3 {
        "h3"@
    } else if level == 2 {
        "h2"@
    } else {
        "h1"@
    }
}

pub open spec fn wrap_tag(tag: Seq<char>, inner: Seq<char>) -> Seq<char> {
    "<"@ + tag + ">"@ + inner + "</"@ + tag + ">"@
}

/// The HTML of a code fence; `note` is its annotation, if any.
pub open spec fn fence_html(note: Option<Seq<char>>, code: Seq<char>) -> Seq<char> {
    match note {
        None => "<pre><code>"@ + escape_html(code) + "</code></pre>"@,
        Some(a) => {
            let dot = last_dot(a, a.len() as int);
            if dot < 0 {
                "<pre><code class=\"language-"@ + a + "\">"@ + escape_html(code) + "</code></pre>"@
            } else {
                "<pre><small>"@ + a + "</small><code class=\"language-"@ + a.subrange(dot + 1, a.len() as int)
                    + "\">"@ + escape_html(code) + "</code></pre>"@
            }
        },
    }
}

/// The position of the last `.` before `k`, or -1.
pub open spec fn last_dot(a: Seq<char>, k: int) -> int
    decreases k,
{
    if k <= 0 || k > a.len() {
        -1
    } else if a[k - 1] == '.' {
        k - 1
    } else {
        last_dot(a, k - 1)
    }
}

/// The HTML of a whole body.
pub open spec fn render(s: Seq<char>, exts: Seq<ExtModel>) -> Seq<char> {
    doc_from(s, 0, exts)
}

/// The HTML of the elements from position `i` on.
pub open spec fn doc_from(s: Seq<char>, i: int, exts: Seq<ExtModel>) -> Seq<char>
    decreases s.len(), 6int, s.len() - i,
{
    if i < 0 || i >= s.len() {
        Seq::empty()
    } else {
        match block_at(s, i, exts) {
            Some((out, e)) => if i < e <= s.len() {
                out + doc_from(s, e, exts)
            } else {
                out
            },
            None => {
                let (out, e) = inline_at(s, i, exts);
                if i < e <= s.len() {
                    out + doc_from(s, e, exts)
                } else {
                    out
                }
            },
        }
    }
}

/// The HTML of inline elements only, from position `i` on.
pub open spec fn flow_from(s: Seq<char>, i: int, exts: Seq<ExtModel>) -> Seq<char>
    decreases s.len(), 3int, s.len() - i,
{
    if i < 0 || i >= s.len() {
        Seq::empty()
    } else {
        let (out, e) = inline_at(s, i, exts);
        if i < e <= s.len() {
            out + flow_from(s, e, exts)
        } else {
            out
        }
    }
}

/// The inline HTML of the characters from `lo` up to `hi`.
pub open spec fn flow_of(s: Seq<char>, lo: int, hi: int, exts: Seq<ExtModel>) -> Seq<char>
    decreases s.len(), 0int, 0int,
{
    if 0 <= lo <= hi <= s.len() && hi - lo < s.len() {
        flow_from(s.subrange(lo, hi), 0, exts)
    } else {
        Seq::empty()
    }
}

/// The block element at `i`, if one starts there, and where it ends.
pub open spec fn block_at(s: Seq<char>, i: int, exts: Seq<ExtModel>) -> Option<(Seq<char>, int)>
    decreases s.len(), 5int, 0int,
{
    let j = skip_while(s, i, seq!['\n']);
    let run = j - i;
    if i < 0 || i >= s.len() || j > s.len() {
        None
    } else if header_at(s, j) is Some {
        let (level, lo, hi) = header_at(s, j)->Some_0;
        Some((wrap_tag(header_tag(level), flow_of(s, lo, hi, exts)), hi))
    } else if rule_at(s, j) {
        Some(("<hr/>"@, j + 3))
    } else if run >= 3 && j < s.len() {
        let end = find_from(s, j, "\n\n\n"@);
        if j < end <= s.len() && end - j < s.len() {
            Some((wrap_tag("p"@, doc_from(s.subrange(j, end), 0, exts)), end))
        } else {
            None
        }
    } else if run >= 2 {
        Some(("<br/>"@, i + 2))
    } else if block_extension_from(s, j, exts, 0) is Some {
        let (x, lines) = block_extension_from(s, j, exts, 0)->Some_0;
        match exts[x] {
            ExtModel::Block { block_before, separator, block_after, .. } => Some((
                block_before + block_lines_html(s, lines, 0, exts, x, separator) + block_after,
                lines.last().1,
            )),
            _ => None,
        }
    } else {
        None
    }
}

/// The rendered lines of a block extension from line `n` on, joined with `sep`.
pub open spec fn block_lines_html(
    s: Seq<char>,
    lines: Seq<(int, int)>,
    n: int,
    exts: Seq<ExtModel>,
    x: int,
    sep: Seq<char>,
) -> Seq<char>
    decreases s.len(), 4int, lines.len() - n,
{
    if n < 0 || n >= lines.len() || x < 0 || x >= exts.len() {
        Seq::empty()
    } else {
        let (lo, hi) = lines[n];
        let line = match exts[x] {
            ExtModel::Block { line_before, line_after, .. } =>
                line_before + flow_of(s, lo, hi, exts) + line_after,
            _ => Seq::empty(),
        };
        if n + 1 < lines.len() {
            line + sep + block_lines_html(s, lines, n + 1, exts, x, sep)
        } else {
            line
        }
    }
}

/// The inline element at `i` and where it ends.
pub open spec fn inline_at(s: Seq<char>, i: int, exts: Seq<ExtModel>) -> (Seq<char>, int)
    decreases s.len(), 2int, 0int,
{
    if i < 0 || i >= s.len() {
        (Seq::empty(), i + 1)
    } else if s[i] == '\\' && i + 1 < s.len() {
        (seq![s[i + 1]], i + 2)
    } else if s[i] == '\n' {
        (Seq::empty(), i + 1)
    } else {
        match span_at(s, i, exts) {
            Some((sp, e)) => (span_html(s, sp, exts), e),
            None => {
                let e = text_end(s, i + 1, exts);
                (s.subrange(i, e), e)
            },
        }
    }
}

/// The HTML of a recognised inline construct.
pub open spec fn span_html(s: Seq<char>, sp: SpanModel, exts: Seq<ExtModel>) -> Seq<char>
    decreases s.len(), 1int, 0int,
{
    match sp {
        SpanModel::Image { text_lo, text_hi, href_lo, href_hi } =>
            "<img src=\""@ + flow_of(s, href_lo, href_hi, exts) + "\" alt=\""@
                + flow_of(s, text_lo, text_hi, exts) + "\"/>"@,
        SpanModel::Link { text_lo, text_hi, href_lo, href_hi } =>
            "<a href=\""@ + flow_of(s, href_lo, href_hi, exts) + "\">"@
                + flow_of(s, text_lo, text_hi, exts) + "</a>"@,
        SpanModel::Fence { note, lo, hi } => if 0 <= lo <= hi <= s.len() {
            fence_html(
                match note {
                    Some((a, b)) => if 0 <= a <= b <= s.len() {
                        Some(s.subrange(a, b))
                    } else {
                        Some(Seq::empty())
                    },
                    None => None,
                },
                s.subrange(lo, hi),
            )
        } else {
            Seq::empty()
        },
        SpanModel::Code { lo, hi } => if 0 <= lo <= hi <= s.len() {
            "<code>"@ + escape_html(s.subrange(lo, hi)) + "</code>"@
        } else {
            Seq::empty()
        },
        SpanModel::Emphasis { tag, lo, hi } => wrap_tag(tag, flow_of(s, lo, hi, exts)),
        SpanModel::Extension { index, lo, hi } =>
            if 0 <= index < exts.len() {
                match exts[index] {
                    ExtModel::Inline { before, after, .. } => before + flow_of(s, lo, hi, exts) + after,
                    _ => Seq::empty(),
                }
            } else {
                Seq::empty()
            },
    }
}

} // verus!
