//! The markdown compiler: front matter, then the body through the grammar.
use vstd::prelude::*;
use crate::markdown_scan::{
    Ext, Span, ext_model, ext_models, span_model, small_enough, span_at_exec, text_end_exec,
    header_at_exec, rule_at_exec, block_extension_exec, skip_while_exec, find_from_exec,
    repeated_char,
};
use crate::markdown_spec::{
    ExtModel, SpanModel, render, doc_from, flow_from, flow_of, block_at, block_lines_html,
    inline_at, span_html, fence_html, last_dot, header_tag, wrap_tag, block_extension_from,
};
use crate::front_matter::{FrontMatterError, front_matter, front_matter_exec};
use crate::value::{Properties, Val};
use crate::text::{append_chars, append_str, chars_of, encode_safe, escape_html, slice_of, string_of};

verus! {

/// A text transform that puts `before` in front of its argument and `after` behind it.
pub struct Wrapper {
    pub before: String,
    pub after: String,
}

impl Wrapper {
    pub fn new(before: &str, after: &str) -> (r: Wrapper)
        ensures
            r.before@ == before@,
            r.after@ == after@,
    {
        Wrapper { before: before.to_owned(), after: after.to_owned() }
    }
}

/// A transform of lines: `before`, the lines with `separator` between each
/// two, then `after`.
pub struct Joiner {
    pub before: String,
    pub separator: String,
    pub after: String,
}

impl Joiner {
    pub fn new(before: &str, separator: &str, after: &str) -> (r: Joiner)
        ensures
            r.before@ == before@,
            r.separator@ == separator@,
            r.after@ == after@,
    {
        Joiner { before: before.to_owned(), separator: separator.to_owned(), after: after.to_owned() }
    }
}

/// A grammar rule that a caller registers with the compiler.
pub enum MarkdownExtension {
    /// Content between a left and a right delimiter, transformed by the wrapper.
    Inline(String, String, Wrapper),
    /// A run of lines that start with a prefix: each line's content goes
    /// through the line wrapper, and the lines through the block wrapper.
    Block(String, Wrapper, Joiner),
}

impl MarkdownExtension {
    pub open spec fn model(&self) -> ExtModel {
        match self {
            MarkdownExtension::Inline(l, r, w) => ExtModel::Inline {
                left: l@,
                right: r@,
                before: w.before@,
                after: w.after@,
            },
            MarkdownExtension::Block(p, lw, bw) => ExtModel::Block {
                prefix: p@,
                line_before: lw.before@,
                line_after: lw.after@,
                block_before: bw.before@,
                separator: bw.separator@,
                block_after: bw.after@,
            },
        }
    }

    /// An inline rule: `left_delimiter` content `right_delimiter`.
    pub fn inline(left_delimiter: &str, right_delimiter: &str, wrapper: Wrapper) -> (r: MarkdownExtension)
        ensures
            r.model() == (ExtModel::Inline {
                left: left_delimiter@,
                right: right_delimiter@,
                before: wrapper.before@,
                after: wrapper.after@,
            }),
    {
        MarkdownExtension::Inline(left_delimiter.to_owned(), right_delimiter.to_owned(), wrapper)
    }

    /// A block rule over the lines that start with `line_start`.
    pub fn block(line_start: &str, line_wrapper: Wrapper, block_wrapper: Joiner) -> (r: MarkdownExtension)
        ensures
            r.model() == (ExtModel::Block {
                prefix: line_start@,
                line_before: line_wrapper.before@,
                line_after: line_wrapper.after@,
                block_before: block_wrapper.before@,
                separator: block_wrapper.separator@,
                block_after: block_wrapper.after@,
            }),
    {
        MarkdownExtension::Block(line_start.to_owned(), line_wrapper, block_wrapper)
    }

    /// A copy of the rule.
    pub fn duplicate(&self) -> (r: MarkdownExtension)
        ensures
            r.model() == self.model(),
    {
        match self {
            MarkdownExtension::Inline(l, r, w) => MarkdownExtension::Inline(
                l.clone(),
                r.clone(),
                Wrapper { before: w.before.clone(), after: w.after.clone() },
            ),
            MarkdownExtension::Block(p, lw, bw) => MarkdownExtension::Block(
                p.clone(),
                Wrapper { before: lw.before.clone(), after: lw.after.clone() },
                Joiner { before: bw.before.clone(), separator: bw.separator.clone(), after: bw.after.clone() },
            ),
        }
    }

    fn characters(&self) -> (r: Ext)
        ensures
            ext_model(r) == self.model(),
    {
        match self {
            MarkdownExtension::Inline(l, r, w) => Ext::Inline {
                left: chars_of(l.as_str()),
                right: chars_of(r.as_str()),
                before: chars_of(w.before.as_str()),
                after: chars_of(w.after.as_str()),
            },
            MarkdownExtension::Block(p, lw, bw) => Ext::Block {
                prefix: chars_of(p.as_str()),
                line_before: chars_of(lw.before.as_str()),
                line_after: chars_of(lw.after.as_str()),
                block_before: chars_of(bw.before.as_str()),
                separator: chars_of(bw.separator.as_str()),
                block_after: chars_of(bw.after.as_str()),
            },
        }
    }
}

/// Lines that start with `-# `, each rendered as a line break and small print.
pub fn small() -> (r: MarkdownExtension)
    ensures
        r.model() == (ExtModel::Block {
            prefix: "-# "@,
            line_before: "<br/><small>"@,
            line_after: "</small>"@,
            block_before: ""@,
            separator: ""@,
            block_after: ""@,
        }),
{
    MarkdownExtension::block("-# ", Wrapper::new("<br/><small>", "</small>"), Joiner::new("", "", ""))
}

/// Lines that start with `> `, joined with line breaks into a block quote.
pub fn quote() -> (r: MarkdownExtension)
    ensures
        r.model() == (ExtModel::Block {
            prefix: "> "@,
            line_before: ""@,
            line_after: ""@,
            block_before: "<blockquote>"@,
            separator: "<br/>"@,
            block_after: "</blockquote>"@,
        }),
{
    MarkdownExtension::block("> ", Wrapper::new("", ""), Joiner::new("<blockquote>", "<br/>", "</blockquote>"))
}

/// The HTML of the inline elements of all of `s`.
fn flow_exec(s: &Vec<char>, exts: &Vec<Ext>) -> (r: Vec<char>)
    requires
        small_enough(s@),
    ensures
        r@ == flow_from(s@, 0, ext_models(exts@)),
    decreases s@.len(), 3int, 0int,
{
    let ghost m = ext_models(exts@);
    let mut out: Vec<char> = Vec::new();
    let mut i: usize = 0;
    while i < s.len()
        invariant
            i <= s.len(),
            small_enough(s@),
            m == ext_models(exts@),
            out@ + flow_from(s@, i as int, m) == flow_from(s@, 0, m),
        decreases s.len() - i,
    {
        let (o, e) = inline_at_exec(s, i, exts);
        proof {
            assert(flow_from(s@, i as int, m) == o@ + flow_from(s@, e as int, m));
            assert(out@ + o@ + flow_from(s@, e as int, m) =~= out@ + (o@ + flow_from(s@, e as int, m)));
        }
        append_chars(&mut out, &o);
        i = e;
    }
    assert(flow_from(s@, i as int, m) =~= Seq::<char>::empty());
    assert(out@ + Seq::<char>::empty() =~= out@);
    out
}

/// The inline HTML of the characters from `lo` up to `hi`.
fn flow_of_exec(s: &Vec<char>, lo: usize, hi: usize, exts: &Vec<Ext>) -> (r: Vec<char>)
    requires
        small_enough(s@),
        lo <= hi <= s.len(),
        hi - lo < s.len(),
    ensures
        r@ == flow_of(s@, lo as int, hi as int, ext_models(exts@)),
    decreases s@.len(), 0int, 0int,
{
    let sub = slice_of(s, lo, hi);
    flow_exec(&sub, exts)
}

/// The inline element at `i` and where it ends.
fn inline_at_exec(s: &Vec<char>, i: usize, exts: &Vec<Ext>) -> (r: (Vec<char>, usize))
    requires
        small_enough(s@),
        i < s.len(),
    ensures
        r.0@ == inline_at(s@, i as int, ext_models(exts@)).0,
        r.1 as int == inline_at(s@, i as int, ext_models(exts@)).1,
        i < r.1 <= s.len(),
    decreases s@.len(), 2int, 0int,
{
    let mut out: Vec<char> = Vec::new();
    if s[i] == '\\' && i + 1 < s.len() {
        out.push(s[i + 1]);
        assert(out@ =~= seq![s@[i + 1]]);
        return (out, i + 2);
    }
    if s[i] == '\n' {
        return (out, i + 1);
    }
    match span_at_exec(s, i, exts) {
        Some((sp, e)) => {
            let h = span_html_exec(s, &sp, exts);
            (h, e)
        },
        None => {
            let e = text_end_exec(s, i + 1, exts);
            (slice_of(s, i, e), e)
        },
    }
}

/// Escaped HTML of the characters of `v`.
fn escape_chars(v: &Vec<char>) -> (r: Vec<char>)
    ensures
        r@ == escape_html(v@),
{
    let text = string_of(v);
    let escaped = encode_safe(text.as_str());
    chars_of(escaped.as_str())
}

/// The position of the last `.` in `a`, or none.
fn last_dot_exec(a: &Vec<char>) -> (r: Option<usize>)
    ensures
        match r {
            Some(k) => last_dot(a@, a@.len() as int) == k && k < a.len(),
            None => last_dot(a@, a@.len() as int) < 0,
        },
{
    let mut k = a.len();
    while k > 0
        invariant
            k <= a.len(),
            last_dot(a@, a@.len() as int) == last_dot(a@, k as int),
        decreases k,
    {
        if a[k - 1] == '.' {
            return Some(k - 1);
        }
        k -= 1;
    }
    None
}

/// The HTML of a code fence.
fn fence_html_exec(note: Option<Vec<char>>, code: &Vec<char>) -> (r: Vec<char>)
    ensures
        r@ == fence_html(
            match note {
                Some(a) => Some(a@),
                None => None,
            },
            code@,
        ),
{
    let esc = escape_chars(code);
    let mut out: Vec<char> = Vec::new();
    match note {
        None => {
            append_str(&mut out, "<pre><code>");
            append_chars(&mut out, &esc);
            append_str(&mut out, "</code></pre>");
        },
        Some(a) => {
            match last_dot_exec(&a) {
                None => {
                    append_str(&mut out, "<pre><code class=\"language-");
                    append_chars(&mut out, &a);
                    append_str(&mut out, "\">");
                    append_chars(&mut out, &esc);
                    append_str(&mut out, "</code></pre>");
                },
                Some(d) => {
                    let lang = slice_of(&a, d + 1, a.len());
                    append_str(&mut out, "<pre><small>");
                    append_chars(&mut out, &a);
                    append_str(&mut out, "</small><code class=\"language-");
                    append_chars(&mut out, &lang);
                    append_str(&mut out, "\">");
                    append_chars(&mut out, &esc);
                    append_str(&mut out, "</code></pre>");
                },
            }
        },
    }
    out
}

/// The inline HTML of the characters from `lo` up to `hi`, or nothing when
/// that is no proper part of `s`.
fn part_flow(s: &Vec<char>, lo: usize, hi: usize, exts: &Vec<Ext>) -> (r: Vec<char>)
    requires
        small_enough(s@),
    ensures
        r@ == flow_of(s@, lo as int, hi as int, ext_models(exts@)),
    decreases s@.len(), 0int, 1int,
{
    if lo <= hi && hi <= s.len() && hi - lo < s.len() {
        flow_of_exec(s, lo, hi, exts)
    } else {
        Vec::new()
    }
}

/// The HTML of a recognised inline construct.
fn span_html_exec(s: &Vec<char>, sp: &Span, exts: &Vec<Ext>) -> (r: Vec<char>)
    requires
        small_enough(s@),
    ensures
        r@ == span_html(s@, span_model(*sp), ext_models(exts@)),
    decreases s@.len(), 1int, 0int,
{
    let ghost m = ext_models(exts@);
    let mut out: Vec<char> = Vec::new();
    match sp {
        Span::Image { text_lo, text_hi, href_lo, href_hi } => {
            let href = part_flow(s, *href_lo, *href_hi, exts);
            let text = part_flow(s, *text_lo, *text_hi, exts);
            append_str(&mut out, "<img src=\"");
            append_chars(&mut out, &href);
            append_str(&mut out, "\" alt=\"");
            append_chars(&mut out, &text);
            append_str(&mut out, "\"/>");
        },
        Span::Link { text_lo, text_hi, href_lo, href_hi } => {
            let href = part_flow(s, *href_lo, *href_hi, exts);
            let text = part_flow(s, *text_lo, *text_hi, exts);
            append_str(&mut out, "<a href=\"");
            append_chars(&mut out, &href);
            append_str(&mut out, "\">");
            append_chars(&mut out, &text);
            append_str(&mut out, "</a>");
        },
        Span::Fence { note, lo, hi } => {
            if *lo <= *hi && *hi <= s.len() {
                let code = slice_of(s, *lo, *hi);
                let n = match note {
                    Some((a, b)) => if *a <= *b && *b <= s.len() {
                        Some(slice_of(s, *a, *b))
                    } else {
                        Some(Vec::new())
                    },
                    None => None,
                };
                proof {
                    let nm = match &n {
                        Some(a) => Some(a@),
                        None => None::<Seq<char>>,
                    };
                    let want = match span_model(*sp) {
                        SpanModel::Fence { note: Some((a, b)), .. } => if 0 <= a <= b <= s@.len() {
                            Some(s@.subrange(a, b))
                        } else {
                            Some(Seq::<char>::empty())
                        },
                        _ => None,
                    };
                    assert(nm == want);
                }
                out = fence_html_exec(n, &code);
            }
        },
        Span::Code { lo, hi } => {
            if *lo <= *hi && *hi <= s.len() {
                let code = slice_of(s, *lo, *hi);
                let esc = escape_chars(&code);
                append_str(&mut out, "<code>");
                append_chars(&mut out, &esc);
                append_str(&mut out, "</code>");
            }
        },
        Span::Emphasis { tag, lo, hi } => {
            let inner = part_flow(s, *lo, *hi, exts);
            let mut t: Vec<char> = Vec::new();
            t.push(*tag);
            append_str(&mut out, "<");
            append_chars(&mut out, &t);
            append_str(&mut out, ">");
            append_chars(&mut out, &inner);
            append_str(&mut out, "</");
            append_chars(&mut out, &t);
            append_str(&mut out, ">");
            proof {
                assert(t@ =~= seq![*tag]);
            }
        },
        Span::Extension { index, lo, hi } => {
            if *index < exts.len() {
                match &exts[*index] {
                    Ext::Inline { before, after, .. } => {
                        let inner = part_flow(s, *lo, *hi, exts);
                        append_chars(&mut out, before);
                        append_chars(&mut out, &inner);
                        append_chars(&mut out, after);
                    },
                    Ext::Block { .. } => {},
                }
            }
        },
    }
    out
}

/// The rendered lines of a block extension, joined with its separator.
#[verifier::rlimit(100)]
fn block_lines_html_exec(
    s: &Vec<char>,
    lines: &Vec<(usize, usize)>,
    Ghost(spec_lines): Ghost<Seq<(int, int)>>,
    x: usize,
    exts: &Vec<Ext>,
) -> (r: Vec<char>)
    requires
        small_enough(s@),
        x < exts.len(),
        exts@[x as int] is Block,
        lines@.len() == spec_lines.len(),
        forall|n: int| 0 <= n < lines@.len() ==> (#[trigger] lines@[n]).0 as int == spec_lines[n].0
            && lines@[n].1 as int == spec_lines[n].1,
    ensures
        r@ == block_lines_html(s@, spec_lines, 0, ext_models(exts@), x as int, exts@[x as int]->separator@),
    decreases s@.len(), 4int, 0int,
{
    let ghost m = ext_models(exts@);
    let ghost sep = exts@[x as int]->separator@;
    let mut out: Vec<char> = Vec::new();
    let mut n: usize = 0;
    match &exts[x] {
        Ext::Block { line_before, line_after, separator, .. } => {
            while n < lines.len()
                invariant
                    n <= lines.len(),
                    small_enough(s@),
                    x < exts.len(),
                    m == ext_models(exts@),
                    exts@[x as int] == (Ext::Block {
                        prefix: exts@[x as int]->prefix,
                        line_before: *line_before,
                        line_after: *line_after,
                        block_before: exts@[x as int]->block_before,
                        separator: *separator,
                        block_after: exts@[x as int]->block_after,
                    }),
                    sep == separator@,
                    lines@.len() == spec_lines.len(),
                    forall|k: int| 0 <= k < lines@.len() ==> (#[trigger] lines@[k]).0 as int == spec_lines[k].0
                        && lines@[k].1 as int == spec_lines[k].1,
                    out@ + block_lines_html(s@, spec_lines, n as int, m, x as int, sep)
                        == block_lines_html(s@, spec_lines, 0, m, x as int, sep),
                decreases lines.len() - n,
            {
                let (lo, hi) = lines[n];
                let inner = part_flow(s, lo, hi, exts);
                let ghost before = out@;
                append_chars(&mut out, line_before);
                append_chars(&mut out, &inner);
                append_chars(&mut out, line_after);
                if n + 1 < lines.len() {
                    append_chars(&mut out, separator);
                }
                proof {
                    assert(m[x as int] == ext_model(exts@[x as int]));
                    let line = line_before@ + flow_of(s@, lo as int, hi as int, m) + line_after@;
                    if n + 1 < lines.len() {
                        assert(block_lines_html(s@, spec_lines, n as int, m, x as int, sep)
                            == line + sep + block_lines_html(s@, spec_lines, n + 1, m, x as int, sep));
                        assert(out@ + block_lines_html(s@, spec_lines, n + 1, m, x as int, sep)
                            =~= before + block_lines_html(s@, spec_lines, n as int, m, x as int, sep));
                    } else {
                        assert(block_lines_html(s@, spec_lines, n as int, m, x as int, sep) == line);
                        assert(out@ + block_lines_html(s@, spec_lines, n + 1, m, x as int, sep)
                            =~= before + block_lines_html(s@, spec_lines, n as int, m, x as int, sep));
                    }
                }
                n += 1;
            }
        },
        Ext::Inline { .. } => {},
    }
    assert(out@ + Seq::<char>::empty() =~= out@);
    out
}

/// The HTML of a header of `level` whose text runs from `lo` up to `hi`.
fn header_html(s: &Vec<char>, level: usize, lo: usize, hi: usize, exts: &Vec<Ext>) -> (r: Vec<char>)
    requires
        small_enough(s@),
    ensures
        r@ == wrap_tag(header_tag(level as int), flow_of(s@, lo as int, hi as int, ext_models(exts@))),
    decreases s@.len(), 5int, 1int,
{
    let inner = part_flow(s, lo, hi, exts);
    let mut out: Vec<char> = Vec::new();
    let tag = if level == 3 {
        chars_of("h3")
    } else if level == 2 {
        chars_of("h2")
    } else {
        chars_of("h1")
    };
    append_str(&mut out, "<");
    append_chars(&mut out, &tag);
    append_str(&mut out, ">");
    append_chars(&mut out, &inner);
    append_str(&mut out, "</");
    append_chars(&mut out, &tag);
    append_str(&mut out, ">");
    out
}

/// The HTML of the block extension `x` over `lines`.
fn extension_block_html(
    s: &Vec<char>,
    lines: &Vec<(usize, usize)>,
    Ghost(spec_lines): Ghost<Seq<(int, int)>>,
    x: usize,
    exts: &Vec<Ext>,
) -> (r: Vec<char>)
    requires
        small_enough(s@),
        x < exts.len(),
        exts@[x as int] is Block,
        lines@.len() == spec_lines.len(),
        forall|n: int| 0 <= n < lines@.len() ==> (#[trigger] lines@[n]).0 as int == spec_lines[n].0
            && lines@[n].1 as int == spec_lines[n].1,
    ensures
        match ext_models(exts@)[x as int] {
            ExtModel::Block { block_before, separator, block_after, .. } => r@ == block_before
                + block_lines_html(s@, spec_lines, 0, ext_models(exts@), x as int, separator) + block_after,
            _ => false,
        },
    decreases s@.len(), 5int, 1int,
{
    let body = block_lines_html_exec(s, lines, Ghost(spec_lines), x, exts);
    let mut out: Vec<char> = Vec::new();
    match &exts[x] {
        Ext::Block { block_before, block_after, .. } => {
            append_chars(&mut out, block_before);
            append_chars(&mut out, &body);
            append_chars(&mut out, block_after);
        },
        Ext::Inline { .. } => {},
    }
    proof {
        assert(ext_models(exts@)[x as int] == ext_model(exts@[x as int]));
    }
    out
}

/// The paragraph whose text runs from `j` up to `end`.
fn paragraph_html(s: &Vec<char>, j: usize, end: usize, exts: &Vec<Ext>) -> (r: Vec<char>)
    requires
        small_enough(s@),
        j < end <= s.len(),
        end - j < s.len(),
    ensures
        r@ == wrap_tag("p"@, doc_from(s@.subrange(j as int, end as int), 0, ext_models(exts@))),
    decreases s@.len(), 5int, 1int,
{
    let sub = slice_of(s, j, end);
    let inner = doc_exec(&sub, exts);
    let mut out: Vec<char> = Vec::new();
    append_str(&mut out, "<");
    append_str(&mut out, "p");
    append_str(&mut out, ">");
    append_chars(&mut out, &inner);
    append_str(&mut out, "</");
    append_str(&mut out, "p");
    append_str(&mut out, ">");
    out
}

/// The block element at `i`, if one starts there, and where it ends.
#[verifier::rlimit(60)]
fn block_at_exec(s: &Vec<char>, i: usize, exts: &Vec<Ext>) -> (r: Option<(Vec<char>, usize)>)
    requires
        small_enough(s@),
        i < s.len(),
    ensures
        match block_at(s@, i as int, ext_models(exts@)) {
            Some((o, e)) => r matches Some((ro, re)) && ro@ == o && re == e && i < re <= s.len(),
            None => r is None,
        },
    decreases s@.len(), 5int, 2int,
{
    let ghost m = ext_models(exts@);
    let nl = repeated_char('\n', 1);
    let j = skip_while_exec(s, i, &nl);
    let run = j - i;
    match header_at_exec(s, j) {
        Some((level, lo, hi)) => {
            return Some((header_html(s, level, lo, hi, exts), hi));
        },
        None => {},
    }
    if rule_at_exec(s, j) {
        return Some((chars_of("<hr/>"), j + 3));
    }
    if run >= 3 && j < s.len() {
        let nl3 = repeated_char('\n', 3);
        proof {
            reveal_strlit("\n\n\n");
            assert("\n\n\n"@ =~= nl3@);
        }
        let end = find_from_exec(s, j, &nl3);
        if j < end && end - j < s.len() {
            return Some((paragraph_html(s, j, end, exts), end));
        } else {
            return None;
        }
    }
    if run >= 2 {
        return Some((chars_of("<br/>"), i + 2));
    }
    match block_extension_exec(s, j, exts) {
        Some((x, lines)) => {
            let ghost spec_lines = block_extension_from(s@, j as int, m, 0)->Some_0.1;
            let out = extension_block_html(s, &lines, Ghost(spec_lines), x, exts);
            let last = lines[lines.len() - 1].1;
            proof {
                assert(spec_lines.last().1 == last as int);
            }
            Some((out, last))
        },
        None => None,
    }
}

/// The HTML of a whole body.
fn doc_exec(s: &Vec<char>, exts: &Vec<Ext>) -> (r: Vec<char>)
    requires
        small_enough(s@),
    ensures
        r@ == doc_from(s@, 0, ext_models(exts@)),
    decreases s@.len(), 6int, 0int,
{
    let ghost m = ext_models(exts@);
    let mut out: Vec<char> = Vec::new();
    let mut i: usize = 0;
    while i < s.len()
        invariant
            i <= s.len(),
            small_enough(s@),
            m == ext_models(exts@),
            out@ + doc_from(s@, i as int, m) == doc_from(s@, 0, m),
        decreases s.len() - i,
    {
        let (o, e) = match block_at_exec(s, i, exts) {
            Some(b) => b,
            None => inline_at_exec(s, i, exts),
        };
        proof {
            assert(doc_from(s@, i as int, m) == o@ + doc_from(s@, e as int, m));
            assert(out@ + o@ + doc_from(s@, e as int, m) =~= out@ + (o@ + doc_from(s@, e as int, m)));
        }
        append_chars(&mut out, &o);
        i = e;
    }
    assert(out@ + Seq::<char>::empty() =~= out@);
    out
}

/// The markdown compiler, with the extensions registered with it.
pub struct MarkdownParser {
    extensions: Vec<MarkdownExtension>,
}

impl MarkdownParser {
    /// The registered extensions, in order of registration.
    pub closed spec fn models(&self) -> Seq<ExtModel> {
        Seq::new(self.extensions@.len(), |i: int| self.extensions@[i].model())
    }

    /// A compiler with no extensions.
    pub fn default() -> (r: MarkdownParser)
        ensures
            r.models() == Seq::<ExtModel>::empty(),
    {
        let r = MarkdownParser { extensions: Vec::new() };
        assert(r.models() =~= Seq::<ExtModel>::empty());
        r
    }

    /// This compiler with one more extension, tried after all earlier ones.
    pub fn extend(&self, extension: MarkdownExtension) -> (r: MarkdownParser)
        ensures
            r.models() == self.models().push(extension.model()),
    {
        let mut extensions: Vec<MarkdownExtension> = Vec::new();
        let mut i: usize = 0;
        while i < self.extensions.len()
            invariant
                i <= self.extensions.len(),
                extensions@.len() == i,
                forall|k: int| 0 <= k < i ==> (#[trigger] extensions@[k]).model() == self.extensions@[k].model(),
            decreases self.extensions.len() - i,
        {
            extensions.push(self.extensions[i].duplicate());
            i += 1;
        }
        let ghost em = extension.model();
        extensions.push(extension);
        let r = MarkdownParser { extensions };
        assert(r.models() =~= self.models().push(em));
        r
    }

    fn characters(&self) -> (r: Vec<Ext>)
        ensures
            ext_models(r@) == self.models(),
    {
        let mut out: Vec<Ext> = Vec::new();
        let mut i: usize = 0;
        while i < self.extensions.len()
            invariant
                i <= self.extensions.len(),
                out@.len() == i,
                forall|k: int| 0 <= k < i ==> ext_model(#[trigger] out@[k]) == self.extensions@[k].model(),
            decreases self.extensions.len() - i,
        {
            out.push(self.extensions[i].characters());
            i += 1;
        }
        assert(ext_models(out@) =~= self.models());
        out
    }

    /// The HTML of a markdown body.
    pub fn render(&self, body: &str) -> (r: String)
        requires
            small_enough(body@),
        ensures
            r@ == render(body@, self.models()),
    {
        let s = chars_of(body);
        let exts = self.characters();
        let out = doc_exec(&s, &exts);
        string_of(&out)
    }
}

/// Whether `c` is white space in Unicode's sense (as `char::is_whitespace`).
pub open spec fn is_white(c: char) -> bool {
    ('\u{9}' <= c && c <= '\u{d}') || c == ' ' || c == '\u{85}' || c == '\u{a0}' || c == '\u{1680}'
        || ('\u{2000}' <= c && c <= '\u{200a}') || c == '\u{2028}' || c == '\u{2029}' || c == '\u{202f}'
        || c == '\u{205f}' || c == '\u{3000}'
}

/// The first position at or after `k` that is no white space.
pub open spec fn skip_white(s: Seq<char>, k: int) -> int
    decreases s.len() - k,
{
    if k < 0 || k >= s.len() || !is_white(s[k]) {
        k
    } else {
        skip_white(s, k + 1)
    }
}

/// The text handed to the grammar for a body starting at `b`: white space at
/// its start dropped, and three newlines before it, so that it opens a paragraph.
pub open spec fn body_text(s: Seq<char>, b: int) -> Seq<char> {
    "\n\n\n"@ + s.subrange(skip_white(s, b), s.len() as int)
}

/// What compiling `s` gives: the HTML of its body and its front matter.
pub open spec fn compiled(s: Seq<char>, exts: Seq<ExtModel>) -> Result<(Seq<char>, Map<Seq<char>, Val>), FrontMatterError> {
    match front_matter(s) {
        Ok((m, b)) => Ok((render(body_text(s, b), exts), m)),
        Err(e) => Err(e),
    }
}

/// Compilation depends on nothing but the text and the extensions: the same
/// text compiled with the same extensions gives the same HTML and metadata.
pub proof fn lemma_compile_deterministic(a: Seq<char>, b: Seq<char>, ea: Seq<ExtModel>, eb: Seq<ExtModel>)
    requires
        a == b,
        ea == eb,
    ensures
        compiled(a, ea) == compiled(b, eb),
{
}

fn white(c: char) -> (r: bool)
    ensures
        r == is_white(c),
{
    ('\u{9}' <= c && c <= '\u{d}') || c == ' ' || c == '\u{85}' || c == '\u{a0}' || c == '\u{1680}'
        || ('\u{2000}' <= c && c <= '\u{200a}') || c == '\u{2028}' || c == '\u{2029}' || c == '\u{202f}'
        || c == '\u{205f}' || c == '\u{3000}'
}

/// A compiled document: its HTML and the metadata of its front matter.
pub struct Compiled {
    pub html: String,
    pub metadata: Properties,
}

impl MarkdownParser {
    /// Compiles a document: reads its front matter, then renders its body.
    pub fn compile(&self, text: &str) -> (r: Result<Compiled, FrontMatterError>)
        requires
            text@.len() + 32 < usize::MAX,
        ensures
            match compiled(text@, self.models()) {
                Ok((h, m)) => r matches Ok(c) && c.html@ == h && c.metadata.model() == m,
                Err(e) => r == Err::<Compiled, FrontMatterError>(e),
            },
    {
        let s = chars_of(text);
        match front_matter_exec(&s) {
            Err(e) => Err(e),
            Ok((metadata, b)) => {
                let mut k = b;
                while k < s.len() && white(s[k])
                    invariant
                        b <= k <= s.len(),
                        skip_white(s@, b as int) == skip_white(s@, k as int),
                    decreases s.len() - k,
                {
                    k += 1;
                }
                let mut body: Vec<char> = Vec::new();
                append_str(&mut body, "\n\n\n");
                let rest = slice_of(&s, k, s.len());
                append_chars(&mut body, &rest);
                proof {
                    reveal_strlit("\n\n\n");
                }
                let exts = self.characters();
                let out = doc_exec(&body, &exts);
                Ok(Compiled { html: string_of(&out), metadata })
            },
        }
    }
}

} // verus!
