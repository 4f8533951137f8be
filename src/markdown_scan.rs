//! Recognisers of the markdown grammar: where constructs start and end.
use vstd::prelude::*;
use crate::markdown_spec::{
    ExtModel, SpanModel, find_from, skip_while, closed_content, bracket_pair, fence_at, double_at,
    extension_span_from, span_at, text_end, block_lines, header_at, rule_at, block_extension_from,
};
use crate::text::{matches_at, occurs_at};

verus! {

/// Inputs are short enough that positions a few past the end still fit.
pub open spec fn small_enough(s: Seq<char>) -> bool {
    s.len() + 16 < usize::MAX
}

/// A registered extension, with its strings as characters.
pub enum Ext {
    Inline { left: Vec<char>, right: Vec<char>, before: Vec<char>, after: Vec<char> },
    Block {
        prefix: Vec<char>,
        line_before: Vec<char>,
        line_after: Vec<char>,
        block_before: Vec<char>,
        separator: Vec<char>,
        block_after: Vec<char>,
    },
}

pub open spec fn ext_model(e: Ext) -> ExtModel {
    match e {
        Ext::Inline { left, right, before, after } => ExtModel::Inline {
            left: left@,
            right: right@,
            before: before@,
            after: after@,
        },
        Ext::Block { prefix, line_before, line_after, block_before, separator, block_after } =>
            ExtModel::Block {
            prefix: prefix@,
            line_before: line_before@,
            line_after: line_after@,
            block_before: block_before@,
            separator: separator@,
            block_after: block_after@,
        },
    }
}

pub open spec fn ext_models(exts: Seq<Ext>) -> Seq<ExtModel> {
    Seq::new(exts.len(), |i: int| ext_model(exts[i]))
}

/// An inline construct found at some position.
pub enum Span {
    Image { text_lo: usize, text_hi: usize, href_lo: usize, href_hi: usize },
    Link { text_lo: usize, text_hi: usize, href_lo: usize, href_hi: usize },
    Fence { note: Option<(usize, usize)>, lo: usize, hi: usize },
    Code { lo: usize, hi: usize },
    Emphasis { tag: char, lo: usize, hi: usize },
    Extension { index: usize, lo: usize, hi: usize },
}

pub open spec fn span_model(sp: Span) -> SpanModel {
    match sp {
        Span::Image { text_lo, text_hi, href_lo, href_hi } => SpanModel::Image {
            text_lo: text_lo as int,
            text_hi: text_hi as int,
            href_lo: href_lo as int,
            href_hi: href_hi as int,
        },
        Span::Link { text_lo, text_hi, href_lo, href_hi } => SpanModel::Link {
            text_lo: text_lo as int,
            text_hi: text_hi as int,
            href_lo: href_lo as int,
            href_hi: href_hi as int,
        },
        Span::Fence { note, lo, hi } => SpanModel::Fence {
            note: match note {
                Some((a, b)) => Some((a as int, b as int)),
                None => None,
            },
            lo: lo as int,
            hi: hi as int,
        },
        Span::Code { lo, hi } => SpanModel::Code { lo: lo as int, hi: hi as int },
        Span::Emphasis { tag, lo, hi } => SpanModel::Emphasis { tag: seq![tag], lo: lo as int, hi: hi as int },
        Span::Extension { index, lo, hi } => SpanModel::Extension {
            index: index as int,
            lo: lo as int,
            hi: hi as int,
        },
    }
}

pub open spec fn opt_int(o: Option<usize>) -> Option<int> {
    match o {
        Some(k) => Some(k as int),
        None => None,
    }
}

pub open spec fn found_model(r: Option<(Span, usize)>) -> Option<(SpanModel, int)> {
    match r {
        Some((sp, e)) => Some((span_model(sp), e as int)),
        None => None,
    }
}

pub proof fn lemma_find_bounds(s: Seq<char>, k: int, pat: Seq<char>)
    requires
        0 <= k,
    ensures
        k <= s.len() ==> k <= find_from(s, k, pat) <= s.len(),
        k > s.len() ==> find_from(s, k, pat) == s.len(),
        find_from(s, k, pat) < s.len() ==> occurs_at(s, find_from(s, k, pat), pat),
    decreases s.len() - k,
{
    if k < s.len() && !occurs_at(s, k, pat) {
        lemma_find_bounds(s, k + 1, pat);
    }
}

/// The first position at or after `k` where `pat` occurs, or the length.
pub fn find_from_exec(s: &Vec<char>, k: usize, pat: &Vec<char>) -> (r: usize)
    ensures
        r == find_from(s@, k as int, pat@),
        r <= s.len(),
{
    proof { lemma_find_bounds(s@, k as int, pat@); }
    if k >= s.len() {
        return s.len();
    }
    let mut j = k;
    while j < s.len() && !matches_at(s, j, pat)
        invariant
            k <= j <= s.len(),
            find_from(s@, k as int, pat@) == find_from(s@, j as int, pat@),
        decreases s.len() - j,
    {
        j += 1;
    }
    j
}

/// The first position at or after `k` where `pat` does not occur.
pub fn skip_while_exec(s: &Vec<char>, k: usize, pat: &Vec<char>) -> (r: usize)
    requires
        k <= s.len(),
    ensures
        r == skip_while(s@, k as int, pat@),
        k <= r <= s.len(),
{
    let mut j = k;
    while j < s.len() && matches_at(s, j, pat)
        invariant
            k <= j <= s.len(),
            skip_while(s@, k as int, pat@) == skip_while(s@, j as int, pat@),
        decreases s.len() - j,
    {
        j += 1;
    }
    j
}

/// A sequence of one character, twice or three times.
pub fn repeated_char(c: char, n: usize) -> (r: Vec<char>)
    requires
        1 <= n <= 3,
    ensures
        n == 1 ==> r@ == seq![c],
        n == 2 ==> r@ == seq![c, c],
        n == 3 ==> r@ == seq![c, c, c],
{
    let mut r: Vec<char> = Vec::new();
    r.push(c);
    if n >= 2 {
        r.push(c);
    }
    if n >= 3 {
        r.push(c);
    }
    proof {
        if n == 1 { assert(r@ =~= seq![c]); }
        if n == 2 { assert(r@ =~= seq![c, c]); }
        if n == 3 { assert(r@ =~= seq![c, c, c]); }
    }
    r
}

/// Content from `c` closed by `close`, as `closed_content` says.
pub fn closed_content_exec(s: &Vec<char>, c: usize, close: &Vec<char>, repeat: &Vec<char>) -> (r: Option<usize>)
    requires
        c <= s.len(),
    ensures
        opt_int(r) == closed_content(s@, c as int, close@, repeat@),
        r matches Some(k) ==> c < k <= s.len() && occurs_at(s@, k as int, close@),
{
    let k = find_from_exec(s, c, close);
    let k2 = skip_while_exec(s, k, repeat);
    if k > c && matches_at(s, k2, close) {
        Some(k2)
    } else {
        None
    }
}

/// `[text](href)` at `k`, as `bracket_pair` says.
pub fn bracket_pair_exec(s: &Vec<char>, k: usize) -> (r: Option<(usize, usize)>)
    requires
        small_enough(s@),
        k <= s.len(),
    ensures
        r == match bracket_pair(s@, k as int) {
            Some((a, b)) => Some((a as usize, b as usize)),
            None => None::<(usize, usize)>,
        },
        r matches Some((te, he)) ==> k < te && te + 1 < he < s.len(),
        bracket_pair(s@, k as int) matches Some((a, b)) ==> a == a as usize && b == b as usize,
{
    let close = repeated_char(']', 1);
    let paren = repeated_char(')', 1);
    let te = find_from_exec(s, k + 1, &close);
    let he = find_from_exec(s, te + 2, &paren);
    proof {
        lemma_find_bounds(s@, k + 1, close@);
        lemma_find_bounds(s@, te + 2, paren@);
    }
    if k < s.len() && s[k] == '[' && te < s.len() && te + 1 < s.len() && s[te + 1] == '(' && he < s.len() {
        Some((te, he))
    } else {
        None
    }
}

/// The code fence at `i`, as `fence_at` says.
pub fn fence_at_exec(s: &Vec<char>, i: usize) -> (r: Option<(Span, usize)>)
    requires
        small_enough(s@),
        i < s.len(),
    ensures
        found_model(r) == fence_at(s@, i as int),
        r matches Some((_, e)) ==> i < e <= s.len(),
{
    let ticks = repeated_char('`', 3);
    let nl = repeated_char('\n', 1);
    proof {
        reveal_strlit("```");
        assert("```"@ =~= ticks@);
    }
    let p = i + 3;
    let a = find_from_exec(s, p, &nl);
    let b = find_from_exec(s, p, &ticks);
    let k = if a <= b { a } else { b };
    let has_note = k > p && k < s.len() && s[k] == '\n';
    let c = if has_note { k + 1 } else { p };
    let q = find_from_exec(s, c, &ticks);
    proof {
        lemma_find_bounds(s@, c as int, ticks@);
    }
    if matches_at(s, i, &ticks) && q > c && matches_at(s, q, &ticks) {
        let note = if has_note { Some((p, k)) } else { None };
        Some((Span::Fence { note, lo: c, hi: q }, q + 3))
    } else {
        None
    }
}

/// A doubled delimiter at `i`, as `double_at` says.
pub fn double_at_exec(s: &Vec<char>, i: usize, d: char, tag: char) -> (r: Option<(Span, usize)>)
    requires
        small_enough(s@),
        i < s.len(),
    ensures
        found_model(r) == double_at(s@, i as int, d, seq![tag]),
        r matches Some((_, e)) ==> i < e <= s.len(),
{
    let dd = repeated_char(d, 2);
    let ddd = repeated_char(d, 3);
    if matches_at(s, i, &dd) {
        match closed_content_exec(s, i + 2, &dd, &ddd) {
            Some(hi) => Some((Span::Emphasis { tag, lo: i + 2, hi }, hi + 2)),
            None => None,
        }
    } else {
        None
    }
}

/// The first inline extension enclosing content at `i`, as `extension_span_from` says.
pub fn extension_span_exec(s: &Vec<char>, i: usize, exts: &Vec<Ext>) -> (r: Option<(Span, usize)>)
    requires
        small_enough(s@),
        i < s.len(),
    ensures
        found_model(r) == extension_span_from(s@, i as int, ext_models(exts@), 0),
        r matches Some((_, e)) ==> i < e <= s.len(),
{
    let ghost m = ext_models(exts@);
    let mut j: usize = 0;
    while j < exts.len()
        invariant
            j <= exts.len(),
            m == ext_models(exts@),
            small_enough(s@),
            i < s.len(),
            extension_span_from(s@, i as int, m, 0) == extension_span_from(s@, i as int, m, j as int),
        decreases exts.len() - j,
    {
        match &exts[j] {
            Ext::Inline { left, right, .. } => {
                if matches_at(s, i, left) {
                    let c = i + left.len();
                    let hi = find_from_exec(s, c, right);
                    if hi > c && matches_at(s, hi, right) {
                        return Some((Span::Extension { index: j, lo: c, hi }, hi + right.len()));
                    }
                }
            },
            Ext::Block { .. } => {},
        }
        j += 1;
    }
    None
}

/// The inline construct at `i`, as `span_at` says.
pub fn span_at_exec(s: &Vec<char>, i: usize, exts: &Vec<Ext>) -> (r: Option<(Span, usize)>)
    requires
        small_enough(s@),
    ensures
        found_model(r) == span_at(s@, i as int, ext_models(exts@)),
        r matches Some((_, e)) ==> i < e <= s.len(),
{
    if i >= s.len() {
        return None;
    }
    if s[i] == '!' {
        match bracket_pair_exec(s, i + 1) {
            Some((te, he)) => {
                return Some((Span::Image { text_lo: i + 2, text_hi: te, href_lo: te + 2, href_hi: he }, he + 1));
            },
            None => {},
        }
    }
    match bracket_pair_exec(s, i) {
        Some((te, he)) => {
            return Some((Span::Link { text_lo: i + 1, text_hi: te, href_lo: te + 2, href_hi: he }, he + 1));
        },
        None => {},
    }
    match fence_at_exec(s, i) {
        Some(f) => {
            return Some(f);
        },
        None => {},
    }
    if s[i] == '`' {
        let tick = repeated_char('`', 1);
        let hi = find_from_exec(s, i + 1, &tick);
        if hi > i + 1 && hi < s.len() {
            return Some((Span::Code { lo: i + 1, hi }, hi + 1));
        }
    }
    match double_at_exec(s, i, '*', 'b') {
        Some(f) => {
            return Some(f);
        },
        None => {},
    }
    if s[i] == '*' {
        let star = repeated_char('*', 1);
        let stars = repeated_char('*', 2);
        match closed_content_exec(s, i + 1, &star, &stars) {
            Some(hi) => {
                return Some((Span::Emphasis { tag: 'i', lo: i + 1, hi }, hi + 1));
            },
            None => {},
        }
    }
    match double_at_exec(s, i, '~', 's') {
        Some(f) => {
            return Some(f);
        },
        None => {},
    }
    match double_at_exec(s, i, '_', 'u') {
        Some(f) => {
            return Some(f);
        },
        None => {},
    }
    extension_span_exec(s, i, exts)
}

/// Where literal text continuing at `k` ends, as `text_end` says.
pub fn text_end_exec(s: &Vec<char>, k: usize, exts: &Vec<Ext>) -> (r: usize)
    requires
        small_enough(s@),
        k <= s.len(),
    ensures
        r == text_end(s@, k as int, ext_models(exts@)),
        k <= r <= s.len(),
{
    let mut j = k;
    while j < s.len() && s[j] != '\n' && s[j] != '\\' && span_at_exec(s, j, exts).is_none()
        invariant
            k <= j <= s.len(),
            small_enough(s@),
            text_end(s@, k as int, ext_models(exts@)) == text_end(s@, j as int, ext_models(exts@)),
        decreases s.len() - j,
    {
        j += 1;
    }
    j
}

/// The lines of a block extension from `k` on, as `block_lines` says.
pub fn block_lines_exec(s: &Vec<char>, k: usize, prefix: &Vec<char>) -> (r: Vec<(usize, usize)>)
    requires
        small_enough(s@),
        k <= s.len(),
    ensures
        r@.len() == block_lines(s@, k as int, prefix@).len(),
        forall|n: int| 0 <= n < r@.len() ==> (#[trigger] r@[n]).0 as int == block_lines(s@, k as int, prefix@)[n].0
            && r@[n].1 as int == block_lines(s@, k as int, prefix@)[n].1,
        forall|n: int| 0 <= n < r@.len() ==> k <= (#[trigger] r@[n]).0 <= r@[n].1 <= s.len(),
        forall|n: int| 0 <= n < r@.len() ==> k < (#[trigger] r@[n]).1,
        forall|n: int| 0 <= n < r@.len() ==> (#[trigger] r@[n]).1 - r@[n].0 < s.len(),
{
    let nl = repeated_char('\n', 1);
    let mut out: Vec<(usize, usize)> = Vec::new();
    let mut j = k;
    let ghost whole = block_lines(s@, k as int, prefix@);
    loop
        invariant
            k <= j <= s.len(),
            small_enough(s@),
            nl@ == seq!['\n'],
            whole == block_lines(s@, k as int, prefix@),
            whole == out@.map_values(|p: (usize, usize)| (p.0 as int, p.1 as int)) + block_lines(s@, j as int, prefix@),
            forall|n: int| 0 <= n < out@.len() ==> k <= (#[trigger] out@[n]).0 <= out@[n].1 <= j,
            forall|n: int| 0 <= n < out@.len() ==> k < (#[trigger] out@[n]).1,
            forall|n: int| 0 <= n < out@.len() ==> (#[trigger] out@[n]).1 - out@[n].0 < s.len(),
        ensures
            block_lines(s@, j as int, prefix@) == Seq::<(int, int)>::empty(),
        decreases s.len() - j,
    {
        let ghost before = out@;
        if prefix.len() == 0 || j >= s.len() || !matches_at(s, j, prefix) {
            break;
        }
        let c = j + prefix.len();
        let e = find_from_exec(s, c, &nl);
        proof { lemma_find_bounds(s@, c as int, nl@); }
        if e <= c {
            break;
        }
        out.push((c, e));
        proof {
            assert(out@.map_values(|p: (usize, usize)| (p.0 as int, p.1 as int)) =~= before.map_values(
                |p: (usize, usize)| (p.0 as int, p.1 as int)).push((c as int, e as int)));
        }
        if e < s.len() {
            proof {
                assert(block_lines(s@, j as int, prefix@) == seq![(c as int, e as int)] + block_lines(s@, e + 1, prefix@));
                assert(out@.map_values(|p: (usize, usize)| (p.0 as int, p.1 as int)) + block_lines(s@, e + 1, prefix@)
                    =~= before.map_values(|p: (usize, usize)| (p.0 as int, p.1 as int)) + block_lines(s@, j as int, prefix@));
            }
            j = e + 1;
        } else {
            proof {
                assert(block_lines(s@, j as int, prefix@) == seq![(c as int, e as int)]);
                assert(block_lines(s@, e as int, prefix@) == Seq::<(int, int)>::empty());
                assert(out@.map_values(|p: (usize, usize)| (p.0 as int, p.1 as int)) + block_lines(s@, e as int, prefix@)
                    =~= before.map_values(|p: (usize, usize)| (p.0 as int, p.1 as int)) + block_lines(s@, j as int, prefix@));
            }
            j = e;
        }
    }
    proof {
        assert(whole =~= out@.map_values(|p: (usize, usize)| (p.0 as int, p.1 as int)));
        assert forall|n: int| 0 <= n < out@.len() implies (#[trigger] out@[n]).0 as int == whole[n].0
            && out@[n].1 as int == whole[n].1 by {
            assert(whole[n] == out@.map_values(|p: (usize, usize)| (p.0 as int, p.1 as int))[n]);
        }
    }
    out
}

/// The header at `k`, as `header_at` says.
pub fn header_at_exec(s: &Vec<char>, k: usize) -> (r: Option<(usize, usize, usize)>)
    requires
        small_enough(s@),
        k <= s.len(),
    ensures
        match header_at(s@, k as int) {
            Some((l, a, b)) => r == Some((l as usize, a as usize, b as usize)) && 1 <= l <= 3
                && k < a <= b <= s.len(),
            None => r is None,
        },
{
    let nl = repeated_char('\n', 1);
    let h3 = crate::text::chars_of("### ");
    let h2 = crate::text::chars_of("## ");
    let h1 = crate::text::chars_of("# ");
    let e3 = find_from_exec(s, k + 4, &nl);
    let e2 = find_from_exec(s, k + 3, &nl);
    let e1 = find_from_exec(s, k + 2, &nl);
    proof {
        lemma_find_bounds(s@, k + 4, nl@);
        lemma_find_bounds(s@, k + 3, nl@);
        lemma_find_bounds(s@, k + 2, nl@);
    }
    if matches_at(s, k, &h3) && e3 > k + 4 {
        Some((3, k + 4, e3))
    } else if matches_at(s, k, &h2) && e2 > k + 3 {
        Some((2, k + 3, e2))
    } else if matches_at(s, k, &h1) && e1 > k + 2 {
        Some((1, k + 2, e1))
    } else {
        None
    }
}

/// Whether a thematic break is at `k`, as `rule_at` says.
pub fn rule_at_exec(s: &Vec<char>, k: usize) -> (r: bool)
    requires
        small_enough(s@),
        k <= s.len(),
    ensures
        r == rule_at(s@, k as int),
{
    let dashes = crate::text::chars_of("---");
    matches_at(s, k, &dashes) && (k + 3 == s.len() || (k + 3 < s.len() && s[k + 3] == '\n'))
}

/// The first block extension with a line at `k`, as `block_extension_from` says.
pub fn block_extension_exec(s: &Vec<char>, k: usize, exts: &Vec<Ext>) -> (r: Option<(usize, Vec<(usize, usize)>)>)
    requires
        small_enough(s@),
        k <= s.len(),
    ensures
        match block_extension_from(s@, k as int, ext_models(exts@), 0) {
            Some((x, lines)) => r matches Some((rx, rl)) && rx == x && x < exts.len()
                && exts@[x] is Block && rl@.len() == lines.len() && lines.len() > 0
                && (forall|n: int| 0 <= n < rl@.len() ==> (#[trigger] rl@[n]).0 as int == lines[n].0
                    && rl@[n].1 as int == lines[n].1)
                && (forall|n: int| 0 <= n < rl@.len() ==> k <= (#[trigger] rl@[n]).0 <= rl@[n].1 <= s.len())
                && (forall|n: int| 0 <= n < rl@.len() ==> k < (#[trigger] rl@[n]).1)
                && (forall|n: int| 0 <= n < rl@.len() ==> (#[trigger] rl@[n]).1 - rl@[n].0 < s.len()),
            None => r is None,
        },
{
    let ghost m = ext_models(exts@);
    let mut j: usize = 0;
    while j < exts.len()
        invariant
            j <= exts.len(),
            k <= s.len(),
            small_enough(s@),
            m == ext_models(exts@),
            block_extension_from(s@, k as int, m, 0) == block_extension_from(s@, k as int, m, j as int),
        decreases exts.len() - j,
    {
        match &exts[j] {
            Ext::Block { prefix, .. } => {
                let lines = block_lines_exec(s, k, prefix);
                if lines.len() > 0 {
                    return Some((j, lines));
                }
            },
            Ext::Inline { .. } => {},
        }
        j += 1;
    }
    None
}

} // verus!
