//! The template interpreter.
use vstd::prelude::*;
use crate::cache::StringTable;
use crate::markdown_scan::find_from_exec;
use crate::markdown_spec::find_from;
use crate::template_spec::{
    TemplateError, ErrorModel, Stop, Step, error_model, is_ident_char, is_ident_start, ident_end,
    keyed_open, include_open, access_at, for_end, interpret, loop_from, run_from, element_at, reading,
    loop_items,
};
use crate::text::{append_chars, chars_of, matches_at, occurs_at, slice_of, string_of};
use crate::value::{Properties, Val, Value, values_model, lemma_values_model_len};

verus! {

/// How deeply includes may nest before interpretation gives up.
pub const INCLUDE_DEPTH: usize = 32;

/// The files that `$include("path")$` may name: their contents by path.
pub type IncludeFiles = StringTable;

/// The outcome of one element.
enum StepOut {
    Emit(Vec<char>, usize),
    Close(Stop),
}

spec fn step_model(s: StepOut) -> Step {
    match s {
        StepOut::Emit(o, n) => Step::Emit(o@, n as int),
        StepOut::Close(k) => Step::Close(k),
    }
}

fn ident_end_exec(t: &Vec<char>, k: usize) -> (r: usize)
    requires
        k <= t.len(),
    ensures
        r == ident_end(t@, k as int),
        k <= r <= t.len(),
{
    let mut j = k;
    while j < t.len() && ident_char(t[j])
        invariant
            k <= j <= t.len(),
            ident_end(t@, k as int) == ident_end(t@, j as int),
        decreases t.len() - j,
    {
        j += 1;
    }
    j
}

fn ident_start(c: char) -> (r: bool)
    ensures
        r == is_ident_start(c),
{
    ('a' <= c && c <= 'z') || ('A' <= c && c <= 'Z') || c == '_'
}

fn ident_char(c: char) -> (r: bool)
    ensures
        r == is_ident_char(c),
{
    ident_start(c) || ('0' <= c && c <= '9')
}

fn keyed_open_exec(t: &Vec<char>, i: usize, open: &Vec<char>) -> (r: Option<(usize, usize)>)
    requires
        i < t.len(),
        t.len() + 16 < usize::MAX,
        open.len() < 8,
    ensures
        match keyed_open(t@, i as int, open@) {
            Some((a, b)) => r == Some((a as usize, b as usize)) && i + open.len() < a && a + 2 == b
                && b <= t.len(),
            None => r is None,
        },
{
    if !matches_at(t, i, open) {
        return None;
    }
    let ks = i + open.len();
    let ke = ident_end_exec(t, ks);
    let close = chars_of(")$");
    if ke > ks && ident_start(t[ks]) && matches_at(t, ke, &close) {
        proof { reveal_strlit(")$"); }
        Some((ke, ke + 2))
    } else {
        None
    }
}

fn include_open_exec(t: &Vec<char>, i: usize) -> (r: Option<(usize, usize)>)
    requires
        i < t.len(),
        t.len() + 16 < usize::MAX,
    ensures
        match include_open(t@, i as int) {
            Some((a, b)) => r == Some((a as usize, b as usize)) && i + "$include(\""@.len() <= a
                && a + 3 == b && b <= t.len(),
            None => r is None,
        },
{
    let open = chars_of("$include(\"");
    if !matches_at(t, i, &open) {
        return None;
    }
    let close = chars_of("\")$");
    let pe = find_from_exec(t, i + open.len(), &close);
    proof {
        reveal_strlit("\")$");
        crate::markdown_scan::lemma_find_bounds(t@, i + open.len(), close@);
    }
    if pe < t.len() {
        Some((pe, pe + 3))
    } else {
        None
    }
}

fn access_at_exec(t: &Vec<char>, i: usize) -> (r: Option<usize>)
    requires
        i < t.len(),
    ensures
        match access_at(t@, i as int) {
            Some(a) => r == Some(a as usize) && i + 1 < a < t.len(),
            None => r is None,
        },
{
    if t[i] != '$' || i + 1 >= t.len() {
        return None;
    }
    let ke = ident_end_exec(t, i + 1);
    if ke > i + 1 && ident_start(t[i + 1]) && ke < t.len() && t[ke] == '$' {
        Some(ke)
    } else {
        None
    }
}

fn for_end_exec(t: &Vec<char>, k: usize) -> (r: Option<usize>)
    requires
        k <= t.len(),
        t.len() + 16 < usize::MAX,
    ensures
        match for_end(t@, k as int, 0) {
            Some(a) => r == Some(a as usize) && k <= a && a + "$endfor$"@.len() <= t.len(),
            None => r is None,
        },
{
    let endfor = chars_of("$endfor$");
    let open = chars_of("$for(");
    proof { reveal_strlit("$for("); }
    let mut j = k;
    let mut depth: usize = 0;
    while j < t.len()
        invariant
            k <= j <= t.len(),
            t.len() + 16 < usize::MAX,
            depth <= j,
            endfor@ == "$endfor$"@,
            open@ == "$for("@,
            open.len() == 5,
            for_end(t@, k as int, 0) == for_end(t@, j as int, depth as nat),
        decreases t.len() - j,
    {
        if matches_at(t, j, &endfor) {
            if depth == 0 {
                return Some(j);
            }
            depth -= 1;
        } else if keyed_open_exec(t, j, &open).is_some() {
            depth += 1;
        }
        j += 1;
    }
    None
}

/// The text under `key` in `scope`, as `reading` says.
fn reading_exec(scope: &Properties, key: &Vec<char>) -> (r: Vec<char>)
    ensures
        r@ == reading(scope.model(), key@),
{
    let k = string_of(key);
    match scope.get(k.as_str()) {
        Some(v) => match v.as_string() {
            Some(s) => chars_of(s.as_str()),
            None => Vec::new(),
        },
        None => Vec::new(),
    }
}

/// Interprets a whole text, as `interpret` says.
pub fn interpret_exec(t: &Vec<char>, scope: &Properties, files: &IncludeFiles, fuel: usize) -> (r: Result<
    Vec<char>,
    TemplateError,
>)
    requires
        t.len() + 16 < usize::MAX,
    ensures
        match interpret(t@, scope.model(), files.model(), fuel as nat) {
            Ok(o) => r matches Ok(ro) && ro@ == o,
            Err(e) => r matches Err(re) && error_model(re) == e,
        },
    decreases fuel, t@.len(), 2int, 0int, 0int,
{
    match run_exec(t, 0, scope, files, fuel) {
        Ok((out, p, stop)) => match stop {
            Stop::End => Ok(out),
            _ => Err(TemplateError::StrayDirective(p)),
        },
        Err(e) => Err(e),
    }
}

/// The loop body interpreted for each of `items`, as `loop_from` says.
fn loop_exec(body: &Vec<char>, items: &Vec<Value>, files: &IncludeFiles, fuel: usize) -> (r: Result<
    Vec<char>,
    TemplateError,
>)
    requires
        body.len() + 16 < usize::MAX,
    ensures
        match loop_from(body@, values_model(items@), 0, files.model(), fuel as nat) {
            Ok(o) => r matches Ok(ro) && ro@ == o,
            Err(e) => r matches Err(re) && error_model(re) == e,
        },
    decreases fuel, body@.len(), 3int, 0int, 0int,
{
    let ghost vals = values_model(items@);
    proof { lemma_values_model_len(items@); }
    let mut out: Vec<char> = Vec::new();
    let mut n: usize = 0;
    while n < items.len()
        invariant
            n <= items.len(),
            body.len() + 16 < usize::MAX,
            vals == values_model(items@),
            vals.len() == items@.len(),
            forall|k: int| 0 <= k < items@.len() ==> #[trigger] vals[k] == items@[k].model(),
            match loop_from(body@, vals, 0, files.model(), fuel as nat) {
                Ok(o) => loop_from(body@, vals, n as int, files.model(), fuel as nat) matches Ok(rest)
                    && o == out@ + rest,
                Err(e) => loop_from(body@, vals, n as int, files.model(), fuel as nat) == Err::<Seq<char>, ErrorModel>(e),
            },
        decreases items.len() - n,
    {
        let scope = items[n].as_map();
        match interpret_exec(body, &scope, files, fuel) {
            Ok(first) => {
                proof {
                    assert(out@ + first@ + Seq::<char>::empty() =~= out@ + first@);
                    match loop_from(body@, vals, n + 1, files.model(), fuel as nat) {
                        Ok(rest) => {
                            assert(out@ + (first@ + rest) =~= out@ + first@ + rest);
                        },
                        Err(_) => {},
                    }
                }
                append_chars(&mut out, &first);
            },
            Err(e) => {
                return Err(e);
            },
        }
        n += 1;
    }
    proof {
        assert(out@ + Seq::<char>::empty() =~= out@);
    }
    Ok(out)
}

/// Elements from `i` on, as `run_from` says.
fn run_exec(t: &Vec<char>, i: usize, scope: &Properties, files: &IncludeFiles, fuel: usize) -> (r: Result<
    (Vec<char>, usize, Stop),
    TemplateError,
>)
    requires
        t.len() + 16 < usize::MAX,
        i <= t.len(),
    ensures
        match run_from(t@, i as int, scope.model(), files.model(), fuel as nat) {
            Ok((o, p, st)) => r matches Ok((ro, rp, rst)) && ro@ == o && rp == p && rst == st
                && i <= rp <= t.len()
                && (rst == Stop::Endif ==> occurs_at(t@, rp as int, "$endif$"@))
                && (rst == Stop::Else ==> occurs_at(t@, rp as int, "$else$"@)),
            Err(e) => r matches Err(re) && error_model(re) == e,
        },
    decreases fuel, t@.len(), 1int, t@.len() - i, 2int,
{
    let ghost sc = scope.model();
    let ghost fm = files.model();
    let ghost whole = run_from(t@, i as int, sc, fm, fuel as nat);
    let mut out: Vec<char> = Vec::new();
    let mut j = i;
    loop
        invariant
            i <= j <= t.len(),
            t.len() + 16 < usize::MAX,
            sc == scope.model(),
            fm == files.model(),
            whole == run_from(t@, i as int, sc, fm, fuel as nat),
            match whole {
                Ok((o, p, st)) => run_from(t@, j as int, sc, fm, fuel as nat) matches Ok((ro, rp, rst))
                    && o == out@ + ro && p == rp && st == rst,
                Err(e) => run_from(t@, j as int, sc, fm, fuel as nat) == Err::<(Seq<char>, int, Stop), ErrorModel>(e),
            },
        decreases t.len() - j,
    {
        if j >= t.len() {
            assert(out@ + Seq::<char>::empty() =~= out@);
            return Ok((out, t.len(), Stop::End));
        }
        match element_exec(t, j, scope, files, fuel) {
            Err(e) => {
                return Err(e);
            },
            Ok(StepOut::Close(stop)) => {
                assert(out@ + Seq::<char>::empty() =~= out@);
                return Ok((out, j, stop));
            },
            Ok(StepOut::Emit(o, next)) => {
                proof {
                    match run_from(t@, next as int, sc, fm, fuel as nat) {
                        Ok((rest, p, st)) => {
                            assert(out@ + (o@ + rest) =~= out@ + o@ + rest);
                        },
                        Err(_) => {},
                    }
                }
                append_chars(&mut out, &o);
                j = next;
            },
        }
    }
}

/// The element at `i`, as `element_at` says.
#[verifier::rlimit(100)]
fn element_exec(t: &Vec<char>, i: usize, scope: &Properties, files: &IncludeFiles, fuel: usize) -> (r: Result<
    StepOut,
    TemplateError,
>)
    requires
        t.len() + 16 < usize::MAX,
        i < t.len(),
    ensures
        match element_at(t@, i as int, scope.model(), files.model(), fuel as nat) {
            Ok(st) => r matches Ok(rs) && step_model(rs) == st
                && (rs matches StepOut::Emit(_, n) ==> i < n <= t.len())
                && (rs matches StepOut::Close(Stop::Endif) ==> occurs_at(t@, i as int, "$endif$"@))
                && (rs matches StepOut::Close(Stop::Else) ==> occurs_at(t@, i as int, "$else$"@)),
            Err(e) => r matches Err(re) && error_model(re) == e,
        },
    decreases fuel, t@.len(), 1int, t@.len() - i, 1int,
{
    if t[i] != '$' {
        let dollar = crate::markdown_scan::repeated_char('$', 1);
        let e = find_from_exec(t, i + 1, &dollar);
        proof {
            crate::markdown_scan::lemma_find_bounds(t@, i + 1, dollar@);
            assert(t@.subrange(i as int, i + 1)[0] == t@[i as int]);
            assert(!occurs_at(t@, i as int, dollar@));
        }
        return Ok(StepOut::Emit(slice_of(t, i, e), e));
    }
    let else_mark = chars_of("$else$");
    let endif_mark = chars_of("$endif$");
    let endfor_mark = chars_of("$endfor$");
    if matches_at(t, i, &else_mark) {
        return Ok(StepOut::Close(Stop::Else));
    }
    if matches_at(t, i, &endif_mark) {
        return Ok(StepOut::Close(Stop::Endif));
    }
    if matches_at(t, i, &endfor_mark) {
        return Err(TemplateError::StrayDirective(i));
    }
    proof {
        reveal_strlit("$if(");
        reveal_strlit("$for(");
        reveal_strlit("$else$");
        reveal_strlit("$endif$");
        reveal_strlit("$endfor$");
    }
    let if_open = chars_of("$if(");
    match keyed_open_exec(t, i, &if_open) {
        Some((ke, bs)) => {
            return if_exec(t, i, ke, bs, scope, files, fuel);
        },
        None => {},
    }
    let for_open = chars_of("$for(");
    match keyed_open_exec(t, i, &for_open) {
        Some((ke, bs)) => {
            let key = slice_of(t, i + 5, ke);
            match for_end_exec(t, bs) {
                None => {
                    return Err(TemplateError::UnclosedFor(i));
                },
                Some(be) => {
                    let body = slice_of(t, bs, be);
                    let k = string_of(&key);
                    let items: Vec<Value> = match scope.get(k.as_str()) {
                        Some(v) => v.as_list(),
                        None => Vec::new(),
                    };
                    proof {
                        assert(values_model(items@) == loop_items(scope.model(), key@)) by {
                            if !scope.model().contains_key(key@) {
                                assert(values_model(items@) =~= Seq::<Val>::empty());
                            }
                        }
                    }
                    return match loop_exec(&body, &items, files, fuel) {
                        Ok(out) => Ok(StepOut::Emit(out, be + 8)),
                        Err(e) => Err(e),
                    };
                },
            }
        },
        None => {},
    }
    match include_open_exec(t, i) {
        Some((pe, next)) => {
            proof { reveal_strlit("$include(\""); }
            let path_chars = slice_of(t, i + 10, pe);
            let path = string_of(&path_chars);
            match files.get(path.as_str()) {
                None => {
                    return Err(TemplateError::MissingInclude(path));
                },
                Some(contents) => {
                    if fuel == 0 {
                        return Err(TemplateError::IncludeTooDeep(path));
                    }
                    let inner = chars_of(contents.as_str());
                    if inner.len() >= usize::MAX - 16 {
                        return Err(TemplateError::IncludeTooDeep(path));
                    }
                    return match interpret_exec(&inner, scope, files, fuel - 1) {
                        Ok(out) => Ok(StepOut::Emit(out, next)),
                        Err(e) => Err(e),
                    };
                },
            }
        },
        None => {},
    }
    match access_at_exec(t, i) {
        Some(ke) => {
            let key = slice_of(t, i + 1, ke);
            let out = reading_exec(scope, &key);
            Ok(StepOut::Emit(out, ke + 1))
        },
        None => {
            let mut out: Vec<char> = Vec::new();
            out.push('$');
            assert(out@ =~= seq!['$']);
            Ok(StepOut::Emit(out, i + 1))
        },
    }
}

/// An `$if(key)$` at `i` whose key ends at `ke` and whose first branch starts at `bs`.
fn if_exec(
    t: &Vec<char>,
    i: usize,
    ke: usize,
    bs: usize,
    scope: &Properties,
    files: &IncludeFiles,
    fuel: usize,
) -> (r: Result<StepOut, TemplateError>)
    requires
        t.len() + 16 < usize::MAX,
        i < t.len(),
        keyed_open(t@, i as int, "$if("@) == Some((ke as int, bs as int)),
        i + "$if("@.len() < ke,
        ke + 2 == bs,
        bs <= t.len(),
        !occurs_at(t@, i as int, "$else$"@),
        !occurs_at(t@, i as int, "$endif$"@),
        !occurs_at(t@, i as int, "$endfor$"@),
        t@[i as int] == '$',
    ensures
        match element_at(t@, i as int, scope.model(), files.model(), fuel as nat) {
            Ok(st) => r matches Ok(rs) && step_model(rs) == st
                && (rs matches StepOut::Emit(_, n) ==> i < n <= t.len())
                && (rs matches StepOut::Close(Stop::Endif) ==> occurs_at(t@, i as int, "$endif$"@))
                && (rs matches StepOut::Close(Stop::Else) ==> occurs_at(t@, i as int, "$else$"@)),
            Err(e) => r matches Err(re) && error_model(re) == e,
        },
    decreases fuel, t@.len(), 1int, t@.len() - i, 0int,
{
    proof {
        reveal_strlit("$if(");
        reveal_strlit("$else$");
        reveal_strlit("$endif$");
    }
    let key = slice_of(t, i + 4, ke);
    let chosen = reading_exec(scope, &key).len() > 0;
    match run_exec(t, bs, scope, files, fuel) {
        Err(e) => Err(e),
        Ok((then_out, p, stop)) => match stop {
            Stop::End => Err(TemplateError::UnclosedIf(i)),
            Stop::Endif => {
                Ok(StepOut::Emit(if chosen { then_out } else { Vec::new() }, p + 7))
            },
            Stop::Else => {
                match run_exec(t, p + 6, scope, files, fuel) {
                    Err(e) => Err(e),
                    Ok((else_out, q, stop2)) => match stop2 {
                        Stop::Endif => {
                            Ok(StepOut::Emit(if chosen { then_out } else { else_out }, q + 7))
                        },
                        Stop::Else => Err(TemplateError::StrayDirective(q)),
                        Stop::End => Err(TemplateError::UnclosedIf(i)),
                    },
                }
            },
        },
    }
}

/// The template interpreter.
pub struct TemplateParser;

impl TemplateParser {
    pub fn default() -> TemplateParser {
        TemplateParser
    }

    /// Interprets `template` against `scope`; `$include("path")$` reads from
    /// `files`. A path that `files` lacks is reported as `MissingInclude`.
    pub fn interpret(&self, template: &str, scope: &Properties, files: &IncludeFiles) -> (r: Result<
        String,
        TemplateError,
    >)
        requires
            template@.len() + 16 < usize::MAX,
        ensures
            match interpret(template@, scope.model(), files.model(), INCLUDE_DEPTH as nat) {
                Ok(o) => r matches Ok(ro) && ro@ == o,
                Err(e) => r matches Err(re) && error_model(re) == e,
            },
    {
        let t = chars_of(template);
        match interpret_exec(&t, scope, files, INCLUDE_DEPTH) {
            Ok(out) => Ok(string_of(&out)),
            Err(e) => Err(e),
        }
    }
}

} // verus!
