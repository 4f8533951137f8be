//! The template language, stated over sequences of characters.
//!
//! Directives stand between `$` signs: `$key$`, `$if(key)$ .. [$else$ ..]
//! $endif$`, `$for(key)$ .. $endfor$` and `$include("path")$`. Everything
//! else is copied.
use vstd::prelude::*;
use crate::text::occurs_at;
use crate::markdown_spec::find_from;
use crate::value::{Val, val_as_string, val_as_list, val_as_map};

verus! {

/// Why a template could not be interpreted. Offsets count characters from
/// the start of the text being interpreted.
#[derive(Debug, PartialEq, Eq)]
pub enum TemplateError {
    /// The `$if(..)$` at this offset has no `$endif$`.
    UnclosedIf(usize),
    /// The `$for(..)$` at this offset has no `$endfor$`.
    UnclosedFor(usize),
    /// An `$else$`, `$endif$` or `$endfor$` at this offset closes nothing.
    StrayDirective(usize),
    /// No file was supplied for this include path.
    MissingInclude(String),
    /// Includes nest deeper than the interpreter follows (or an included
    /// file is too long to index).
    IncludeTooDeep(String),
}

/// The same error, with the path of an include as characters.
pub enum ErrorModel {
    UnclosedIf(int),
    UnclosedFor(int),
    StrayDirective(int),
    MissingInclude(Seq<char>),
    IncludeTooDeep(Seq<char>),
}

pub open spec fn error_model(e: TemplateError) -> ErrorModel {
    match e {
        TemplateError::UnclosedIf(k) => ErrorModel::UnclosedIf(k as int),
        TemplateError::UnclosedFor(k) => ErrorModel::UnclosedFor(k as int),
        TemplateError::StrayDirective(k) => ErrorModel::StrayDirective(k as int),
        TemplateError::MissingInclude(p) => ErrorModel::MissingInclude(p@),
        TemplateError::IncludeTooDeep(p) => ErrorModel::IncludeTooDeep(p@),
    }
}

/// Where a run of directives stopped.
pub enum Stop {
    End,
    Else,
    Endif,
}

/// The outcome of one element: text and where the next element starts, or a
/// closer that ends the run.
pub enum Step {
    Emit(Seq<char>, int),
    Close(Stop),
}

pub open spec fn is_ident_start(c: char) -> bool {
    ('a' <= c && c <= 'z') || ('A' <= c && c <= 'Z') || c == '_'
}

pub open spec fn is_ident_char(c: char) -> bool {
    is_ident_start(c) || ('0' <= c && c <= '9')
}

/// The end of the identifier characters from `k` on.
pub open spec fn ident_end(t: Seq<char>, k: int) -> int
    decreases t.len() - k,
{
    if k < 0 || k >= t.len() || !is_ident_char(t[k]) {
        k
    } else {
        ident_end(t, k + 1)
    }
}

/// `open` key `)$` at `i`: the end of the key and where the body starts.
pub open spec fn keyed_open(t: Seq<char>, i: int, open: Seq<char>) -> Option<(int, int)> {
    let ks = i + open.len();
    let ke = ident_end(t, ks);
    if occurs_at(t, i, open) && ke > ks && is_ident_start(t[ks]) && occurs_at(t, ke, ")$"@) {
        Some((ke, ke + 2))
    } else {
        None
    }
}

/// `$include("path")$` at `i`: the end of the path and where it stops.
pub open spec fn include_open(t: Seq<char>, i: int) -> Option<(int, int)> {
    let ps = i + "$include(\""@.len();
    let pe = find_from(t, ps, "\")$"@);
    if occurs_at(t, i, "$include(\""@) && pe < t.len() {
        Some((pe, pe + 3))
    } else {
        None
    }
}

/// `$key$` at `i`: the end of the key.
pub open spec fn access_at(t: Seq<char>, i: int) -> Option<int> {
    let ke = ident_end(t, i + 1);
    if 0 <= i < t.len() && t[i] == '$' && ke > i + 1 && is_ident_start(t[i + 1]) && ke < t.len()
        && t[ke] == '$' {
        Some(ke)
    } else {
        None
    }
}

/// The `$endfor$` that closes a loop whose body runs from `k`, with `depth`
/// loops opened inside the body so far.
pub open spec fn for_end(t: Seq<char>, k: int, depth: nat) -> Option<int>
    decreases t.len() - k,
{
    if k < 0 || k >= t.len() {
        None
    } else if occurs_at(t, k, "$endfor$"@) {
        if depth == 0 {
            Some(k)
        } else {
            for_end(t, k + 1, (depth - 1) as nat)
        }
    } else if keyed_open(t, k, "$for("@) is Some {
        for_end(t, k + 1, depth + 1)
    } else {
        for_end(t, k + 1, depth)
    }
}

/// The end of a run of plain text from `k`: the next `$` or the end.
pub open spec fn plain_end(t: Seq<char>, k: int) -> int {
    find_from(t, k, seq!['$'])
}

/// The value under `key`, read as text, or nothing.
pub open spec fn reading(scope: Map<Seq<char>, Val>, key: Seq<char>) -> Seq<char> {
    if scope.contains_key(key) {
        match val_as_string(scope[key]) {
            Some(s) => s,
            None => Seq::empty(),
        }
    } else {
        Seq::empty()
    }
}

/// The elements a loop over `key` runs over.
pub open spec fn loop_items(scope: Map<Seq<char>, Val>, key: Seq<char>) -> Seq<Val> {
    if scope.contains_key(key) {
        val_as_list(scope[key])
    } else {
        Seq::empty()
    }
}

/// A whole text, interpreted: no closer may be left over.
pub open spec fn interpret(
    t: Seq<char>,
    scope: Map<Seq<char>, Val>,
    files: Map<Seq<char>, Seq<char>>,
    fuel: nat,
) -> Result<Seq<char>, ErrorModel>
    decreases fuel, t.len(), 2int, 0int, 0int,
{
    match run_from(t, 0, scope, files, fuel) {
        Ok((out, p, Stop::End)) => Ok(out),
        Ok((_, p, _)) => Err(ErrorModel::StrayDirective(p)),
        Err(e) => Err(e),
    }
}

/// The loop body interpreted once for each of `items` from the `n`th on,
/// each time with the scope of that element alone.
pub open spec fn loop_from(
    body: Seq<char>,
    items: Seq<Val>,
    n: int,
    files: Map<Seq<char>, Seq<char>>,
    fuel: nat,
) -> Result<Seq<char>, ErrorModel>
    decreases fuel, body.len(), 3int, items.len() - n, 0int,
{
    if n < 0 || n >= items.len() {
        Ok(Seq::empty())
    } else {
        match interpret(body, val_as_map(items[n]), files, fuel) {
            Ok(first) => match loop_from(body, items, n + 1, files, fuel) {
                Ok(rest) => Ok(first + rest),
                Err(e) => Err(e),
            },
            Err(e) => Err(e),
        }
    }
}

/// Elements from `i` on, up to the end or an `$else$` / `$endif$`: their
/// text, where the run stopped, and how.
pub open spec fn run_from(
    t: Seq<char>,
    i: int,
    scope: Map<Seq<char>, Val>,
    files: Map<Seq<char>, Seq<char>>,
    fuel: nat,
) -> Result<(Seq<char>, int, Stop), ErrorModel>
    decreases fuel, t.len(), 1int, t.len() - i, 1int,
{
    if i < 0 || i >= t.len() {
        Ok((Seq::empty(), t.len() as int, Stop::End))
    } else {
        match element_at(t, i, scope, files, fuel) {
            Err(e) => Err(e),
            Ok(Step::Close(stop)) => Ok((Seq::empty(), i, stop)),
            Ok(Step::Emit(out, next)) => if i < next <= t.len() {
                match run_from(t, next, scope, files, fuel) {
                    Ok((rest, p, stop)) => Ok((out + rest, p, stop)),
                    Err(e) => Err(e),
                }
            } else {
                Ok((out, t.len() as int, Stop::End))
            },
        }
    }
}

/// The element at `i`.
pub open spec fn element_at(
    t: Seq<char>,
    i: int,
    scope: Map<Seq<char>, Val>,
    files: Map<Seq<char>, Seq<char>>,
    fuel: nat,
) -> Result<Step, ErrorModel>
    decreases fuel, t.len(), 1int, t.len() - i, 0int,
{
    if i < 0 || i >= t.len() {
        Ok(Step::Emit(Seq::empty(), i + 1))
    } else if t[i] != '$' {
        let e = plain_end(t, i);
        Ok(Step::Emit(t.subrange(i, e), e))
    } else if occurs_at(t, i, "$else$"@) {
        Ok(Step::Close(Stop::Else))
    } else if occurs_at(t, i, "$endif$"@) {
        Ok(Step::Close(Stop::Endif))
    } else if occurs_at(t, i, "$endfor$"@) {
        Err(ErrorModel::StrayDirective(i))
    } else if keyed_open(t, i, "$if("@) is Some {
        let (ke, bs) = keyed_open(t, i, "$if("@)->Some_0;
        let key = t.subrange(i + "$if("@.len(), ke);
        let chosen = reading(scope, key).len() > 0;
        if bs <= i || bs > t.len() {
            Err(ErrorModel::UnclosedIf(i))
        } else {
            match run_from(t, bs, scope, files, fuel) {
                Err(e) => Err(e),
                Ok((_, _, Stop::End)) => Err(ErrorModel::UnclosedIf(i)),
                Ok((then_out, p, Stop::Endif)) => Ok(
                    Step::Emit(if chosen { then_out } else { Seq::empty() }, p + "$endif$"@.len()),
                ),
                Ok((then_out, p, Stop::Else)) => if i < p + "$else$"@.len() <= t.len() {
                    match run_from(t, p + "$else$"@.len(), scope, files, fuel) {
                        Err(e) => Err(e),
                        Ok((else_out, q, Stop::Endif)) => Ok(
                            Step::Emit(if chosen { then_out } else { else_out }, q + "$endif$"@.len()),
                        ),
                        Ok((_, q, Stop::Else)) => Err(ErrorModel::StrayDirective(q)),
                        Ok((_, _, Stop::End)) => Err(ErrorModel::UnclosedIf(i)),
                    }
                } else {
                    Err(ErrorModel::UnclosedIf(i))
                },
            }
        }
    } else if keyed_open(t, i, "$for("@) is Some {
        let (ke, bs) = keyed_open(t, i, "$for("@)->Some_0;
        let key = t.subrange(i + "$for("@.len(), ke);
        match for_end(t, bs, 0) {
            None => Err(ErrorModel::UnclosedFor(i)),
            Some(be) => if i < bs <= be <= t.len() {
                match loop_from(t.subrange(bs, be), loop_items(scope, key), 0, files, fuel) {
                    Ok(out) => Ok(Step::Emit(out, be + "$endfor$"@.len())),
                    Err(e) => Err(e),
                }
            } else {
                Err(ErrorModel::UnclosedFor(i))
            },
        }
    } else if include_open(t, i) is Some {
        let (pe, next) = include_open(t, i)->Some_0;
        let path = t.subrange(i + "$include(\""@.len(), pe);
        if !files.contains_key(path) {
            Err(ErrorModel::MissingInclude(path))
        } else if fuel == 0 || files[path].len() + 16 >= usize::MAX {
            Err(ErrorModel::IncludeTooDeep(path))
        } else {
            match interpret(files[path], scope, files, (fuel - 1) as nat) {
                Ok(out) => Ok(Step::Emit(out, next)),
                Err(e) => Err(e),
            }
        }
    } else if access_at(t, i) is Some {
        let ke = access_at(t, i)->Some_0;
        Ok(Step::Emit(reading(scope, t.subrange(i + 1, ke)), ke + 1))
    } else {
        Ok(Step::Emit(seq!['$'], i + 1))
    }
}

/// The text of a loop over `key` with `body`.
pub open spec fn loop_text(key: Seq<char>, body: Seq<char>) -> Seq<char> {
    "$for("@ + key + ")$"@ + body + "$endfor$"@
}

/// An identifier.
pub open spec fn is_identifier(key: Seq<char>) -> bool {
    key.len() > 0 && is_ident_start(key[0]) && forall|i: int| 0 <= i < key.len() ==> is_ident_char(#[trigger] key[i])
}

proof fn lemma_ident_end(t: Seq<char>, k: int, e: int)
    requires
        0 <= k <= e < t.len(),
        forall|i: int| k <= i < e ==> is_ident_char(#[trigger] t[i]),
        !is_ident_char(t[e]),
    ensures
        ident_end(t, k) == e,
    decreases e - k,
{
    if k < e {
        lemma_ident_end(t, k + 1, e);
    }
}

/// A loop over a key that the scope lacks renders as nothing, and is no
/// error, whatever its body (given that the body leaves the loop's own
/// `$endfor$` as the one that closes it).
pub proof fn lemma_loop_over_absent_key_is_empty(
    key: Seq<char>,
    body: Seq<char>,
    scope: Map<Seq<char>, Val>,
    files: Map<Seq<char>, Seq<char>>,
    fuel: nat,
)
    requires
        is_identifier(key),
        !scope.contains_key(key),
        for_end(loop_text(key, body), 7 + key.len() as int, 0) == Some(7 + key.len() as int + body.len() as int),
    ensures
        interpret(loop_text(key, body), scope, files, fuel) == Ok::<Seq<char>, ErrorModel>(Seq::empty()),
{
    reveal_strlit("$for(");
    reveal_strlit(")$");
    reveal_strlit("$endfor$");
    reveal_strlit("$else$");
    reveal_strlit("$endif$");
    reveal_strlit("$if(");
    let t = loop_text(key, body);
    let ke: int = 5 + key.len() as int;
    let bs: int = ke + 2;
    let be: int = bs + body.len();
    assert(t.len() == be + 8);
    assert(t[0] == '$');
    assert(t[1] == 'f');
    assert(t.subrange(0, 5) =~= "$for("@);
    assert forall|i: int| 5 <= i < ke implies is_ident_char(#[trigger] t[i]) by {
        assert(t[i] == key[i - 5]);
    }
    assert(t[ke] == ')');
    lemma_ident_end(t, 5, ke);
    assert(t.subrange(ke, ke + 2) =~= ")$"@);
    assert(t[5] == key[0]);
    assert(keyed_open(t, 0, "$for("@) == Some((ke, bs)));
    assert(!occurs_at(t, 0, "$else$"@)) by {
        assert(t.subrange(0, 6)[1] != "$else$"@[1]);
    }
    assert(!occurs_at(t, 0, "$endif$"@)) by {
        assert(t.subrange(0, 7)[1] != "$endif$"@[1]);
    }
    assert(!occurs_at(t, 0, "$endfor$"@)) by {
        assert(t.subrange(0, 8)[1] != "$endfor$"@[1]);
    }
    assert(!occurs_at(t, 0, "$if("@)) by {
        assert(t.subrange(0, 4)[1] != "$if("@[1]);
    }
    assert(t.subrange(5, ke) =~= key);
    assert(loop_items(scope, key) =~= Seq::<Val>::empty());
    assert(loop_from(t.subrange(bs, be), Seq::<Val>::empty(), 0, files, fuel) == Ok::<Seq<char>, ErrorModel>(Seq::empty()));
    assert(element_at(t, 0, scope, files, fuel) == Ok::<Step, ErrorModel>(Step::Emit(Seq::empty(), t.len() as int)));
    assert(run_from(t, t.len() as int, scope, files, fuel) == Ok::<(Seq<char>, int, Stop), ErrorModel>((Seq::empty(), t.len() as int, Stop::End)));
    assert(Seq::<char>::empty() + Seq::<char>::empty() =~= Seq::<char>::empty());
}

} // verus!
