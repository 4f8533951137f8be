use vstd::prelude::*;
use vstd::string::*;

verus! {

/// The mathematical model of a [`Value`].
pub enum Val {
    Text(Seq<char>),
    List(Seq<Val>),
    Mapping(Map<Seq<char>, Val>),
}

/// Metadata of a document: text, an ordered list, or a string-keyed mapping.
#[derive(Debug, PartialEq)]
pub enum Value {
    Text(String),
    List(Vec<Value>),
    Mapping(Properties),
}

/// A string-keyed mapping of values. Entries are kept in the order they were
/// stored; where a key was stored twice, the later entry is the one that counts.
#[derive(Debug, PartialEq)]
pub struct Properties {
    entries: Vec<(String, Value)>,
}

/// The model of a list of entries: later entries win over earlier ones.
pub open spec fn entries_model(entries: Seq<(String, Value)>) -> Map<Seq<char>, Val>
    decreases entries,
{
    if entries.len() == 0 {
        Map::empty()
    } else {
        let last = entries.last();
        entries_model(entries.drop_last()).insert(last.0@, last.1.model())
    }
}

pub open spec fn values_model(items: Seq<Value>) -> Seq<Val>
    decreases items,
{
    if items.len() == 0 {
        Seq::empty()
    } else {
        values_model(items.drop_last()).push(items.last().model())
    }
}

impl Properties {
    /// The mapping from keys to the models of their values.
    pub closed spec fn model(&self) -> Map<Seq<char>, Val>
        decreases self,
    {
        entries_model(self.entries@)
    }
}

impl Value {
    pub open spec fn model(&self) -> Val
        decreases self,
    {
        match self {
            Value::Text(s) => Val::Text(s@),
            Value::List(items) => Val::List(values_model(items@)),
            Value::Mapping(p) => Val::Mapping(p.model()),
        }
    }
}

/// What a value reads as where text is needed: text is itself, a list joins
/// the readings of its elements with ", " (skipping those without one), and a
/// mapping has none.
pub open spec fn val_as_string(v: Val) -> Option<Seq<char>>
    decreases v,
{
    match v {
        Val::Text(s) => Some(s),
        Val::List(items) => Some(join(readings(items), ", "@)),
        Val::Mapping(_) => None,
    }
}

/// The readings of the elements that have one, in order.
pub open spec fn readings(items: Seq<Val>) -> Seq<Seq<char>>
    decreases items,
{
    if items.len() == 0 {
        Seq::empty()
    } else {
        let front = readings(items.drop_last());
        match val_as_string(items.last()) {
            Some(s) => front.push(s),
            None => front,
        }
    }
}

/// The parts, with `sep` between each two neighbours.
pub open spec fn join(parts: Seq<Seq<char>>, sep: Seq<char>) -> Seq<char>
    decreases parts.len(),
{
    if parts.len() == 0 {
        Seq::empty()
    } else if parts.len() == 1 {
        parts[0]
    } else {
        join(parts.drop_last(), sep) + sep + parts.last()
    }
}

/// A list is itself; any other value is the list of that one value.
pub open spec fn val_as_list(v: Val) -> Seq<Val> {
    match v {
        Val::List(items) => items,
        _ => seq![v],
    }
}

/// A mapping is itself; any other value is the mapping of key "i" to it.
pub open spec fn val_as_map(v: Val) -> Map<Seq<char>, Val> {
    match v {
        Val::Mapping(m) => m,
        _ => map![ "i"@ => v ],
    }
}

/// Round trip of the coercions: text read as a list has itself as its one
/// element, and that element read as a mapping holds the text under "i".
pub proof fn lemma_text_list_map_round_trip(s: Seq<char>)
    ensures
        val_as_list(Val::Text(s)).len() == 1,
        val_as_map(val_as_list(Val::Text(s))[0]).contains_key("i"@),
        val_as_map(val_as_list(Val::Text(s))[0])["i"@] == Val::Text(s),
{
}

pub open spec fn opt_view(o: Option<String>) -> Option<Seq<char>> {
    match o {
        Some(s) => Some(s@),
        None => None,
    }
}

proof fn lemma_join_push(parts: Seq<Seq<char>>, sep: Seq<char>, x: Seq<char>)
    ensures
        join(parts.push(x), sep) == if parts.len() == 0 {
            x
        } else {
            join(parts, sep) + sep + x
        },
{
    assert(parts.push(x).drop_last() =~= parts);
}

proof fn lemma_values_model_push(items: Seq<Value>, i: int)
    requires
        0 <= i < items.len(),
    ensures
        values_model(items.take(i + 1)) == values_model(items.take(i)).push(items[i].model()),
{
    assert(items.take(i + 1).drop_last() =~= items.take(i));
}

/// Appending a value appends its model.
pub proof fn lemma_values_model_append(items: Seq<Value>, x: Value)
    ensures
        values_model(items.push(x)) == values_model(items).push(x.model()),
{
    assert(items.push(x).drop_last() =~= items);
}

pub proof fn lemma_values_model_len(items: Seq<Value>)
    ensures
        values_model(items).len() == items.len(),
        forall|i: int| 0 <= i < items.len() ==> #[trigger] values_model(items)[i] == items[i].model(),
    decreases items.len(),
{
    if items.len() > 0 {
        lemma_values_model_len(items.drop_last());
    }
}

impl Value {
    /// A copy of the value, equal to it in every part.
    pub fn duplicate(&self) -> (r: Value)
        ensures
            r.model() == self.model(),
        decreases self,
    {
        match self {
            Value::Text(s) => Value::Text(s.clone()),
            Value::List(items) => {
                let mut out: Vec<Value> = Vec::new();
                let mut i: usize = 0;
                while i < items.len()
                    invariant
                        *self == Value::List(*items),
                        i <= items.len(),
                        values_model(out@) == values_model(items@.take(i as int)),
                        out@.len() == i,
                    decreases items.len() - i,
                {
                    proof {
                        let whole = *self;
                        assert(decreases_to!(whole => whole->List_0));
                        vstd::std_specs::vec::axiom_vec_index_decreases(whole->List_0, i as int);
                    }
                    let d = items[i].duplicate();
                    proof {
                        lemma_values_model_push(items@, i as int);
                        assert(out@.push(d).drop_last() =~= out@);
                    }
                    out.push(d);
                    i += 1;
                }
                assert(items@.take(items@.len() as int) =~= items@);
                Value::List(out)
            },
            Value::Mapping(p) => Value::Mapping(p.duplicate()),
        }
    }

    /// The value read as text, as `val_as_string` says.
    pub fn as_string(&self) -> (r: Option<String>)
        ensures
            opt_view(r) == val_as_string(self.model()),
        decreases self,
    {
        match self {
            Value::Text(s) => Some(s.clone()),
            Value::List(items) => {
                let mut out = String::new();
                let mut count: usize = 0;
                let mut i: usize = 0;
                proof {
                    assert(values_model(items@.take(0)) =~= Seq::<Val>::empty());
                }
                while i < items.len()
                    invariant
                        *self == Value::List(*items),
                        i <= items.len(),
                        out@ == join(readings(values_model(items@.take(i as int))), ", "@),
                        count == readings(values_model(items@.take(i as int))).len(),
                        count <= i,
                    decreases items.len() - i,
                {
                    proof {
                        let whole = *self;
                        assert(decreases_to!(whole => whole->List_0));
                        vstd::std_specs::vec::axiom_vec_index_decreases(whole->List_0, i as int);
                    }
                    let r = items[i].as_string();
                    proof {
                        lemma_values_model_push(items@, i as int);
                        let m = values_model(items@.take(i as int)).push(items@[i as int].model());
                        assert(m.drop_last() =~= values_model(items@.take(i as int)));
                    }
                    match r {
                        Some(s) => {
                            proof {
                                lemma_join_push(readings(values_model(items@.take(i as int))), ", "@, s@);
                            }
                            if count > 0 {
                                out.append(", ");
                            }
                            out.append(s.as_str());
                            count += 1;
                        },
                        None => {},
                    }
                    i += 1;
                }
                assert(items@.take(items@.len() as int) =~= items@);
                Some(out)
            },
            Value::Mapping(_) => None,
        }
    }

    /// The value as a list, as `val_as_list` says.
    pub fn as_list(&self) -> (r: Vec<Value>)
        ensures
            values_model(r@) == val_as_list(self.model()),
    {
        match self {
            Value::List(_) => {
                let d = self.duplicate();
                match d {
                    Value::List(items) => items,
                    _ => Vec::new(),
                }
            },
            _ => {
                let d = self.duplicate();
                let mut out: Vec<Value> = Vec::new();
                out.push(d);
                proof {
                    assert(out@.drop_last() =~= Seq::<Value>::empty());
                    assert(values_model(Seq::<Value>::empty()) =~= Seq::<Val>::empty());
                    assert(values_model(out@) =~= seq![self.model()]);
                }
                out
            },
        }
    }

    /// The value as a mapping, as `val_as_map` says.
    pub fn as_map(&self) -> (r: Properties)
        ensures
            r.model() == val_as_map(self.model()),
    {
        match self {
            Value::Mapping(p) => p.duplicate(),
            _ => {
                let mut p = Properties::new();
                p.insert(String::from_str("i"), self.duplicate());
                proof {
                    assert(p.model() =~= map![ "i"@ => self.model() ]);
                }
                p
            },
        }
    }
}

impl Properties {
    /// The empty mapping.
    pub fn new() -> (r: Properties)
        ensures
            r.model() == Map::<Seq<char>, Val>::empty(),
    {
        Properties { entries: Vec::new() }
    }

    /// A copy of the mapping.
    pub fn duplicate(&self) -> (r: Properties)
        ensures
            r.model() == self.model(),
        decreases self,
    {
        let mut out: Vec<(String, Value)> = Vec::new();
        let mut i: usize = 0;
        while i < self.entries.len()
            invariant
                i <= self.entries.len(),
                entries_model(out@) == entries_model(self.entries@.take(i as int)),
            decreases self.entries.len() - i,
        {
            let k = self.entries[i].0.clone();
            let v = self.entries[i].1.duplicate();
            proof {
                assert(self.entries@.take(i + 1).drop_last() =~= self.entries@.take(i as int));
                assert(out@.push((k, v)).drop_last() =~= out@);
            }
            out.push((k, v));
            i += 1;
        }
        assert(self.entries@.take(self.entries@.len() as int) =~= self.entries@);
        Properties { entries: out }
    }

    /// The value stored under `key`, if any.
    pub fn get(&self, key: &str) -> (r: Option<&Value>)
        ensures
            match r {
                Some(v) => self.model().contains_key(key@) && self.model()[key@] == v.model(),
                None => !self.model().contains_key(key@),
            },
    {
        let mut i: usize = self.entries.len();
        while i > 0
            invariant
                i <= self.entries.len(),
                forall|j: int| i <= j < self.entries.len() ==> (#[trigger] self.entries@[j]).0@ != key@,
            decreases i,
        {
            i -= 1;
            if str_eq(self.entries[i].0.as_str(), key) {
                proof { lemma_model_last(self.entries@, i as int); }
                return Some(&self.entries[i].1);
            }
        }
        proof { lemma_model_absent(self.entries@, key@); }
        None
    }

    /// Stores `value` under `key`, replacing what was stored there.
    pub fn insert(&mut self, key: String, value: Value)
        ensures
            final(self).model() == old(self).model().insert(key@, value.model()),
    {
        let ghost before = self.entries@;
        self.entries.push((key, value));
        proof {
            assert(self.entries@.drop_last() =~= before);
        }
    }

    /// Stores every entry of `other`, replacing what was stored under its keys.
    pub fn extend(&mut self, other: &Properties)
        ensures
            final(self).model() == old(self).model().union_prefer_right(other.model()),
    {
        let ghost start = self.model();
        let mut i: usize = 0;
        assert(entries_model(other.entries@.take(0)) =~= Map::<Seq<char>, Val>::empty());
        assert(start.union_prefer_right(Map::<Seq<char>, Val>::empty()) =~= start);
        while i < other.entries.len()
            invariant
                i <= other.entries.len(),
                self.model() == start.union_prefer_right(entries_model(other.entries@.take(i as int))),
            decreases other.entries.len() - i,
        {
            let k = other.entries[i].0.clone();
            let v = other.entries[i].1.duplicate();
            proof {
                assert(other.entries@.take(i + 1).drop_last() =~= other.entries@.take(i as int));
            }
            self.insert(k, v);
            proof {
                assert(self.model() =~= start.union_prefer_right(entries_model(other.entries@.take(i + 1))));
            }
            i += 1;
        }
        assert(other.entries@.take(other.entries@.len() as int) =~= other.entries@);
    }
}

/// Whether two strings hold the same characters.
pub fn str_eq(a: &str, b: &str) -> (r: bool)
    ensures
        r == (a@ == b@),
{
    let x = String::from_str(a);
    let y = String::from_str(b);
    x == y
}

proof fn lemma_model_last(entries: Seq<(String, Value)>, i: int)
    requires
        0 <= i < entries.len(),
        forall|j: int| i < j < entries.len() ==> (#[trigger] entries[j]).0@ != entries[i].0@,
    ensures
        entries_model(entries).contains_key(entries[i].0@),
        entries_model(entries)[entries[i].0@] == entries[i].1.model(),
    decreases entries.len(),
{
    if i < entries.len() - 1 {
        let front = entries.drop_last();
        assert forall|j: int| i < j < front.len() implies (#[trigger] front[j]).0@ != front[i].0@ by {
            assert(front[j] == entries[j]);
        }
        lemma_model_last(front, i);
        assert(entries[entries.len() - 1].0@ != entries[i].0@);
    }
}

proof fn lemma_model_absent(entries: Seq<(String, Value)>, k: Seq<char>)
    requires
        forall|j: int| 0 <= j < entries.len() ==> (#[trigger] entries[j]).0@ != k,
    ensures
        !entries_model(entries).contains_key(k),
    decreases entries.len(),
{
    if entries.len() > 0 {
        lemma_model_absent(entries.drop_last(), k);
        assert(entries[entries.len() - 1].0@ != k);
    }
}

} // verus!
