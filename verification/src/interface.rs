use vstd::prelude::*;

verus! {

/// A value that can be copied into an equal, independent value.
pub trait Duplicate: View + Sized {
    fn duplicate(&self) -> (r: Self)
        ensures
            r@ == self@,
    ;
}

/// A parameter of an interface function: its name and its type.
#[derive(Debug, Clone, Default)]
pub struct FunctionParam {
    pub param_name: String,
    pub param_type: String,
}

/// The value of a [`FunctionParam`].
pub struct SpecParam {
    pub name: Seq<char>,
    pub ty: Seq<char>,
}

impl View for FunctionParam {
    type V = SpecParam;

    open spec fn view(&self) -> SpecParam {
        SpecParam { name: self.param_name@, ty: self.param_type@ }
    }
}

impl Duplicate for FunctionParam {
    fn duplicate(&self) -> (r: Self) {
        FunctionParam { param_name: self.param_name.clone(), param_type: self.param_type.clone() }
    }
}

/// A function of an interface class: whether it is `async`, its parameters
/// and its result types.
#[derive(Debug, Clone)]
pub struct Function {
    pub is_async: bool,
    pub input: Vec<FunctionParam>,
    pub output: Vec<String>,
}

/// The value of a [`Function`].
pub struct SpecFunction {
    pub is_async: bool,
    pub input: Seq<SpecParam>,
    pub output: Seq<Seq<char>>,
}

/// The values of a sequence of parameters.
pub open spec fn params_view(ps: Seq<FunctionParam>) -> Seq<SpecParam> {
    ps.map_values(|p: FunctionParam| p@)
}

/// The values of a sequence of strings.
pub open spec fn strings_view(ss: Seq<String>) -> Seq<Seq<char>> {
    ss.map_values(|s: String| s@)
}

impl View for Function {
    type V = SpecFunction;

    open spec fn view(&self) -> SpecFunction {
        SpecFunction {
            is_async: self.is_async,
            input: params_view(self.input@),
            output: strings_view(self.output@),
        }
    }
}

/// Copies a list of parameters.
pub fn duplicate_params(ps: &Vec<FunctionParam>) -> (r: Vec<FunctionParam>)
    ensures
        params_view(r@) == params_view(ps@),
{
    let mut r: Vec<FunctionParam> = Vec::new();
    for i in 0..ps.len()
        invariant
            r@.len() == i,
            params_view(r@) == params_view(ps@).take(i as int),
    {
        let ghost before = r@;
        r.push(ps[i].duplicate());
        assert forall|j: int| 0 <= j < i implies #[trigger] params_view(r@)[j] == params_view(ps@)[j] by {
            assert(r@[j] == before[j]);
            assert(params_view(before)[j] == params_view(ps@).take(i as int)[j]);
        }
        assert(params_view(r@) =~= params_view(ps@).take(i + 1));
    }
    assert(params_view(ps@).take(ps@.len() as int) =~= params_view(ps@));
    r
}

/// Copies a list of strings.
pub fn duplicate_strings(ss: &Vec<String>) -> (r: Vec<String>)
    ensures
        strings_view(r@) == strings_view(ss@),
{
    let mut r: Vec<String> = Vec::new();
    for i in 0..ss.len()
        invariant
            r@.len() == i,
            strings_view(r@) == strings_view(ss@).take(i as int),
    {
        let ghost before = r@;
        r.push(ss[i].clone());
        assert forall|j: int| 0 <= j < i implies #[trigger] strings_view(r@)[j] == strings_view(ss@)[j] by {
            assert(r@[j] == before[j]);
            assert(strings_view(before)[j] == strings_view(ss@).take(i as int)[j]);
        }
        assert(strings_view(r@) =~= strings_view(ss@).take(i + 1));
    }
    assert(strings_view(ss@).take(ss@.len() as int) =~= strings_view(ss@));
    r
}

impl Duplicate for Function {
    fn duplicate(&self) -> (r: Self) {
        Function {
            is_async: self.is_async,
            input: duplicate_params(&self.input),
            output: duplicate_strings(&self.output),
        }
    }
}

/// A map from names to values, held as a list of entries with distinct names.
#[derive(Debug)]
pub struct StringMap<V: View> {
    entries: Vec<(String, V)>,
}

/// The map that a list of entries stands for; a later entry for a name
/// overrides an earlier one.
pub open spec fn entries_map<V: View>(es: Seq<(String, V)>) -> Map<Seq<char>, V::V>
    decreases es.len(),
{
    if es.len() == 0 {
        Map::empty()
    } else {
        entries_map(es.drop_last()).insert(es.last().0@, es.last().1@)
    }
}

/// No name occurs twice in a list of entries.
pub open spec fn names_unique<V>(es: Seq<(String, V)>) -> bool {
    forall|i: int, j: int|
        0 <= i < es.len() && 0 <= j < es.len() && i != j ==> #[trigger] es[i].0@ != #[trigger] es[j].0@
}

proof fn lemma_entries_map_dom<V: View>(es: Seq<(String, V)>, k: Seq<char>)
    ensures
        entries_map(es).dom().contains(k) <==> exists|i: int| 0 <= i < es.len() && #[trigger] es[i].0@ == k,
    decreases es.len(),
{
    if es.len() > 0 {
        lemma_entries_map_dom(es.drop_last(), k);
        if entries_map(es).dom().contains(k) && k != es.last().0@ {
            let i = choose|i: int| 0 <= i < es.drop_last().len() && #[trigger] es.drop_last()[i].0@ == k;
            assert(es[i].0@ == k);
        }
        if exists|i: int| 0 <= i < es.len() && #[trigger] es[i].0@ == k {
            let i = choose|i: int| 0 <= i < es.len() && #[trigger] es[i].0@ == k;
            if i < es.len() - 1 {
                assert(es.drop_last()[i].0@ == k);
            }
        }
    }
}

proof fn lemma_entries_map_lookup<V: View>(es: Seq<(String, V)>, i: int)
    requires
        names_unique(es),
        0 <= i < es.len(),
    ensures
        entries_map(es).dom().contains(es[i].0@),
        entries_map(es)[es[i].0@] == es[i].1@,
    decreases es.len(),
{
    if i < es.len() - 1 {
        let d = es.drop_last();
        assert(d[i] == es[i]);
        assert(names_unique(d)) by {
            assert forall|a: int, b: int|
                0 <= a < d.len() && 0 <= b < d.len() && a != b implies #[trigger] d[a].0@ != #[trigger] d[b].0@ by {
                assert(d[a] == es[a] && d[b] == es[b]);
            }
        }
        lemma_entries_map_lookup(d, i);
        assert(es[i].0@ != es[es.len() - 1].0@);
    }
}

proof fn lemma_names_unique_drop_last<V>(es: Seq<(String, V)>)
    requires
        names_unique(es),
        es.len() > 0,
    ensures
        names_unique(es.drop_last()),
{
    let d = es.drop_last();
    assert forall|a: int, b: int| 0 <= a < d.len() && 0 <= b < d.len() && a != b implies #[trigger] d[a].0@
        != #[trigger] d[b].0@ by {
        assert(d[a] == es[a] && d[b] == es[b]);
    }
}

proof fn lemma_entries_map_update<V: View>(es: Seq<(String, V)>, i: int, e: (String, V))
    requires
        names_unique(es),
        0 <= i < es.len(),
        e.0@ == es[i].0@,
    ensures
        entries_map(es.update(i, e)) == entries_map(es).insert(e.0@, e.1@),
    decreases es.len(),
{
    let u = es.update(i, e);
    if i == es.len() - 1 {
        assert(u.drop_last() =~= es.drop_last());
        assert(entries_map(u) =~= entries_map(es).insert(e.0@, e.1@));
    } else {
        lemma_names_unique_drop_last(es);
        lemma_entries_map_update(es.drop_last(), i, e);
        assert(u.drop_last() =~= es.drop_last().update(i, e));
        assert(es.last().0@ != e.0@);
        assert(entries_map(u) =~= entries_map(es).insert(e.0@, e.1@));
    }
}

impl<V: View> View for StringMap<V> {
    type V = Map<Seq<char>, V::V>;

    closed spec fn view(&self) -> Map<Seq<char>, V::V> {
        entries_map(self.entries@)
    }
}

impl<V: View> StringMap<V> {
    #[verifier::type_invariant]
    spec fn names_are_unique(self) -> bool {
        names_unique(self.entries@)
    }

    /// An empty map.
    pub fn new() -> (m: Self)
        ensures
            m@ == Map::<Seq<char>, V::V>::empty(),
    {
        StringMap { entries: Vec::new() }
    }

    /// Whether the map has no entry.
    pub fn is_empty(&self) -> (r: bool)
        ensures
            r == (self@ == Map::<Seq<char>, V::V>::empty()),
    {
        proof {
            if self.entries@.len() > 0 {
                let k = self.entries@.last().0@;
                lemma_entries_map_dom(self.entries@, k);
                assert(self.entries@[self.entries@.len() - 1].0@ == k);
                assert(self@.dom().contains(k));
            }
        }
        self.entries.len() == 0
    }

    /// The number of names in the map.
    pub fn len(&self) -> (r: usize)
        ensures
            r == self@.dom().len(),
    {
        proof {
            use_type_invariant(self);
            lemma_entries_map_len(self.entries@);
        }
        self.entries.len()
    }

    fn find(&self, name: &String) -> (r: Option<usize>)
        ensures
            match r {
                Some(i) => i < self.entries@.len() && self.entries@[i as int].0@ == name@,
                None => forall|i: int| 0 <= i < self.entries@.len() ==> #[trigger] self.entries@[i].0@ != name@,
            },
    {
        let mut i: usize = 0;
        while i < self.entries.len()
            invariant
                i <= self.entries@.len(),
                forall|j: int| 0 <= j < i ==> #[trigger] self.entries@[j].0@ != name@,
            decreases self.entries@.len() - i,
        {
            if self.entries[i].0 == *name {
                return Some(i);
            }
            i = i + 1;
        }
        None
    }

    /// The value of `name`, if the map has it.
    pub fn get(&self, name: &String) -> (r: Option<&V>)
        ensures
            match r {
                Some(v) => self@.dom().contains(name@) && self@[name@] == v@,
                None => !self@.dom().contains(name@),
            },
    {
        proof {
            use_type_invariant(self);
            lemma_entries_map_dom(self.entries@, name@);
        }
        match self.find(name) {
            Some(i) => {
                proof {
                    lemma_entries_map_lookup(self.entries@, i as int);
                }
                Some(&self.entries[i].1)
            },
            None => None,
        }
    }

    /// The names of the map, each once; their order is left open.
    pub fn names(&self) -> (r: Vec<String>)
        ensures
            r@.len() == self@.dom().len(),
            forall|i: int, j: int|
                0 <= i < r@.len() && 0 <= j < r@.len() && i != j ==> #[trigger] r@[i]@ != #[trigger] r@[j]@,
            forall|k: Seq<char>| #[trigger]
                self@.dom().contains(k) <==> exists|i: int| 0 <= i < r@.len() && #[trigger] r@[i]@ == k,
    {
        proof {
            use_type_invariant(self);
            lemma_entries_map_len(self.entries@);
        }
        let mut r: Vec<String> = Vec::new();
        for i in 0..self.entries.len()
            invariant
                r@.len() == i,
                forall|j: int| 0 <= j < i ==> #[trigger] r@[j]@ == self.entries@[j].0@,
        {
            r.push(self.entries[i].0.clone());
        }
        assert forall|k: Seq<char>| #[trigger]
            self@.dom().contains(k) <==> exists|i: int| 0 <= i < r@.len() && #[trigger] r@[i]@ == k by {
            lemma_entries_map_dom(self.entries@, k);
            if exists|i: int| 0 <= i < r@.len() && #[trigger] r@[i]@ == k {
                let i = choose|i: int| 0 <= i < r@.len() && #[trigger] r@[i]@ == k;
                assert(self.entries@[i].0@ == k);
            }
            if self@.dom().contains(k) {
                let i = choose|i: int| 0 <= i < self.entries@.len() && #[trigger] self.entries@[i].0@ == k;
                assert(r@[i]@ == k);
            }
        }
        r
    }

    /// Sets the value of `name` to `value`, replacing any earlier value.
    pub fn insert(&mut self, name: String, value: V)
        ensures
            final(self)@ == old(self)@.insert(name@, value@),
    {
        proof {
            use_type_invariant(&*self);
        }
        match self.find(&name) {
            Some(i) => {
                let ghost old_entries = self.entries@;
                let ghost k = name@;
                let ghost vv = value@;
                let mut entries = Vec::new();
                std::mem::swap(&mut entries, &mut self.entries);
                proof {
                    lemma_entries_map_update(old_entries, i as int, (name, value));
                }
                entries.set(i, (name, value));
                assert(entries@ == old_entries.update(i as int, (name, value)));
                assert(names_unique(entries@)) by {
                    assert forall|a: int, b: int|
                        0 <= a < entries@.len() && 0 <= b < entries@.len() && a != b implies #[trigger] entries@[a].0@
                        != #[trigger] entries@[b].0@ by {
                        assert(old_entries[a].0@ == entries@[a].0@);
                        assert(old_entries[b].0@ == entries@[b].0@);
                    }
                }
                self.entries = entries;
            },
            None => {
                let ghost old_entries = self.entries@;
                let mut entries = Vec::new();
                std::mem::swap(&mut entries, &mut self.entries);
                entries.push((name, value));
                assert(entries@.drop_last() =~= old_entries);
                assert(names_unique(entries@)) by {
                    assert forall|a: int, b: int|
                        0 <= a < entries@.len() && 0 <= b < entries@.len() && a != b implies #[trigger] entries@[a].0@
                        != #[trigger] entries@[b].0@ by {
                        if a < old_entries.len() {
                            assert(entries@[a] == old_entries[a]);
                        }
                        if b < old_entries.len() {
                            assert(entries@[b] == old_entries[b]);
                        }
                    }
                }
                self.entries = entries;
            },
        }
    }
}

proof fn lemma_entries_map_len<V: View>(es: Seq<(String, V)>)
    requires
        names_unique(es),
    ensures
        entries_map(es).dom().finite(),
        entries_map(es).dom().len() == es.len(),
    decreases es.len(),
{
    if es.len() > 0 {
        lemma_names_unique_drop_last(es);
        lemma_entries_map_len(es.drop_last());
        lemma_entries_map_dom(es.drop_last(), es.last().0@);
        if entries_map(es.drop_last()).dom().contains(es.last().0@) {
            let i = choose|i: int|
                0 <= i < es.drop_last().len() && #[trigger] es.drop_last()[i].0@ == es.last().0@;
            assert(es[i].0@ == es[es.len() - 1].0@);
        }
    }
}

impl<V: View + Duplicate> Duplicate for StringMap<V> {
    fn duplicate(&self) -> (r: Self) {
        proof {
            use_type_invariant(self);
        }
        let mut entries: Vec<(String, V)> = Vec::new();
        for i in 0..self.entries.len()
            invariant
                entries@.len() == i,
                names_unique(self.entries@),
                forall|j: int| 0 <= j < i ==> (#[trigger] entries@[j]).0@ == self.entries@[j].0@,
                forall|j: int| 0 <= j < i ==> (#[trigger] entries@[j]).1@ == self.entries@[j].1@,
                entries_map(entries@) == entries_map(self.entries@.take(i as int)),
        {
            let name = self.entries[i].0.clone();
            let value = self.entries[i].1.duplicate();
            let ghost before = entries@;
            entries.push((name, value));
            assert(entries@.drop_last() =~= before);
            assert forall|j: int| 0 <= j < i + 1 implies (#[trigger] entries@[j]).0@ == self.entries@[j].0@
                && entries@[j].1@ == self.entries@[j].1@ by {
                if j < i {
                    assert(entries@[j] == before[j]);
                }
            }
            assert(self.entries@.take(i + 1).drop_last() =~= self.entries@.take(i as int));
        }
        assert(self.entries@.take(self.entries@.len() as int) =~= self.entries@);
        assert(names_unique(entries@)) by {
            assert forall|a: int, b: int|
                0 <= a < entries@.len() && 0 <= b < entries@.len() && a != b implies #[trigger] entries@[a].0@
                != #[trigger] entries@[b].0@ by {
                assert(entries@[a].0@ == self.entries@[a].0@);
                assert(entries@[b].0@ == self.entries@[b].0@);
            }
        }
        let r = StringMap { entries };
        r
    }
}

} // verus!
