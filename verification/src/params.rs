use vstd::prelude::*;

verus! {

/// A list of pairs of strings, as pairs of character sequences.
pub open spec fn pairs_view(pairs: Seq<(String, String)>) -> Seq<(Seq<char>, Seq<char>)> {
    pairs.map_values(|pair: (String, String)| (pair.0@, pair.1@))
}

/// The map that a list of pairs builds when each pair in turn binds its name
/// to its value, a later pair replacing an earlier one of the same name.
pub open spec fn bindings(pairs: Seq<(Seq<char>, Seq<char>)>) -> Map<Seq<char>, Seq<char>>
    decreases pairs.len(),
{
    if pairs.len() == 0 {
        Map::empty()
    } else {
        bindings(pairs.drop_last()).insert(pairs.last().0, pairs.last().1)
    }
}

/// Whether no two pairs of the list have the same name.
pub open spec fn distinct_names(pairs: Seq<(Seq<char>, Seq<char>)>) -> bool {
    forall|i: int, j: int| 0 <= i < j < pairs.len() ==> (#[trigger] pairs[i]).0 != (#[trigger] pairs[j]).0
}

/// The names that `bindings` binds are the names of the pairs.
pub proof fn lemma_bindings_names(pairs: Seq<(Seq<char>, Seq<char>)>, name: Seq<char>)
    ensures
        bindings(pairs).contains_key(name) <==> exists|i: int|
            0 <= i < pairs.len() && (#[trigger] pairs[i]).0 == name,
    decreases pairs.len(),
{
    if pairs.len() > 0 {
        let front = pairs.drop_last();
        lemma_bindings_names(front, name);
        if bindings(pairs).contains_key(name) {
            if pairs.last().0 == name {
                assert(pairs[pairs.len() - 1].0 == name);
            } else {
                let i = choose|i: int| 0 <= i < front.len() && (#[trigger] front[i]).0 == name;
                assert(pairs[i].0 == name);
            }
        }
        if exists|i: int| 0 <= i < pairs.len() && (#[trigger] pairs[i]).0 == name {
            let i = choose|i: int| 0 <= i < pairs.len() && (#[trigger] pairs[i]).0 == name;
            if i < front.len() {
                assert(front[i].0 == name);
            }
        }
    }
}

/// The bindings of a list are finitely many: at most one for each pair.
pub proof fn lemma_bindings_finite(pairs: Seq<(Seq<char>, Seq<char>)>)
    ensures
        bindings(pairs).dom().finite(),
        bindings(pairs).dom().len() <= pairs.len(),
    decreases pairs.len(),
{
    if pairs.len() > 0 {
        lemma_bindings_finite(pairs.drop_last());
    }
}

/// Where the names are distinct, each pair is bound as it stands, and there
/// are as many bindings as pairs.
pub proof fn lemma_bindings_of_distinct(pairs: Seq<(Seq<char>, Seq<char>)>)
    requires
        distinct_names(pairs),
    ensures
        bindings(pairs).dom().len() == pairs.len(),
        forall|i: int| 0 <= i < pairs.len() ==> bindings(pairs)[(#[trigger] pairs[i]).0] == pairs[i].1,
    decreases pairs.len(),
{
    if pairs.len() > 0 {
        let front = pairs.drop_last();
        assert forall|i: int, j: int| 0 <= i < j < front.len() implies (#[trigger] front[i]).0 != (
        #[trigger] front[j]).0 by {
            assert(pairs[i].0 != pairs[j].0);
        }
        lemma_bindings_of_distinct(front);
        lemma_bindings_finite(front);
        lemma_bindings_names(front, pairs.last().0);
        if bindings(front).contains_key(pairs.last().0) {
            let i = choose|i: int| 0 <= i < front.len() && (#[trigger] front[i]).0 == pairs.last().0;
            assert(pairs[i].0 != pairs[pairs.len() - 1].0);
        }
        assert forall|i: int| 0 <= i < pairs.len() implies bindings(pairs)[(#[trigger] pairs[i]).0]
            == pairs[i].1 by {
            if i < front.len() {
                assert(front[i] == pairs[i]);
                assert(pairs[i].0 != pairs[pairs.len() - 1].0);
            }
        }
    }
}

/// The named parameters that a pattern captured from a path: a finite map from
/// parameter name to captured text.
#[derive(Debug)]
pub struct Params {
    entries: Vec<(String, String)>,
}

impl View for Params {
    type V = Map<Seq<char>, Seq<char>>;

    closed spec fn view(&self) -> Map<Seq<char>, Seq<char>> {
        bindings(self.pairs())
    }
}

impl Params {
    /// The entries as pairs of characters, in the order in which they are kept.
    pub closed spec fn pairs(&self) -> Seq<(Seq<char>, Seq<char>)> {
        pairs_view(self.entries@)
    }

    #[verifier::type_invariant]
    spec fn names_are_distinct(&self) -> bool {
        distinct_names(self.pairs())
    }

    /// No parameters.
    pub fn new() -> (params: Params)
        ensures
            params@ == Map::<Seq<char>, Seq<char>>::empty(),
    {
        Params { entries: Vec::new() }
    }

    /// The position of the entry named `name`, if there is one.
    fn position(&self, name: &String) -> (at: Option<usize>)
        ensures
            match at {
                Some(i) => i < self.pairs().len() && self.pairs()[i as int].0 == name@,
                None => forall|j: int| 0 <= j < self.pairs().len() ==> (#[trigger] self.pairs()[j]).0 != name@,
            },
    {
        let mut i: usize = 0;
        while i < self.entries.len()
            invariant
                i <= self.entries.len(),
                self.pairs().len() == self.entries.len(),
                forall|j: int| 0 <= j < i ==> (#[trigger] self.pairs()[j]).0 != name@,
            decreases self.entries.len() - i,
        {
            if self.entries[i].0 == *name {
                return Some(i);
            }
            i += 1;
        }
        None
    }

    /// How many parameters there are.
    pub fn len(&self) -> (n: usize)
        ensures
            self@.dom().finite(),
            n == self@.len(),
    {
        proof {
            use_type_invariant(self);
            lemma_bindings_finite(self.pairs());
            lemma_bindings_of_distinct(self.pairs());
        }
        self.entries.len()
    }

    /// Whether there is no parameter.
    pub fn is_empty(&self) -> (empty: bool)
        ensures
            empty == (self@ == Map::<Seq<char>, Seq<char>>::empty()),
    {
        proof {
            if self.pairs().len() > 0 {
                assert(self@.contains_key(self.pairs().last().0));
            }
            assert(self.pairs().len() == 0 ==> self@ =~= Map::<Seq<char>, Seq<char>>::empty());
        }
        self.entries.len() == 0
    }

    /// Whether a parameter is named `name`.
    pub fn contains_key(&self, name: &str) -> (found: bool)
        ensures
            found == self@.contains_key(name@),
    {
        let name = String::from_str(name);
        proof {
            lemma_bindings_names(self.pairs(), name@);
        }
        self.position(&name).is_some()
    }

    /// The text captured under `name`, if a parameter has that name.
    pub fn get(&self, name: &str) -> (value: Option<&String>)
        ensures
            match value {
                Some(text) => self@.contains_key(name@) && self@[name@] == text@,
                None => !self@.contains_key(name@),
            },
    {
        let name = String::from_str(name);
        proof {
            use_type_invariant(self);
            lemma_bindings_names(self.pairs(), name@);
            lemma_bindings_of_distinct(self.pairs());
        }
        match self.position(&name) {
            Some(i) => Some(&self.entries[i].1),
            None => None,
        }
    }

    /// The parameters as pairs of name and value, each name once.
    pub fn entries(&self) -> (entries: &Vec<(String, String)>)
        ensures
            distinct_names(pairs_view(entries@)),
            bindings(pairs_view(entries@)) == self@,
    {
        proof {
            use_type_invariant(self);
        }
        &self.entries
    }

    /// Binds `name` to `value`, in place of what `name` was bound to before.
    pub fn insert(&mut self, name: String, value: String)
        ensures
            final(self)@ == old(self)@.insert(name@, value@),
    {
        proof {
            use_type_invariant(&*self);
        }
        let at = self.position(&name);
        let ghost before = self.pairs();
        let ghost pair = (name@, value@);
        let mut entries: Vec<(String, String)> = Vec::new();
        std::mem::swap(&mut entries, &mut self.entries);
        match at {
            Some(i) => {
                entries.set(i, (name, value));
                proof {
                    let after = before.update(i as int, pair);
                    assert(pairs_view(entries@) =~= after);
                    lemma_update_binding(before, i as int, pair.1);
                }
            },
            None => {
                entries.push((name, value));
                proof {
                    let after = before.push(pair);
                    assert(pairs_view(entries@) =~= after);
                    assert(after.drop_last() =~= before);
                    assert forall|i: int, j: int| 0 <= i < j < after.len() implies (#[trigger] after[i]).0
                        != (#[trigger] after[j]).0 by {
                        assert(before[i].0 != pair.0);
                        if j < before.len() {
                            assert(before[i].0 != before[j].0);
                        }
                    }
                }
            },
        }
        self.entries = entries;
    }
}

/// Replacing the value of one pair of a list with distinct names rebinds that
/// pair's name and leaves the names distinct.
proof fn lemma_update_binding(pairs: Seq<(Seq<char>, Seq<char>)>, at: int, value: Seq<char>)
    requires
        distinct_names(pairs),
        0 <= at < pairs.len(),
    ensures
        distinct_names(pairs.update(at, (pairs[at].0, value))),
        bindings(pairs.update(at, (pairs[at].0, value))) == bindings(pairs).insert(pairs[at].0, value),
{
    let name = pairs[at].0;
    let after = pairs.update(at, (name, value));
    assert forall|i: int, j: int| 0 <= i < j < after.len() implies (#[trigger] after[i]).0 != (
    #[trigger] after[j]).0 by {
        assert(pairs[i].0 != pairs[j].0);
    }
    lemma_bindings_of_distinct(pairs);
    lemma_bindings_of_distinct(after);
    assert forall|k: Seq<char>|
        bindings(after).contains_key(k) <==> bindings(pairs).insert(name, value).contains_key(k) by {
        lemma_bindings_names(pairs, k);
        lemma_bindings_names(after, k);
        if bindings(after).contains_key(k) {
            let i = choose|i: int| 0 <= i < after.len() && (#[trigger] after[i]).0 == k;
            assert(pairs[i].0 == k);
        }
        if bindings(pairs).contains_key(k) {
            let i = choose|i: int| 0 <= i < pairs.len() && (#[trigger] pairs[i]).0 == k;
            assert(after[i].0 == k);
        }
        if k == name {
            assert(after[at].0 == k);
        }
    }
    assert forall|k: Seq<char>| bindings(after).contains_key(k) implies bindings(after)[k]
        == bindings(pairs).insert(name, value)[k] by {
        lemma_bindings_names(after, k);
        let i = choose|i: int| 0 <= i < after.len() && (#[trigger] after[i]).0 == k;
        assert(bindings(after)[after[i].0] == after[i].1);
        if i != at {
            assert(pairs[i].0 != pairs[at].0);
            assert(bindings(pairs)[pairs[i].0] == pairs[i].1);
        }
    }
    assert(bindings(after) =~= bindings(pairs).insert(name, value));
}

} // verus!
