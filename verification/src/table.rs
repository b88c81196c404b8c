use vstd::prelude::*;
use vstd::string::*;

verus! {

/// A small map from names to values, kept in the order in which the names
/// came. No name stands in it twice.
pub struct Table<V> {
    pub keys: Vec<String>,
    pub values: Vec<V>,
}

/// The map that the first `n` entries of a table make.
pub open spec fn entries<V>(keys: Seq<String>, values: Seq<V>, n: int) -> Map<Seq<char>, V>
    decreases n,
{
    if n <= 0 {
        Map::empty()
    } else {
        entries(keys, values, n - 1).insert(keys[n - 1]@, values[n - 1])
    }
}

/// No two of the keys are the same name.
pub open spec fn distinct(keys: Seq<String>) -> bool {
    forall|i: int, j: int| 0 <= i < j < keys.len() ==> (#[trigger] keys[i])@ != (#[trigger] keys[j])@
}

pub proof fn lemma_entries_domain<V>(keys: Seq<String>, values: Seq<V>, n: int, name: Seq<char>)
    requires
        0 <= n <= keys.len(),
        keys.len() == values.len(),
    ensures
        entries(keys, values, n).contains_key(name) <==> exists|i: int|
            0 <= i < n && (#[trigger] keys[i])@ == name,
    decreases n,
{
    if n > 0 {
        lemma_entries_domain(keys, values, n - 1, name);
        if keys[n - 1]@ == name {
        } else if entries(keys, values, n - 1).contains_key(name) {
            let i = choose|i: int| 0 <= i < n - 1 && (#[trigger] keys[i])@ == name;
            assert(keys[i]@ == name);
        } else {
        }
    }
}

pub proof fn lemma_entries_value<V>(keys: Seq<String>, values: Seq<V>, n: int, i: int)
    requires
        0 <= i < n <= keys.len(),
        keys.len() == values.len(),
        distinct(keys),
    ensures
        entries(keys, values, n).contains_key(keys[i]@),
        entries(keys, values, n)[keys[i]@] == values[i],
    decreases n,
{
    if i < n - 1 {
        lemma_entries_value(keys, values, n - 1, i);
    }
}

pub proof fn lemma_entries_update<V>(keys: Seq<String>, values: Seq<V>, n: int, i: int, value: V)
    requires
        0 <= i < keys.len(),
        0 <= n <= keys.len(),
        keys.len() == values.len(),
        distinct(keys),
    ensures
        entries(keys, values.update(i, value), n) == if i < n {
            entries(keys, values, n).insert(keys[i]@, value)
        } else {
            entries(keys, values, n)
        },
    decreases n,
{
    if n > 0 {
        lemma_entries_update(keys, values, n - 1, i, value);
        let before = entries(keys, values, n - 1);
        if i < n - 1 {
            assert(before.insert(keys[i]@, value).insert(keys[n - 1]@, values[n - 1])
                =~= before.insert(keys[n - 1]@, values[n - 1]).insert(keys[i]@, value));
        } else if i == n - 1 {
            assert(before.insert(keys[i]@, value) =~= before.insert(
                keys[n - 1]@,
                values[n - 1],
            ).insert(keys[i]@, value));
        }
    }
}

pub proof fn lemma_entries_prefix<V>(keys: Seq<String>, values: Seq<V>, keys2: Seq<String>, values2: Seq<V>, n: int)
    requires
        0 <= n <= keys.len() <= keys2.len(),
        keys.len() == values.len(),
        keys2.len() == values2.len(),
        forall|i: int| 0 <= i < n ==> keys[i] == keys2[i] && values[i] == values2[i],
    ensures
        entries(keys, values, n) == entries(keys2, values2, n),
    decreases n,
{
    if n > 0 {
        lemma_entries_prefix(keys, values, keys2, values2, n - 1);
    }
}

impl<V> View for Table<V> {
    type V = Map<Seq<char>, V>;

    open spec fn view(&self) -> Map<Seq<char>, V> {
        entries(self.keys@, self.values@, self.keys@.len() as int)
    }
}

impl<V> Table<V> {
    /// Each name has its value, and no name stands twice.
    pub open spec fn wf(&self) -> bool {
        &&& self.keys@.len() == self.values@.len()
        &&& distinct(self.keys@)
    }

    pub fn new() -> (r: Self)
        ensures
            r.wf(),
            r@ == Map::<Seq<char>, V>::empty(),
            r.keys@.len() == 0,
    {
        Table { keys: Vec::new(), values: Vec::new() }
    }

    /// The place of `name` in the table, if it is there.
    pub fn find(&self, name: &String) -> (r: Option<usize>)
        requires
            self.wf(),
        ensures
            match r {
                Some(i) => {
                    &&& i < self.keys@.len()
                    &&& self.keys@[i as int]@ == name@
                    &&& self@.contains_key(name@)
                    &&& self@[name@] == self.values@[i as int]
                },
                None => !self@.contains_key(name@),
            },
    {
        let mut i: usize = 0;
        while i < self.keys.len()
            invariant
                i <= self.keys@.len(),
                self.wf(),
                forall|j: int| 0 <= j < i ==> (#[trigger] self.keys@[j])@ != name@,
            decreases self.keys@.len() - i,
        {
            if self.keys[i] == *name {
                proof {
                    lemma_entries_value(
                        self.keys@,
                        self.values@,
                        self.keys@.len() as int,
                        i as int,
                    );
                }
                return Some(i);
            }
            i = i + 1;
        }
        proof {
            lemma_entries_domain(self.keys@, self.values@, self.keys@.len() as int, name@);
        }
        None
    }

    pub fn contains(&self, name: &String) -> (r: bool)
        requires
            self.wf(),
        ensures
            r == self@.contains_key(name@),
    {
        self.find(name).is_some()
    }

    /// Puts `value` under `name`, in place of what stood there.
    pub fn insert(&mut self, name: String, value: V)
        requires
            old(self).wf(),
        ensures
            final(self).wf(),
            final(self)@ == old(self)@.insert(name@, value),
            final(self).keys@.len() >= old(self).keys@.len(),
    {
        match self.find(&name) {
            Some(i) => {
                proof {
                    lemma_entries_update(
                        self.keys@,
                        self.values@,
                        self.keys@.len() as int,
                        i as int,
                        value,
                    );
                }
                self.values.set(i, value);
            },
            None => {
                proof {
                    lemma_entries_domain(self.keys@, self.values@, self.keys@.len() as int, name@);
                    lemma_entries_prefix(
                        self.keys@,
                        self.values@,
                        self.keys@.push(name),
                        self.values@.push(value),
                        self.keys@.len() as int,
                    );
                }
                self.keys.push(name);
                self.values.push(value);
            },
        }
    }
}

} // verus!
