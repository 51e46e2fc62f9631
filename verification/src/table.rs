use vstd::prelude::*;
use crate::text::str_eq;
use crate::var::Var;

verus! {

/// A name bound to an object.
pub struct Entry {
    pub key: String,
    pub var: Var,
}

/// The object bound to `name` in a table of entries, if any (the last binding wins).
pub open spec fn table_get(t: Seq<Entry>, name: Seq<char>) -> Option<Var>
    decreases t.len(),
{
    if t.len() == 0 {
        None
    } else if t.last().key@ == name {
        Some(t.last().var)
    } else {
        table_get(t.drop_last(), name)
    }
}

/// No name is bound twice.
pub open spec fn table_unique(t: Seq<Entry>) -> bool {
    forall|i: int, j: int| 0 <= i < j < t.len() ==> t[i].key@ != t[j].key@
}

/// The objects a table binds, in order.
pub open spec fn table_vars(t: Seq<Entry>) -> Seq<Var> {
    t.map_values(|e: Entry| e.var)
}

pub proof fn lemma_table_get_index(t: Seq<Entry>, name: Seq<char>)
    requires
        table_unique(t),
    ensures
        table_get(t, name) is None <==> (forall|i: int| 0 <= i < t.len() ==> t[i].key@ != name),
        forall|i: int| 0 <= i < t.len() && t[i].key@ == name ==> table_get(t, name) == Some(t[i].var),
    decreases t.len(),
{
    if t.len() > 0 {
        let u = t.drop_last();
        assert(table_unique(u));
        lemma_table_get_index(u, name);
        assert forall|i: int| 0 <= i < t.len() && t[i].key@ == name implies table_get(t, name) == Some(t[i].var) by {
            if i < t.len() - 1 {
                assert(t[i].key@ != t[t.len() - 1].key@);
                assert(u[i] == t[i]);
            }
        }
        if table_get(t, name) is None {
            assert forall|i: int| 0 <= i < t.len() implies t[i].key@ != name by {
                if i < t.len() - 1 { assert(u[i] == t[i]); }
            }
        }
    }
}

/// Position of `name` in the table.
pub fn table_find(t: &Vec<Entry>, name: &str) -> (res: Option<usize>)
    ensures
        match res {
            Some(i) => i < t@.len() && t@[i as int].key@ == name@,
            None => forall|k: int| 0 <= k < t@.len() ==> t@[k].key@ != name@,
        },
{
    let mut i: usize = 0;
    while i < t.len()
        invariant
            i <= t@.len(),
            forall|k: int| 0 <= k < i ==> t@[k].key@ != name@,
        decreases t@.len() - i,
    {
        if str_eq(t[i].key.as_str(), name) {
            return Some(i);
        }
        i = i + 1;
    }
    None
}

/// The object bound to `name`.
pub fn table_lookup(t: &Vec<Entry>, name: &str) -> (res: Option<Var>)
    requires
        table_unique(t@),
    ensures
        res == table_get(t@, name@),
{
    proof { lemma_table_get_index(t@, name@); }
    match table_find(t, name) {
        Some(i) => Some(t[i].var),
        None => None,
    }
}

/// Binds `name` to `var`, replacing an earlier binding of the same name in place.
pub fn table_insert(t: &mut Vec<Entry>, name: &str, var: Var)
    requires
        table_unique(old(t)@),
    ensures
        table_unique(final(t)@),
        forall|n: Seq<char>| table_get(final(t)@, n) == if n == name@ { Some(var) } else { table_get(old(t)@, n) },
        match table_find_spec(old(t)@, name@) {
            Some(i) => final(t)@ == old(t)@.update(i, Entry { key: old(t)@[i].key, var }),
            None => final(t)@.len() == old(t)@.len() + 1 && final(t)@.drop_last() == old(t)@
                && final(t)@.last().key@ == name@ && final(t)@.last().var == var,
        },
{
    proof { lemma_table_get_index(t@, name@); }
    match table_find(t, name) {
        Some(i) => {
            proof { lemma_table_find_spec(t@, name@, i as int); }
            let key = t[i].key.clone();
            t.set(i, Entry { key, var });
            proof {
                assert(table_unique(t@)) by {
                    assert forall|a: int, b: int| 0 <= a < b < t@.len() implies t@[a].key@ != t@[b].key@ by {
                        assert(t@[a].key@ == old(t)@[a].key@);
                        assert(t@[b].key@ == old(t)@[b].key@);
                    }
                }
                assert forall|n: Seq<char>| table_get(t@, n) == if n == name@ { Some(var) } else { table_get(old(t)@, n) } by {
                    lemma_table_get_index(t@, n);
                    lemma_table_get_index(old(t)@, n);
                    if n == name@ {
                        assert(t@[i as int].key@ == n);
                    } else {
                        if table_get(old(t)@, n) is None {
                            assert forall|k: int| 0 <= k < t@.len() implies t@[k].key@ != n by {
                                assert(t@[k].key@ == old(t)@[k].key@);
                            }
                        } else {
                            let k = choose|k: int| 0 <= k < old(t)@.len() && old(t)@[k].key@ == n;
                            assert(k != i as int);
                            assert(t@[k] == old(t)@[k]);
                        }
                    }
                }
            }
        },
        None => {
            proof { lemma_table_find_spec_none(t@, name@); }
            t.push(Entry { key: name.to_owned(), var });
            proof {
                assert(t@.drop_last() =~= old(t)@);
                assert forall|n: Seq<char>| table_get(t@, n) == if n == name@ { Some(var) } else { table_get(old(t)@, n) } by {}
            }
        },
    }
}

/// Index of the binding of `name`, if any.
pub open spec fn table_find_spec(t: Seq<Entry>, name: Seq<char>) -> Option<int> {
    if exists|i: int| 0 <= i < t.len() && t[i].key@ == name {
        Some(choose|i: int| 0 <= i < t.len() && t[i].key@ == name)
    } else {
        None
    }
}

proof fn lemma_table_find_spec(t: Seq<Entry>, name: Seq<char>, i: int)
    requires
        table_unique(t),
        0 <= i < t.len(),
        t[i].key@ == name,
    ensures
        table_find_spec(t, name) == Some(i),
{
    let j = choose|j: int| 0 <= j < t.len() && t[j].key@ == name;
    if j != i {
        if j < i { assert(t[j].key@ != t[i].key@); } else { assert(t[i].key@ != t[j].key@); }
    }
}

proof fn lemma_table_find_spec_none(t: Seq<Entry>, name: Seq<char>)
    requires
        forall|k: int| 0 <= k < t.len() ==> t[k].key@ != name,
    ensures
        table_find_spec(t, name) is None,
{
}

} // verus!
