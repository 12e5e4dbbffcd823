//! Association lists keyed by symbols: the storage behind name-indexed tables.
use crate::symbol::Symbol;
use vstd::prelude::*;

verus! {

/// The map an association list stands for, a later entry for a name shadowing an earlier one.
pub open spec fn assoc_map<V>(s: Seq<(Symbol, V)>) -> Map<Seq<char>, V>
    decreases s.len(),
{
    if s.len() == 0 {
        Map::empty()
    } else {
        assoc_map(s.drop_last()).insert(s.last().0@, s.last().1)
    }
}

/// No name occurs twice in the list.
pub open spec fn assoc_distinct<V>(s: Seq<(Symbol, V)>) -> bool {
    forall|i: int, j: int| 0 <= i < j < s.len() ==> s[i].0@ != s[j].0@
}

pub proof fn lemma_assoc_absent<V>(s: Seq<(Symbol, V)>, j: int, key: Seq<char>)
    requires
        0 <= j <= s.len(),
        forall|k: int| j <= k < s.len() ==> s[k].0@ != key,
    ensures
        assoc_map(s).contains_key(key) == assoc_map(s.take(j)).contains_key(key),
        assoc_map(s)[key] == assoc_map(s.take(j))[key],
    decreases s.len(),
{
    if s.len() > j {
        lemma_assoc_absent(s.drop_last(), j, key);
        assert(s.drop_last().take(j) =~= s.take(j));
    } else {
        assert(s.take(j) =~= s);
    }
}

pub proof fn lemma_assoc_found<V>(s: Seq<(Symbol, V)>, j: int, key: Seq<char>)
    requires
        0 <= j < s.len(),
        s[j].0@ == key,
        forall|k: int| j < k < s.len() ==> s[k].0@ != key,
    ensures
        assoc_map(s).contains_key(key),
        assoc_map(s)[key] == s[j].1,
{
    lemma_assoc_absent(s, j + 1, key);
    assert(s.take(j + 1).drop_last() =~= s.take(j));
}

/// The keys of the map are the names in the list.
pub proof fn lemma_assoc_keys<V>(s: Seq<(Symbol, V)>, key: Seq<char>)
    ensures
        assoc_map(s).contains_key(key) <==> exists|i: int| 0 <= i < s.len() && s[i].0@ == key,
    decreases s.len(),
{
    if s.len() > 0 {
        lemma_assoc_keys(s.drop_last(), key);
        if exists|i: int| 0 <= i < s.len() && s[i].0@ == key {
            let i = choose|i: int| 0 <= i < s.len() && s[i].0@ == key;
            if i < s.len() - 1 {
                assert(s.drop_last()[i].0@ == key);
            }
        }
        if exists|i: int| 0 <= i < s.len() - 1 && s.drop_last()[i].0@ == key {
            let i = choose|i: int| 0 <= i < s.len() - 1 && s.drop_last()[i].0@ == key;
            assert(s[i].0@ == key);
        }
    }
}

/// Replacing the entry of a name that occurs once replaces its binding.
pub proof fn lemma_assoc_update<V>(s: Seq<(Symbol, V)>, j: int, name: Symbol, v: V)
    requires
        0 <= j < s.len(),
        s[j].0@ == name@,
        assoc_distinct(s),
    ensures
        assoc_map(s.update(j, (name, v))) == assoc_map(s).insert(name@, v),
        assoc_distinct(s.update(j, (name, v))),
    decreases s.len(),
{
    let u = s.update(j, (name, v));
    if j == s.len() - 1 {
        assert(u.drop_last() =~= s.drop_last());
        assert(assoc_map(u) =~= assoc_map(s).insert(name@, v));
    } else {
        lemma_assoc_update(s.drop_last(), j, name, v);
        assert(u.drop_last() =~= s.drop_last().update(j, (name, v)));
        assert(s.last().0@ != name@);
        assert(assoc_map(u) =~= assoc_map(s).insert(name@, v));
    }
}

/// Index of the last entry named `name`, if any.
pub fn assoc_find<V>(s: &Vec<(Symbol, V)>, name: &Symbol) -> (r: Option<usize>)
    ensures
        r is Some <==> assoc_map(s@).contains_key(name@),
        r matches Some(i) ==> i < s@.len() && s@[i as int].0@ == name@ && assoc_map(s@)[name@]
            == s@[i as int].1 && forall|k: int| i < k < s@.len() ==> s@[k].0@ != name@,
{
    let mut j = s.len();
    while j > 0
        invariant
            j <= s@.len(),
            forall|k: int| j <= k < s@.len() ==> s@[k].0@ != name@,
        decreases j,
    {
        j -= 1;
        if s[j].0.same(name) {
            proof {
                lemma_assoc_found(s@, j as int, name@);
            }
            return Some(j);
        }
    }
    proof {
        lemma_assoc_absent(s@, 0, name@);
        assert(s@.take(0) =~= Seq::<(Symbol, V)>::empty());
    }
    None
}

/// Bind `name` to `v`: replace the entry of `name` if there is one, else append one.
pub fn assoc_insert<V>(s: &mut Vec<(Symbol, V)>, name: Symbol, v: V)
    requires
        assoc_distinct(old(s)@),
    ensures
        assoc_distinct(final(s)@),
        assoc_map(final(s)@) == assoc_map(old(s)@).insert(name@, v),
        (exists|i: int| 0 <= i < old(s)@.len() && old(s)@[i].0@ == name@) ==> (exists|i: int|
            0 <= i < old(s)@.len() && old(s)@[i].0@ == name@ && final(s)@ == old(s)@.update(
                i,
                (name, v),
            )),
        !(exists|i: int| 0 <= i < old(s)@.len() && old(s)@[i].0@ == name@) ==> final(s)@ == old(
            s,
        )@.push((name, v)),
{
    match assoc_find(s, &name) {
        Some(i) => {
            proof {
                lemma_assoc_update(s@, i as int, name, v);
            }
            s.set(i, (name, v));
            assert(old(s)@[i as int].0@ == name@);
        },
        None => {
            proof {
                assert forall|k: int| 0 <= k < s@.len() implies s@[k].0@ != name@ by {
                    if s@[k].0@ == name@ {
                        lemma_assoc_keys(s@, name@);
                    }
                }
                assert(s@.push((name, v)).drop_last() =~= s@);
                lemma_assoc_keys(s@, name@);
            }
            s.push((name, v));
        },
    }
}


/// The entries whose name is not in `names`, in their order.
pub open spec fn assoc_keep<V>(s: Seq<(Symbol, V)>, names: Set<Seq<char>>) -> Seq<(Symbol, V)>
    decreases s.len(),
{
    if s.len() == 0 {
        Seq::empty()
    } else {
        assoc_keep(s.drop_last(), names) + if names.contains(s.last().0@) {
            Seq::empty()
        } else {
            seq![s.last()]
        }
    }
}

/// Every entry kept is an entry of the list, and the order is kept.
pub proof fn lemma_assoc_keep_sub<V>(s: Seq<(Symbol, V)>, names: Set<Seq<char>>)
    ensures
        forall|i: int|
            0 <= i < assoc_keep(s, names).len() ==> exists|j: int|
                0 <= j < s.len() && #[trigger] assoc_keep(s, names)[i] == s[j] && !names.contains(s[j].0@),
        assoc_distinct(s) ==> assoc_distinct(assoc_keep(s, names)),
    decreases s.len(),
{
    if s.len() > 0 {
        let prev = s.drop_last();
        lemma_assoc_keep_sub(prev, names);
        let k = assoc_keep(s, names);
        let kp = assoc_keep(prev, names);
        assert forall|i: int| 0 <= i < k.len() implies exists|j: int|
            0 <= j < s.len() && #[trigger] k[i] == s[j] && !names.contains(s[j].0@) by {
            if i < kp.len() {
                let j = choose|j: int| 0 <= j < prev.len() && kp[i] == prev[j] && !names.contains(prev[j].0@);
                assert(k[i] == s[j]);
            } else {
                assert(k[i] == s[s.len() - 1]);
            }
        }
        if assoc_distinct(s) {
            assert forall|i: int, j: int| 0 <= i < j < k.len() implies k[i].0@ != k[j].0@ by {
                if j < kp.len() {
                    assert(k[i] == kp[i] && k[j] == kp[j]);
                } else {
                    let a = choose|a: int| 0 <= a < prev.len() && kp[i] == prev[a] && !names.contains(prev[a].0@);
                    assert(k[i] == s[a]);
                    assert(k[j] == s[s.len() - 1]);
                }
            }
        }
    }
}

/// The names of the symbols, as a set.
pub open spec fn name_set(names: Seq<Symbol>) -> Set<Seq<char>> {
    Set::new(|x: Seq<char>| exists|j: int| 0 <= j < names.len() && names[j]@ == x)
}

/// Drop the entries whose name is in `names`, keeping the order of the others.
pub fn assoc_retain<V>(s: &mut Vec<(Symbol, V)>, names: &Vec<Symbol>)
    ensures
        final(s)@ == assoc_keep(old(s)@, name_set(names@)),
{
    let ghost set = name_set(names@);
    let mut rest: Vec<(Symbol, V)> = Vec::new();
    std::mem::swap(&mut rest, s);
    let ghost all = rest@;
    let mut k: usize = 0;
    let ghost mut done: int = 0;
    assert(all.take(0) =~= Seq::<(Symbol, V)>::empty());
    while rest.len() > 0
        invariant
            0 <= done <= all.len(),
            rest@ == all.skip(done),
            s@ == assoc_keep(all.take(done), set),
            set == name_set(names@),
        decreases rest@.len(),
    {
        let ghost before = rest@;
        let entry = rest.remove(0);
        proof {
            assert(rest@ =~= all.skip(done + 1));
            assert(entry == all[done]);
            assert(all.take(done + 1).drop_last() =~= all.take(done));
        }
        let mut named = false;
        let mut i: usize = 0;
        while i < names.len()
            invariant
                i <= names@.len(),
                named <==> exists|j: int| 0 <= j < i && names@[j]@ == entry.0@,
            decreases names@.len() - i,
        {
            if names[i].same(&entry.0) {
                named = true;
            }
            i += 1;
        }
        assert(named == set.contains(entry.0@));
        if !named {
            s.push(entry);
        }
        proof {
            done = done + 1;
            assert(s@ =~= assoc_keep(all.take(done), set));
        }
    }
    assert(all.take(done) =~= all);
}

} // verus!
