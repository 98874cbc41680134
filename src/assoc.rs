//! Association lists keyed by strings, where the last binding of a key counts.
use vstd::prelude::*;

verus! {

/// The value bound to `name`: that of its last occurrence, if any.
pub open spec fn lookup<V>(
    s: Seq<(Seq<char>, V)>,
    name: Seq<char>,
) -> Option<V>
    decreases s.len(),
{
    if s.len() == 0 {
        None
    } else if s.last().0 == name {
        Some(s.last().1)
    } else {
        lookup(s.drop_last(), name)
    }
}

pub proof fn lemma_lookup_absent<V>(s: Seq<(Seq<char>, V)>, name: Seq<char>)
    requires
        forall|j: int| 0 <= j < s.len() ==> s[j].0 != name,
    ensures
        lookup(s, name) == None::<V>,
    decreases s.len(),
{
    if s.len() > 0 {
        lemma_lookup_absent(s.drop_last(), name);
    }
}

pub proof fn lemma_lookup_update<V>(
    s: Seq<(Seq<char>, V)>,
    i: int,
    name: Seq<char>,
    vals: V,
    m: Seq<char>,
)
    requires
        0 <= i < s.len(),
        s[i].0 == name,
        forall|j: int| i < j < s.len() ==> s[j].0 != name,
    ensures
        lookup(s.update(i, (name, vals)), m) == if m == name {
            Some(vals)
        } else {
            lookup(s, m)
        },
    decreases s.len(),
{
    let t = s.update(i, (name, vals));
    if i == s.len() - 1 {
        assert(t.drop_last() =~= s.drop_last());
    } else {
        assert(t.drop_last() =~= s.drop_last().update(i, (name, vals)));
        lemma_lookup_update(s.drop_last(), i, name, vals, m);
    }
}

pub proof fn lemma_lookup_push<V>(
    s: Seq<(Seq<char>, V)>,
    p: (Seq<char>, V),
    m: Seq<char>,
)
    ensures
        lookup(s.push(p), m) == if m == p.0 {
            Some(p.1)
        } else {
            lookup(s, m)
        },
{
    assert(s.push(p).drop_last() =~= s);
}

/// Model of a list of bindings from strings to values.
pub open spec fn pairs_view<V: View>(s: Seq<(String, V)>) -> Seq<(Seq<char>, V::V)> {
    s.map_values(|p: (String, V)| (p.0@, p.1@))
}

/// Position of the binding of `key` that counts.
fn find_key<V: View>(s: &Vec<(String, V)>, key: &String) -> (r: Option<usize>)
    ensures
        match r {
            Some(i) => i < s.len() && pairs_view(s@)[i as int].0 == key@ && forall|j: int|
                i < j < s.len() ==> pairs_view(s@)[j].0 != key@,
            None => forall|j: int| 0 <= j < s.len() ==> pairs_view(s@)[j].0 != key@,
        },
{
    let mut i: usize = s.len();
    while i > 0
        invariant
            i <= s.len(),
            forall|j: int| i <= j < s.len() ==> pairs_view(s@)[j].0 != key@,
        decreases i,
    {
        if s[i - 1].0 == *key {
            return Some(i - 1);
        }
        i -= 1;
    }
    None
}

/// The value bound to `key`, if any.
pub fn get_bound<'a, V: View>(s: &'a Vec<(String, V)>, key: &String) -> (r: Option<&'a V>)
    ensures
        match r {
            Some(v) => lookup(pairs_view(s@), key@) == Some(v@),
            None => lookup(pairs_view(s@), key@) is None,
        },
{
    match find_key(s, key) {
        Some(i) => {
            proof {
                let m = pairs_view(s@);
                lemma_lookup_update(m, i as int, key@, m[i as int].1, key@);
                assert(m.update(i as int, (key@, m[i as int].1)) =~= m);
            }
            Some(&s[i].1)
        },
        None => {
            proof {
                lemma_lookup_absent(pairs_view(s@), key@);
            }
            None
        },
    }
}

/// Binds `key` to `value`, replacing the binding that counted.
pub fn bind<V: View>(s: &mut Vec<(String, V)>, key: String, value: V)
    ensures
        forall|m: Seq<char>|
            #[trigger] lookup(pairs_view(final(s)@), m) == if m == key@ {
                Some(value@)
            } else {
                lookup(pairs_view(old(s)@), m)
            },
{
    let ghost old_m = pairs_view(s@);
    let ghost k = key@;
    let ghost v = value@;
    match find_key(s, &key) {
        Some(i) => {
            s.set(i, (key, value));
            assert(pairs_view(s@) =~= old_m.update(i as int, (k, v)));
            assert forall|m: Seq<char>|
                #[trigger] lookup(pairs_view(s@), m) == if m == k {
                    Some(v)
                } else {
                    lookup(old_m, m)
                } by {
                lemma_lookup_update(old_m, i as int, k, v, m);
            }
        },
        None => {
            s.push((key, value));
            assert(pairs_view(s@) =~= old_m.push((k, v)));
            assert forall|m: Seq<char>|
                #[trigger] lookup(pairs_view(s@), m) == if m == k {
                    Some(v)
                } else {
                    lookup(old_m, m)
                } by {
                lemma_lookup_push(old_m, (k, v), m);
            }
        },
    }
}

} // verus!
