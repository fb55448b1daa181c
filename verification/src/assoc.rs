//! Association lists keyed by strings, viewed as maps. Declaration order
//! is kept, which the resolution engine relies on; a later binding for
//! the same key wins, as in a map built by repeated insertion.
use vstd::prelude::*;

verus! {

/// The map an association list stands for.
pub open spec fn assoc_map<V>(s: Seq<(String, V)>) -> Map<Seq<char>, V>
    decreases s.len(),
{
    if s.len() == 0 {
        Map::empty()
    } else {
        assoc_map(s.drop_last()).insert(s.last().0@, s.last().1)
    }
}

/// Look a key up; the last binding wins.
pub fn assoc_get<'a, V>(v: &'a Vec<(String, V)>, k: &str) -> (r: Option<&'a V>)
    ensures
        match r {
            Some(x) => assoc_map(v@).contains_key(k@) && *x == assoc_map(v@)[k@],
            None => !assoc_map(v@).contains_key(k@),
        },
{
    let mut j: usize = v.len();
    proof {
        assert(v@.subrange(0, v@.len() as int) =~= v@);
    }
    loop
        invariant
            j <= v@.len(),
            assoc_map(v@).contains_key(k@) == assoc_map(v@.subrange(0, j as int)).contains_key(
                k@,
            ),
            assoc_map(v@).contains_key(k@) ==> assoc_map(v@)[k@] == assoc_map(
                v@.subrange(0, j as int),
            )[k@],
        decreases j,
    {
        if j == 0 {
            proof {
                assert(v@.subrange(0, 0) =~= Seq::<(String, V)>::empty());
            }
            return None;
        }
        let ghost cur = v@.subrange(0, j as int);
        proof {
            assert(cur.drop_last() =~= v@.subrange(0, j - 1));
            assert(cur.last() == v@[j - 1]);
        }
        if crate::values::str_eq(v[j - 1].0.as_str(), k) {
            return Some(&v[j - 1].1);
        }
        j = j - 1;
    }
}

/// Whether a key is bound.
pub fn assoc_contains<V>(v: &Vec<(String, V)>, k: &str) -> (r: bool)
    ensures
        r == assoc_map(v@).contains_key(k@),
{
    match assoc_get(v, k) {
        Some(_) => true,
        None => false,
    }
}

/// The key of each binding.
pub open spec fn key_col<V>(s: Seq<(String, V)>) -> Seq<String> {
    s.map_values(|p: (String, V)| p.0)
}

/// The keys, in declaration order.
pub fn assoc_keys<V>(v: &Vec<(String, V)>) -> (r: Vec<String>)
    ensures
        r@ == key_col(v@),
{
    let mut out: Vec<String> = Vec::new();
    let mut i: usize = 0;
    while i < v.len()
        invariant
            i <= v@.len(),
            out@.len() == i,
            forall|j: int| 0 <= j < i ==> #[trigger] out@[j] == v@[j].0,
        decreases v@.len() - i,
    {
        out.push(v[i].0.clone());
        i = i + 1;
    }
    proof {
        assert(out@ =~= key_col(v@));
    }
    out
}

/// Every key of the map is some listed key.
pub proof fn lemma_assoc_map_dom<V>(s: Seq<(String, V)>, k: Seq<char>)
    ensures
        assoc_map(s).contains_key(k) <==> exists|i: int|
            0 <= i < s.len() && #[trigger] s[i].0@ == k,
    decreases s.len(),
{
    if s.len() > 0 {
        lemma_assoc_map_dom(s.drop_last(), k);
        if s.last().0@ == k {
            assert(s[s.len() - 1].0@ == k);
        } else {
            if exists|i: int| 0 <= i < s.len() - 1 && #[trigger] s.drop_last()[i].0@ == k {
                let i = choose|i: int| 0 <= i < s.len() - 1 && #[trigger] s.drop_last()[i].0@ == k;
                assert(s[i].0@ == k);
            }
            if exists|i: int| 0 <= i < s.len() && #[trigger] s[i].0@ == k {
                let i = choose|i: int| 0 <= i < s.len() && #[trigger] s[i].0@ == k;
                assert(i < s.len() - 1);
                assert(s.drop_last()[i].0@ == k);
            }
        }
    }
}

} // verus!
