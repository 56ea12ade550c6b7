//! A JSON value with its objects kept as ordered lists of entries.
use vstd::prelude::*;

verus! {

#[verifier::external_type_specification]
#[verifier::external_body]
pub struct ExNumber(serde_json::Number);

/// A JSON document. Numbers are carried through unread.
pub enum Json {
    Null,
    Bool(bool),
    Num(serde_json::Number),
    Str(String),
    Arr(Vec<Json>),
    Obj(Vec<(String, Json)>),
}

/// The entries of an object, in order.
pub type Entries = Vec<(String, Json)>;

/// Entry `i` is the first one whose key is `k`.
pub open spec fn first_at(es: Seq<(String, Json)>, k: Seq<char>, i: int) -> bool {
    &&& 0 <= i < es.len()
    &&& es[i].0@ == k
    &&& forall|j: int| 0 <= j < i ==> es[j].0@ != k
}

pub open spec fn has_key(es: Seq<(String, Json)>, k: Seq<char>) -> bool {
    exists|i: int| 0 <= i < es.len() && es[i].0@ == k
}

/// The position of the first entry with key `k`.
pub open spec fn index_of(es: Seq<(String, Json)>, k: Seq<char>) -> int {
    choose|i: int| first_at(es, k, i)
}

/// The value of the first entry with key `k`.
pub open spec fn value_of(es: Seq<(String, Json)>, k: Seq<char>) -> Json {
    es[index_of(es, k)].1
}

/// The keys of a list of entries.
pub open spec fn keys(es: Seq<(String, Json)>) -> Seq<Seq<char>> {
    es.map_values(|e: (String, Json)| e.0@)
}

/// Some entry before position `w` that has key `k` is a first one.
proof fn lemma_first_below(es: Seq<(String, Json)>, k: Seq<char>, w: int)
    requires
        0 <= w < es.len(),
        es[w].0@ == k,
    ensures
        exists|i: int| first_at(es, k, i),
    decreases w,
{
    if forall|j: int| 0 <= j < w ==> es[j].0@ != k {
        assert(first_at(es, k, w));
    } else {
        let v = choose|j: int| 0 <= j < w && es[j].0@ == k;
        lemma_first_below(es, k, v);
    }
}

pub proof fn lemma_first_at(es: Seq<(String, Json)>, k: Seq<char>)
    requires
        has_key(es, k),
    ensures
        first_at(es, k, index_of(es, k)),
{
    let w = choose|i: int| 0 <= i < es.len() && es[i].0@ == k;
    lemma_first_below(es, k, w);
}

/// A first position is unique.
pub proof fn lemma_first_unique(es: Seq<(String, Json)>, k: Seq<char>, i: int)
    requires
        first_at(es, k, i),
    ensures
        index_of(es, k) == i,
{
    assert(first_at(es, k, index_of(es, k)));
}

/// Finds the first entry whose key is `k`.
pub fn find_key(es: &Entries, k: &String) -> (r: Option<usize>)
    ensures
        match r {
            Some(i) => first_at(es@, k@, i as int) && index_of(es@, k@) == i,
            None => !has_key(es@, k@),
        },
{
    let mut i: usize = 0;
    while i < es.len()
        invariant
            i <= es@.len(),
            forall|j: int| 0 <= j < i ==> es@[j].0@ != k@,
        decreases es@.len() - i,
    {
        if es[i].0 == *k {
            proof {
                lemma_first_unique(es@, k@, i as int);
            }
            return Some(i);
        }
        i = i + 1;
    }
    None
}

} // verus!
