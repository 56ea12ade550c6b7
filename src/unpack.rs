//! The unpack direction: one bundle object becomes what its level holds.
use vstd::prelude::*;
use crate::codec::{base64_of, decode_base64};
use crate::error::BundleError;
use crate::json::{find_key, has_key, index_of, value_of, Entries, Json};
use crate::meta::{
    bin_kind, bin_kind_text, code_key, code_key_text, config_key, config_key_text, dir_kind,
    dir_kind_text, file_kind, file_kind_text, meta_key, meta_key_text, tree_key, tree_key_text,
};
use crate::pack::Config;

verus! {

/// A child that a bundle level restores.
pub enum Item {
    /// A file, with its content as base64 text.
    File { name: String, payload: String },
    /// A built artifact, with its content as base64 text.
    Bin { name: String, payload: String },
    /// A directory, with the object of its own level.
    Dir { name: String, tree: Json },
}

/// What one bundle level restores: its children in the order of the
/// metadata tree, and the config file with the fields left over.
pub struct Level {
    pub items: Vec<Item>,
    pub config: Option<Config>,
}

/// Takes out of `rest`, for each name of `tree` in order, the first entry
/// with that name: the values taken and what is left, or `None` where a
/// name is missing.
pub open spec fn take_entries(rest: Seq<(String, Json)>, tree: Seq<(String, Json)>) -> Option<
    (Seq<Json>, Seq<(String, Json)>),
>
    decreases tree.len(),
{
    if tree.len() == 0 {
        Some((Seq::empty(), rest))
    } else if !has_key(rest, tree[0].0@) {
        None
    } else {
        let i = index_of(rest, tree[0].0@);
        match take_entries(rest.remove(i), tree.drop_first()) {
            Some((vs, r)) => Some((seq![rest[i].1] + vs, r)),
            None => None,
        }
    }
}

/// The kind `kind` names a value of the shape of `v`.
pub open spec fn fits(kind: Json, v: Json) -> bool {
    kind matches Json::Str(k) && {
        ||| k@ == file_kind() && v is Str
        ||| k@ == dir_kind() && v is Obj
        ||| k@ == bin_kind() && (v matches Json::Obj(o) && has_key(o@, code_key()) && value_of(
            o@,
            code_key(),
        ) is Str)
    }
}

pub open spec fn kind_is(kind: Json, k: Seq<char>) -> bool {
    kind matches Json::Str(s) && s@ == k
}

/// The item `it` restores the tree entry `t` from the value `v`.
pub open spec fn restores(it: Item, t: (String, Json), v: Json) -> bool {
    match it {
        Item::File { name, payload } => name@ == t.0@ && kind_is(t.1, file_kind()) && v
            == Json::Str(payload),
        Item::Bin { name, payload } => name@ == t.0@ && kind_is(t.1, bin_kind()) && (v matches Json::Obj(
            o,
        ) && has_key(o@, code_key()) && value_of(o@, code_key()) == Json::Str(payload)),
        Item::Dir { name, tree } => name@ == t.0@ && kind_is(t.1, dir_kind()) && v == tree
            && tree is Obj,
    }
}

/// The metadata entries of an object, where it has a metadata object.
pub open spec fn meta_of(es: Seq<(String, Json)>) -> Option<Seq<(String, Json)>> {
    if has_key(es, meta_key()) {
        match value_of(es, meta_key()) {
            Json::Obj(ms) => Some(ms@),
            _ => None,
        }
    } else {
        None
    }
}

/// The entries of an object besides its first metadata entry.
pub open spec fn content_of(es: Seq<(String, Json)>) -> Seq<(String, Json)> {
    es.remove(index_of(es, meta_key()))
}

/// The tree of kinds that the metadata lists; empty where there is none.
pub open spec fn tree_of(ms: Seq<(String, Json)>) -> Seq<(String, Json)> {
    if has_key(ms, tree_key()) {
        match value_of(ms, tree_key()) {
            Json::Obj(t) => t@,
            _ => Seq::empty(),
        }
    } else {
        Seq::empty()
    }
}

/// A config file name, if the metadata has one, must be a string.
pub open spec fn config_ok(ms: Seq<(String, Json)>) -> bool {
    has_key(ms, config_key()) ==> value_of(ms, config_key()) is Str
}

pub open spec fn all_fit(tree: Seq<(String, Json)>, vs: Seq<Json>) -> bool {
    forall|i: int| 0 <= i < tree.len() ==> #[trigger] fits(tree[i].1, vs[i])
}

/// A level that restores nothing.
pub open spec fn is_empty_level(l: Level) -> bool {
    l.items@.len() == 0 && l.config is None
}

/// `r` is what the bundle object `j` restores.
pub open spec fn level_decodes(j: Json, r: Result<Level, BundleError>) -> bool {
    match j {
        Json::Obj(es) => match meta_of(es@) {
            None => r matches Ok(l) && is_empty_level(l),
            Some(ms) => {
                let tree = tree_of(ms);
                let taken = take_entries(content_of(es@), tree);
                &&& r is Ok <==> (taken matches Some((vs, rest)) && all_fit(tree, vs))
                    && config_ok(ms)
                &&& r matches Err(e) ==> e == BundleError::Format
                &&& r matches Ok(l) ==> (taken matches Some((vs, rest)) && {
                    &&& l.items@.len() == tree.len()
                    &&& forall|i: int|
                        0 <= i < tree.len() ==> #[trigger] restores(l.items@[i], tree[i], vs[i])
                    &&& (l.config is Some <==> has_key(ms, config_key()) && rest.len() > 0)
                    &&& (l.config matches Some(c) ==> value_of(ms, config_key()) == Json::Str(
                        c.name,
                    ) && c.fields@ == rest)
                })
            },
        },
        _ => r == Err::<Level, BundleError>(BundleError::Format),
    }
}

/// A value that does not fit its kind makes the whole level fail.
proof fn lemma_misfit(
    rest0: Seq<(String, Json)>,
    t: Seq<(String, Json)>,
    pre: Seq<Json>,
    es: Seq<(String, Json)>,
    k: int,
)
    requires
        0 <= k < t.len(),
        pre.len() == k + 1,
        !fits(t[k].1, pre[k]),
        take_entries(rest0, t) == match take_entries(es, t.skip(k + 1)) {
            Some((vs, r)) => Some((pre + vs, r)),
            None => None,
        },
    ensures
        !(take_entries(rest0, t) matches Some((vs, r)) && all_fit(t, vs)),
{
    match take_entries(es, t.skip(k + 1)) {
        Some((vs, r)) => {
            assert((pre + vs)[k] == pre[k]);
        },
        None => {},
    }
}

fn empty_level() -> (l: Level)
    ensures
        is_empty_level(l),
{
    Level { items: Vec::new(), config: None }
}

/// Reads one bundle level.
///
/// Without a metadata object the level restores nothing. Otherwise each
/// name of the metadata tree, in order, takes the same-named entry out of
/// the object: a "file" must be a string, a "dir" an object, and a "bin" an
/// object with a string under "code". The entries left over become the
/// config file's fields when the metadata names a config file and any are
/// left. A missing entry, a value of the wrong shape, or a config file name
/// that is not a string fails with `Format`.
pub fn decode_level(j: Json) -> (r: Result<Level, BundleError>)
    ensures
        level_decodes(j, r),
{
    let ghost j0 = j;
    let mut es = match j {
        Json::Obj(es) => es,
        _ => return Err(BundleError::Format),
    };
    let meta = meta_key_text();
    let mi = match find_key(&es, &meta) {
        Some(i) => i,
        None => return Ok(empty_level()),
    };
    let (_, m) = es.remove(mi);
    let ms = match m {
        Json::Obj(ms) => ms,
        _ => return Ok(empty_level()),
    };
    let ghost rest0 = es@;
    let ghost es0 = match j0 {
        Json::Obj(es0) => es0@,
        _ => Seq::empty(),
    };
    proof {
        assert(meta_of(es0) == Some(ms@));
        assert(content_of(es0) == rest0);
    }
    let cfg_name: Option<String> = match find_key(&ms, &config_key_text()) {
        Some(ci) => match &ms[ci].1 {
            Json::Str(s) => Some(s.clone()),
            _ => return Err(BundleError::Format),
        },
        None => None,
    };
    let empty: Entries = Vec::new();
    let t: &Entries = match find_key(&ms, &tree_key_text()) {
        Some(ti) => match &ms[ti].1 {
            Json::Obj(t) => t,
            _ => &empty,
        },
        None => &empty,
    };
    assert(t@ == tree_of(ms@));
    proof {
        assert(t@.skip(0) =~= t@);
        match take_entries(rest0, t@) {
            Some((vs, r)) => {
                assert(Seq::<Json>::empty() + vs =~= vs);
            },
            None => {},
        }
    }
    let file = file_kind_text();
    let dir = dir_kind_text();
    let bin = bin_kind_text();
    let code = code_key_text();
    let mut items: Vec<Item> = Vec::new();
    let ghost mut done: Seq<Json> = Seq::empty();
    let mut k: usize = 0;
    while k < t.len()
        invariant
            j0 matches Json::Obj(v) && v@ == es0,
            j0 == j,
            meta_of(es0) == Some(ms@),
            content_of(es0) == rest0,
            t@ == tree_of(ms@),
            config_ok(ms@),
            match cfg_name {
                Some(n) => has_key(ms@, config_key()) && value_of(ms@, config_key()) == Json::Str(n),
                None => !has_key(ms@, config_key()),
            },
            k <= t@.len(),
            file@ == file_kind(),
            dir@ == dir_kind(),
            bin@ == bin_kind(),
            code@ == code_key(),
            done.len() == k,
            items@.len() == k,
            take_entries(rest0, t@) == match take_entries(es@, t@.skip(k as int)) {
                Some((vs, r)) => Some((done + vs, r)),
                None => None,
            },
            forall|i: int| 0 <= i < k ==> #[trigger] fits(t@[i].1, done[i]),
            forall|i: int| 0 <= i < k ==> #[trigger] restores(items@[i], t@[i], done[i]),
        decreases t@.len() - k,
    {
        let ghost es_before = es@;
        proof {
            assert(t@.skip(k as int)[0] == t@[k as int]);
            assert(t@.skip(k as int).drop_first() =~= t@.skip(k + 1));
        }
        let name = &t[k].0;
        let idx = match find_key(&es, name) {
            Some(i) => i,
            None => {
                proof {
                    assert(take_entries(es@, t@.skip(k as int)) is None);
                }
                return Err(BundleError::Format);
            },
        };
        let (_, v) = es.remove(idx);
        let ghost v0 = v;
        let ghost pre = done + seq![v0];
        proof {
            assert(v0 == es_before[idx as int].1);
            match take_entries(es@, t@.skip(k + 1)) {
                Some((vs, r)) => {
                    assert(done + (seq![v0] + vs) =~= pre + vs);
                },
                None => {},
            }
            assert(pre[k as int] == v0);
        }
        let kind = match &t[k].1 {
            Json::Str(s) => s,
            _ => {
                proof {
                    lemma_misfit(rest0, t@, pre, es@, k as int);
                }
                return Err(BundleError::Format);
            },
        };
        let item = if *kind == file {
            match v {
                Json::Str(p) => Item::File { name: name.clone(), payload: p },
                _ => {
                    proof {
                        lemma_misfit(rest0, t@, pre, es@, k as int);
                    }
                    return Err(BundleError::Format);
                },
            }
        } else if *kind == dir {
            match v {
                Json::Obj(o) => Item::Dir { name: name.clone(), tree: Json::Obj(o) },
                _ => {
                    proof {
                        lemma_misfit(rest0, t@, pre, es@, k as int);
                    }
                    return Err(BundleError::Format);
                },
            }
        } else if *kind == bin {
            match v {
                Json::Obj(mut o) => {
                    let ci = match find_key(&o, &code) {
                        Some(ci) => ci,
                        None => {
                            proof {
                                lemma_misfit(rest0, t@, pre, es@, k as int);
                            }
                            return Err(BundleError::Format);
                        },
                    };
                    match o.remove(ci).1 {
                        Json::Str(p) => Item::Bin { name: name.clone(), payload: p },
                        _ => {
                            proof {
                                lemma_misfit(rest0, t@, pre, es@, k as int);
                            }
                            return Err(BundleError::Format);
                        },
                    }
                },
                _ => {
                    proof {
                        lemma_misfit(rest0, t@, pre, es@, k as int);
                    }
                    return Err(BundleError::Format);
                },
            }
        } else {
            proof {
                lemma_misfit(rest0, t@, pre, es@, k as int);
            }
            return Err(BundleError::Format);
        };
        items.push(item);
        proof {
            done = pre;
        }
        k = k + 1;
    }
    proof {
        assert(t@.skip(k as int) =~= Seq::<(String, Json)>::empty());
        assert(done + Seq::<Json>::empty() =~= done);
    }
    let config = match cfg_name {
        Some(name) => if es.len() > 0 {
            Some(Config { name, fields: es })
        } else {
            None
        },
        None => None,
    };
    Ok(Level { items, config })
}

/// The payload of a restored file or artifact; `None` for a directory.
pub open spec fn payload_of(it: Item) -> Option<Seq<char>> {
    match it {
        Item::File { payload, .. } => Some(payload@),
        Item::Bin { payload, .. } => Some(payload@),
        Item::Dir { .. } => None,
    }
}

/// The bytes to write for a restored file or artifact. The payload that
/// packing made of some bytes gives back those bytes; a payload that is not
/// base64 text fails with `Format`, and a directory has no bytes.
pub fn item_bytes(it: &Item) -> (r: Result<Vec<u8>, BundleError>)
    ensures
        payload_of(*it) is None ==> r == Err::<Vec<u8>, BundleError>(BundleError::Format),
        r matches Err(e) ==> e == BundleError::Format,
        forall|b: Seq<u8>|
            #[trigger] base64_of(b) == payload_of(*it)->Some_0 && payload_of(*it) is Some ==> (r matches Ok(
                v,
            ) && v@ == b),
{
    let payload = match it {
        Item::File { payload, .. } => payload,
        Item::Bin { payload, .. } => payload,
        Item::Dir { .. } => return Err(BundleError::Format),
    };
    match decode_base64(payload) {
        Some(v) => Ok(v),
        None => Err(BundleError::Format),
    }
}

} // verus!
