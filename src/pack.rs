//! The pack direction: one directory level becomes one JSON object.
use vstd::prelude::*;
use crate::codec::{base64_of, encode_base64};
use crate::error::BundleError;
use crate::json::{keys, Entries, Json};
use crate::meta::{
    bin_kind, bin_kind_text, code_key, code_key_text, config_key, config_key_text, dir_kind,
    dir_kind_text, file_kind, file_kind_text, meta_key, meta_key_text, tree_key, tree_key_text,
};

verus! {

/// A classified child of a directory level, with what the bundle holds of it.
pub enum Child {
    /// A plain file and its content.
    File { name: String, bytes: Vec<u8> },
    /// A plain directory and its already packed level.
    Dir { name: String, tree: Json },
    /// A buildable directory and the bytes of its artifact.
    Built { name: String, artifact: Vec<u8> },
}

/// The config file hoisted into a level: its file name and its fields.
pub struct Config {
    pub name: String,
    pub fields: Entries,
}

pub open spec fn child_name(c: Child) -> Seq<char> {
    match c {
        Child::File { name, .. } => name@,
        Child::Dir { name, .. } => name@,
        Child::Built { name, .. } => name@,
    }
}

pub open spec fn kind_of(c: Child) -> Seq<char> {
    match c {
        Child::File { .. } => file_kind(),
        Child::Dir { .. } => dir_kind(),
        Child::Built { .. } => bin_kind(),
    }
}

pub open spec fn config_fields(config: Option<Config>) -> Seq<(String, Json)> {
    match config {
        Some(c) => c.fields@,
        None => Seq::empty(),
    }
}

pub open spec fn config_name(config: Option<Config>) -> Option<Seq<char>> {
    match config {
        Some(c) => Some(c.name@),
        None => None,
    }
}

/// Every key that the level's object would hold besides the metadata:
/// the config's fields, then the children's names.
pub open spec fn level_keys(config: Option<Config>, children: Seq<Child>) -> Seq<Seq<char>> {
    keys(config_fields(config)) + children.map_values(|c: Child| child_name(c))
}

/// Two keys of the level would be equal, or one would be the metadata key.
pub open spec fn names_clash(config: Option<Config>, children: Seq<Child>) -> bool {
    let ks = level_keys(config, children);
    !ks.no_duplicates() || ks.contains(meta_key())
}

/// `v` is the base64 text of `b`.
pub open spec fn is_payload(v: Json, b: Seq<u8>) -> bool {
    v matches Json::Str(s) && s@ == base64_of(b)
}

/// The object `{"code": <payload>}` of a built artifact.
pub open spec fn is_artifact(v: Json, b: Seq<u8>) -> bool {
    v matches Json::Obj(o) && o@.len() == 1 && o@[0].0@ == code_key() && is_payload(o@[0].1, b)
}

/// The entry `e` stands for the child `c`.
pub open spec fn encodes(e: (String, Json), c: Child) -> bool {
    &&& e.0@ == child_name(c)
    &&& match c {
        Child::File { bytes, .. } => is_payload(e.1, bytes@),
        Child::Dir { tree, .. } => e.1 == tree,
        Child::Built { artifact, .. } => is_artifact(e.1, artifact@),
    }
}

/// The metadata tree lists each child, in order, with its kind.
pub open spec fn lists_kinds(t: Seq<(String, Json)>, children: Seq<Child>) -> bool {
    &&& t.len() == children.len()
    &&& forall|i: int|
        0 <= i < t.len() ==> #[trigger] t[i].0@ == child_name(children[i]) && (t[i].1 matches Json::Str(
            s,
        ) && s@ == kind_of(children[i]))
}

/// Whether a level keeps a metadata section.
pub open spec fn has_meta(config: Option<Config>, children: Seq<Child>, strip_meta: bool) -> bool {
    !strip_meta && (config is Some || children.len() > 0)
}

/// The metadata section: the config file's name if there is one, then the
/// tree of kinds if there are children.
pub open spec fn describes(m: Json, name: Option<Seq<char>>, children: Seq<Child>) -> bool {
    m matches Json::Obj(ms) && {
        let nc: int = if name is Some { 1 } else { 0 };
        &&& ms@.len() == nc + if children.len() > 0 { 1int } else { 0int }
        &&& (name matches Some(n) ==> ms@[0].0@ == config_key() && (ms@[0].1 matches Json::Str(
            s,
        ) && s@ == n))
        &&& (children.len() > 0 ==> ms@[nc].0@ == tree_key() && (ms@[nc].1 matches Json::Obj(t)
            && lists_kinds(t@, children)))
    }
}

/// `j` is the packed object of a level: the config's fields, then one entry
/// per child, then the metadata section unless it is stripped or empty.
pub open spec fn level_encodes(
    j: Json,
    config: Option<Config>,
    children: Seq<Child>,
    strip_meta: bool,
) -> bool {
    j matches Json::Obj(es) && {
        let fs = config_fields(config);
        let nf = fs.len() as int;
        let nc = children.len() as int;
        &&& es@.len() == nf + nc + if has_meta(config, children, strip_meta) {
            1int
        } else {
            0int
        }
        &&& es@.subrange(0, nf as int) == fs
        &&& forall|i: int| 0 <= i < nc ==> #[trigger] encodes(es@[nf + i], children[i])
        &&& has_meta(config, children, strip_meta) ==> es@[nf + nc].0@ == meta_key() && describes(
            es@[nf + nc].1,
            config_name(config),
            children,
        )
    }
}

/// The name of a child.
pub fn name_of(c: &Child) -> (r: &String)
    ensures
        r@ == child_name(*c),
{
    match c {
        Child::File { name, .. } => name,
        Child::Dir { name, .. } => name,
        Child::Built { name, .. } => name,
    }
}

/// Whether two of the keys are equal or one is the metadata key.
fn keys_clash(ks: &Vec<String>) -> (r: bool)
    ensures
        r == (!ks@.map_values(|s: String| s@).no_duplicates() || ks@.map_values(
            |s: String| s@,
        ).contains(meta_key())),
{
    let ghost vs = ks@.map_values(|s: String| s@);
    let meta = meta_key_text();
    let mut i: usize = 0;
    while i < ks.len()
        invariant
            i <= ks@.len(),
            vs == ks@.map_values(|s: String| s@),
            meta@ == meta_key(),
            forall|a: int, b: int| 0 <= a < b < ks@.len() && a < i ==> vs[a] != vs[b],
            forall|a: int| 0 <= a < i ==> vs[a] != meta_key(),
        decreases ks@.len() - i,
    {
        if ks[i] == meta {
            assert(vs[i as int] == meta_key());
            return true;
        }
        let mut j: usize = i + 1;
        while j < ks.len()
            invariant
                i < ks@.len(),
                i < j <= ks@.len(),
                vs == ks@.map_values(|s: String| s@),
                forall|b: int| i < b < j ==> vs[i as int] != vs[b],
            decreases ks@.len() - j,
        {
            if ks[i] == ks[j] {
                assert(vs[i as int] == vs[j as int]);
                return true;
            }
            j = j + 1;
        }
        i = i + 1;
    }
    false
}

/// Packs one directory level.
///
/// The object holds the config's fields first, then, per child in order, its
/// name with its payload: a file's content as base64 text, a directory's
/// packed level, or `{"code": <base64 of the artifact>}` for a built one.
/// Unless `strip_meta` is set, a last entry under the metadata key records
/// the config file's name and each child's kind; it is left out when there
/// is nothing to record. Fails with `Format` when two keys of the level
/// would be equal or one would be the metadata key.
pub fn encode_level(config: Option<Config>, children: Vec<Child>, strip_meta: bool) -> (r: Result<
    Json,
    BundleError,
>)
    ensures
        r is Err <==> names_clash(config, children@),
        r matches Err(e) ==> e == BundleError::Format,
        r matches Ok(j) ==> level_encodes(j, config, children@, strip_meta),
{
    let ghost kids0 = children@;
    let ghost fs = config_fields(config);
    let mut ks: Vec<String> = Vec::new();
    match &config {
        Some(c) => {
            let mut i: usize = 0;
            while i < c.fields.len()
                invariant
                    i <= c.fields@.len(),
                    ks@.len() == i,
                    forall|k: int| 0 <= k < i ==> #[trigger] ks@[k]@ == c.fields@[k].0@,
                decreases c.fields@.len() - i,
            {
                ks.push(c.fields[i].0.clone());
                i = i + 1;
            }
        },
        None => {},
    }
    let ghost nf0 = ks@.len();
    assert(nf0 == fs.len());
    let mut i: usize = 0;
    while i < children.len()
        invariant
            i <= children@.len(),
            ks@.len() == nf0 + i,
            nf0 == fs.len(),
            forall|k: int| 0 <= k < nf0 ==> #[trigger] ks@[k]@ == fs[k].0@,
            forall|k: int| 0 <= k < i ==> #[trigger] ks@[nf0 + k]@ == child_name(children@[k]),
        decreases children@.len() - i,
    {
        ks.push(name_of(&children[i]).clone());
        i = i + 1;
    }
    proof {
        let lk = level_keys(config, children@);
        assert forall|k: int| 0 <= k < ks@.len() implies ks@.map_values(|s: String| s@)[k]
            == lk[k] by {
            if k >= nf0 {
                assert(ks@[nf0 + (k - nf0)]@ == child_name(children@[k - nf0]));
            }
        }
        assert(ks@.map_values(|s: String| s@) =~= lk);
    }
    if keys_clash(&ks) {
        return Err(BundleError::Format);
    }
    let has_config = config.is_some();
    let (cfg_name, mut es) = match config {
        Some(c) => (Some(c.name), c.fields),
        None => (None, Vec::new()),
    };
    let ghost nf = fs.len();
    let mut tree: Entries = Vec::new();
    let mut children = children;
    let n = children.len();
    let mut i: usize = 0;
    while i < n
        invariant
            n == kids0.len(),
            i <= n,
            children@ == kids0.skip(i as int),
            es@.len() == nf + i,
            es@.subrange(0, nf as int) == fs,
            forall|k: int| 0 <= k < i ==> #[trigger] encodes(es@[nf + k], kids0[k]),
            lists_kinds(tree@, kids0.take(i as int)),
        decreases n - i,
    {
        let c = children.remove(0);
        assert(c == kids0[i as int]);
        let (name, kind, value) = match c {
            Child::File { name, bytes } => (name, file_kind_text(), Json::Str(encode_base64(&bytes))),
            Child::Dir { name, tree } => (name, dir_kind_text(), tree),
            Child::Built { name, artifact } => {
                let mut o: Entries = Vec::new();
                o.push((code_key_text(), Json::Str(encode_base64(&artifact))));
                (name, bin_kind_text(), Json::Obj(o))
            },
        };
        tree.push((name.clone(), Json::Str(kind)));
        es.push((name, value));
        proof {
            assert(children@ =~= kids0.skip(i + 1));
            assert(es@.subrange(0, nf as int) =~= fs);
            let t = kids0.take(i + 1);
            assert(t =~= kids0.take(i as int).push(kids0[i as int]));
            assert(lists_kinds(tree@, t));
        }
        i = i + 1;
    }
    proof {
        assert(kids0.take(n as int) =~= kids0);
    }
    if !strip_meta && (has_config || n > 0) {
        let mut ms: Entries = Vec::new();
        match cfg_name {
            Some(cn) => ms.push((config_key_text(), Json::Str(cn))),
            None => {},
        }
        if n > 0 {
            ms.push((tree_key_text(), Json::Obj(tree)));
        }
        es.push((meta_key_text(), Json::Obj(ms)));
        proof {
            assert(es@.subrange(0, nf as int) =~= fs);
        }
    }
    Ok(Json::Obj(es))
}

} // verus!
