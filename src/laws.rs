//! Laws that relate packing and unpacking of a level.
use vstd::prelude::*;
use crate::classify::{config_choice, is_config_name};
use crate::codec::base64_of;
use crate::error::BundleError;
use crate::json::{first_at, has_key, keys, lemma_first_unique, Json};
use crate::meta::{code_key, config_key, meta_key, tree_key};
use crate::pack::{
    child_name, config_fields, encodes, has_meta, is_artifact, kind_of,
    level_encodes, level_keys, lists_kinds, names_clash, Child, Config,
};
use crate::unpack::{
    all_fit, config_ok, content_of, fits, is_empty_level, level_decodes, meta_of, restores,
    take_entries, tree_of, Item, Level,
};

verus! {

/// The restored item `it` is the child `c`: the same name and kind, the
/// base64 text of the same bytes, or the same packed directory.
pub open spec fn restores_child(it: Item, c: Child) -> bool {
    match (it, c) {
        (Item::File { name: n, payload }, Child::File { name, bytes }) => n@ == name@ && payload@
            == base64_of(bytes@),
        (Item::Bin { name: n, payload }, Child::Built { name, artifact }) => n@ == name@
            && payload@ == base64_of(artifact@),
        (Item::Dir { name: n, tree: t }, Child::Dir { name, tree }) => n@ == name@ && t == tree,
        _ => false,
    }
}

/// Each packed directory is an object, as `encode_level` makes them.
pub open spec fn dirs_are_objects(children: Seq<Child>) -> bool {
    forall|i: int|
        0 <= i < children.len() ==> (#[trigger] children[i] matches Child::Dir { tree, .. }
            ==> tree is Obj)
}

/// The keys of a packed level, without its metadata, are the level's keys.
proof fn lemma_level_keys(j: Json, config: Option<Config>, children: Seq<Child>, strip: bool)
    requires
        level_encodes(j, config, children, strip),
    ensures
        j matches Json::Obj(es) && {
            let n = config_fields(config).len() + children.len();
            &&& n <= es@.len()
            &&& keys(es@.take(n as int)) == level_keys(config, children)
        },
{
    let es = j->Obj_0@;
    let fs = config_fields(config);
    let nf = fs.len() as int;
    let n = nf + children.len();
    let lk = level_keys(config, children);
    assert forall|i: int| 0 <= i < n implies keys(es.take(n))[i] == lk[i] by {
        if i < nf {
            assert(es.subrange(0, nf)[i] == fs[i]);
        } else {
            assert(encodes(es[nf + (i - nf)], children[i - nf]));
        }
    }
    assert(keys(es.take(n)) =~= lk);
}

/// Taking the children's entries out of a packed level leaves the config's
/// fields, and yields each child's value in order.
proof fn lemma_take_children(
    fs: Seq<(String, Json)>,
    es: Seq<(String, Json)>,
    t: Seq<(String, Json)>,
    children: Seq<Child>,
)
    requires
        es.len() == children.len(),
        lists_kinds(t, children),
        forall|i: int| 0 <= i < es.len() ==> #[trigger] encodes(es[i], children[i]),
        (keys(fs) + children.map_values(|c: Child| child_name(c))).no_duplicates(),
    ensures
        take_entries(fs + es, t) == Some((es.map_values(|e: (String, Json)| e.1), fs)),
    decreases children.len(),
{
    if children.len() == 0 {
        assert(fs + es =~= fs);
        assert(es.map_values(|e: (String, Json)| e.1) =~= Seq::<Json>::empty());
    } else {
        let ks = keys(fs) + children.map_values(|c: Child| child_name(c));
        let nf = fs.len() as int;
        let k0 = t[0].0@;
        assert(encodes(es[0], children[0]));
        assert(ks[nf] == k0);
        assert forall|j: int| 0 <= j < nf implies (fs + es)[j].0@ != k0 by {
            assert(ks[j] == fs[j].0@);
        }
        assert(first_at(fs + es, k0, nf));
        lemma_first_unique(fs + es, k0, nf);
        assert((fs + es).remove(nf) =~= fs + es.drop_first());
        let kids = children.drop_first();
        let ks2 = keys(fs) + kids.map_values(|c: Child| child_name(c));
        assert(ks2 =~= ks.remove(nf));
        assert forall|a: int, b: int| 0 <= a < ks2.len() && 0 <= b < ks2.len() && a != b implies ks2[a]
            != ks2[b] by {
            let a1 = if a < nf { a } else { a + 1 };
            let b1 = if b < nf { b } else { b + 1 };
            assert(ks2[a] == ks[a1]);
            assert(ks2[b] == ks[b1]);
        }
        assert forall|i: int| 0 <= i < es.drop_first().len() implies #[trigger] encodes(
            es.drop_first()[i],
            kids[i],
        ) by {
            assert(encodes(es[i + 1], children[i + 1]));
        }
        assert forall|i: int| 0 <= i < t.drop_first().len() implies #[trigger] t.drop_first()[i].0@
            == child_name(kids[i]) && (t.drop_first()[i].1 matches Json::Str(s) && s@ == kind_of(
            kids[i],
        )) by {
            assert(t[i + 1].0@ == child_name(children[i + 1]));
        }
        lemma_take_children(fs, es.drop_first(), t.drop_first(), kids);
        assert(seq![(fs + es)[nf].1] + es.drop_first().map_values(|e: (String, Json)| e.1)
            =~= es.map_values(|e: (String, Json)| e.1));
    }
}

/// Unpacking a level that was packed with its metadata gives back each
/// child in order, under its name and kind, and the config file with all of
/// its fields. A config file without fields is not restored, so the law
/// asks for one with at least one field.
pub proof fn lemma_round_trip(
    config: Option<Config>,
    children: Seq<Child>,
    j: Json,
    r: Result<Level, BundleError>,
)
    requires
        level_encodes(j, config, children, false),
        !names_clash(config, children),
        dirs_are_objects(children),
        config matches Some(c) ==> c.fields@.len() > 0,
        level_decodes(j, r),
    ensures
        r matches Ok(l) && {
            &&& l.items@.len() == children.len()
            &&& forall|i: int|
                0 <= i < children.len() ==> #[trigger] restores_child(l.items@[i], children[i])
            &&& (l.config is Some <==> config is Some)
            &&& (l.config matches Some(c2) ==> (config matches Some(c) && c2.name@ == c.name@
                && c2.fields@ == c.fields@))
        },
{
    let es = j->Obj_0@;
    let fs = config_fields(config);
    let nf = fs.len() as int;
    let nc = children.len() as int;
    let n = nf + nc;
    lemma_level_keys(j, config, children, false);
    if !has_meta(config, children, false) {
        assert(es.len() == n);
        assert(es.take(n) =~= es);
        assert(!has_key(es, meta_key())) by {
            if has_key(es, meta_key()) {
                let w = choose|i: int| 0 <= i < es.len() && es[i].0@ == meta_key();
                assert(keys(es.take(n))[w] == meta_key());
            }
        }
        return;
    }
    assert forall|i: int| 0 <= i < n implies es[i].0@ != meta_key() by {
        assert(keys(es.take(n))[i] == es[i].0@);
    }
    assert(first_at(es, meta_key(), n));
    lemma_first_unique(es, meta_key(), n);
    let m = es[n].1;
    let ms = m->Obj_0@;
    assert(meta_of(es) == Some(ms));
    assert(content_of(es) =~= fs + es.subrange(nf, n));
    let ci: int = if config is Some { 1 } else { 0 };
    if config is Some {
        assert(first_at(ms, config_key(), 0));
        lemma_first_unique(ms, config_key(), 0);
    } else {
        assert(!has_key(ms, config_key())) by {
            if has_key(ms, config_key()) {
                let w = choose|i: int| 0 <= i < ms.len() && ms[i].0@ == config_key();
                assert(w == 0);
            }
        }
    }
    assert(config_ok(ms));
    let t = if nc > 0 { ms[ci].1->Obj_0@ } else { Seq::empty() };
    if nc > 0 {
        assert(first_at(ms, tree_key(), ci));
        lemma_first_unique(ms, tree_key(), ci);
    } else {
        assert(!has_key(ms, tree_key())) by {
            if has_key(ms, tree_key()) {
                let w = choose|i: int| 0 <= i < ms.len() && ms[i].0@ == tree_key();
                assert(w == 0);
            }
        }
        assert(lists_kinds(t, children));
    }
    assert(tree_of(ms) == t);
    let ces = es.subrange(nf, n);
    assert forall|i: int| 0 <= i < ces.len() implies #[trigger] encodes(ces[i], children[i]) by {
        assert(encodes(es[nf + i], children[i]));
    }
    lemma_take_children(fs, ces, t, children);
    let vs = ces.map_values(|e: (String, Json)| e.1);
    assert forall|i: int| 0 <= i < t.len() implies #[trigger] fits(t[i].1, vs[i]) by {
        assert(encodes(ces[i], children[i]));
        assert(t[i].0@ == child_name(children[i]));
        if children[i] is Built {
            let o = vs[i]->Obj_0@;
            assert(is_artifact(vs[i], children[i]->Built_artifact@));
            assert(first_at(o, code_key(), 0));
            lemma_first_unique(o, code_key(), 0);
        }
    }
    assert(all_fit(t, vs));
    let l = r->Ok_0;
    assert forall|i: int| 0 <= i < nc implies #[trigger] restores_child(l.items@[i], children[i]) by {
        assert(restores(l.items@[i], t[i], vs[i]));
        assert(encodes(ces[i], children[i]));
        assert(t[i].0@ == child_name(children[i]));
        if children[i] is Built {
            let o = vs[i]->Obj_0@;
            assert(first_at(o, code_key(), 0));
            lemma_first_unique(o, code_key(), 0);
        }
    }
}

/// A level packed without metadata unpacks to nothing.
pub proof fn lemma_stripped_restores_nothing(
    config: Option<Config>,
    children: Seq<Child>,
    j: Json,
    r: Result<Level, BundleError>,
)
    requires
        level_encodes(j, config, children, true),
        !names_clash(config, children),
        level_decodes(j, r),
    ensures
        r matches Ok(l) && is_empty_level(l),
{
    let es = j->Obj_0@;
    let n = config_fields(config).len() + children.len();
    lemma_level_keys(j, config, children, true);
    assert(es.take(n as int) =~= es);
    assert(!has_key(es, meta_key())) by {
        if has_key(es, meta_key()) {
            let w = choose|i: int| 0 <= i < es.len() && es[i].0@ == meta_key();
            assert(keys(es.take(n as int))[w] == meta_key());
        }
    }
}

/// `b` lists the names of `a` in another order: `p` maps each position of
/// `a` to that of the same name in `b`, and `q` maps back.
pub open spec fn reorders(
    a: Seq<Seq<char>>,
    b: Seq<Seq<char>>,
    p: spec_fn(int) -> int,
    q: spec_fn(int) -> int,
) -> bool {
    &&& a.len() == b.len()
    &&& forall|i: int|
        0 <= i < a.len() ==> 0 <= #[trigger] p(i) < b.len() && b[p(i)] == a[i] && q(p(i)) == i
    &&& forall|j: int|
        0 <= j < b.len() ==> 0 <= #[trigger] q(j) < a.len() && a[q(j)] == b[j] && p(q(j)) == j
}

/// Two config candidates in `a` are two in any reordering of it.
proof fn lemma_ambiguity_moves(
    a: Seq<Seq<char>>,
    b: Seq<Seq<char>>,
    p: spec_fn(int) -> int,
    q: spec_fn(int) -> int,
    i: int,
    j: int,
)
    requires
        reorders(a, b, p, q),
        0 <= i < j < a.len(),
        is_config_name(a[i]),
        is_config_name(a[j]),
    ensures
        exists|x: int, y: int|
            0 <= x < y < b.len() && is_config_name(#[trigger] b[x]) && is_config_name(#[trigger] b[y]),
{
    let (x, y) = if p(i) < p(j) { (p(i), p(j)) } else { (p(j), p(i)) };
    assert(p(i) != p(j)) by {
        if p(i) == p(j) {
            assert(q(p(i)) == i && q(p(j)) == j);
        }
    }
    assert(is_config_name(b[x]) && is_config_name(b[y]));
}

/// Which file of a level is its config file does not depend on the order in
/// which the level's names are listed: packing an unchanged tree picks the
/// same config file every time, or fails every time.
pub proof fn lemma_config_choice_order_free(
    a: Seq<Seq<char>>,
    b: Seq<Seq<char>>,
    p: spec_fn(int) -> int,
    q: spec_fn(int) -> int,
)
    requires
        reorders(a, b, p, q),
    ensures
        config_choice(a) == config_choice(b),
{
    assert(reorders(b, a, q, p));
    if exists|i: int, j: int|
        0 <= i < j < a.len() && is_config_name(#[trigger] a[i]) && is_config_name(#[trigger] a[j]) {
        let (i, j) = choose|i: int, j: int|
            0 <= i < j < a.len() && is_config_name(#[trigger] a[i]) && is_config_name(
                #[trigger] a[j],
            );
        lemma_ambiguity_moves(a, b, p, q, i, j);
    } else if exists|i: int, j: int|
        0 <= i < j < b.len() && is_config_name(#[trigger] b[i]) && is_config_name(#[trigger] b[j]) {
        let (i, j) = choose|i: int, j: int|
            0 <= i < j < b.len() && is_config_name(#[trigger] b[i]) && is_config_name(
                #[trigger] b[j],
            );
        lemma_ambiguity_moves(b, a, q, p, i, j);
    } else if exists|i: int| 0 <= i < a.len() && is_config_name(#[trigger] a[i]) {
        let ia = choose|i: int| 0 <= i < a.len() && is_config_name(#[trigger] a[i]);
        assert(is_config_name(b[p(ia)]));
        let jb = choose|i: int| 0 <= i < b.len() && is_config_name(#[trigger] b[i]);
        assert(jb == p(ia)) by {
            if jb < p(ia) {
                assert(is_config_name(b[jb]) && is_config_name(b[p(ia)]));
            } else if jb > p(ia) {
                assert(is_config_name(b[p(ia)]) && is_config_name(b[jb]));
            }
        }
    } else {
        assert forall|j: int| 0 <= j < b.len() implies !is_config_name(#[trigger] b[j]) by {
            assert(a[q(j)] == b[j]);
        }
    }
}

} // verus!
