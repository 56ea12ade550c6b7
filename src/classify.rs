//! Deciding what each child of a directory level is.
use vstd::prelude::*;
use vstd::string::StrSliceExecFns;
use crate::error::BundleError;
use crate::json::Json;
use crate::pack::Config;

verus! {

pub open spec fn json_suffix() -> Seq<char> {
    seq!['.', 'j', 's', 'o', 'n']
}

/// The name of the descriptor file that makes a directory buildable.
pub open spec fn descriptor_name() -> Seq<char> {
    seq!['.', 'b', 'u', 'i', 'l', 'd']
}

/// The extension given to a restored build artifact.
pub open spec fn artifact_suffix() -> Seq<char> {
    seq!['.', 'w', 'a', 's', 'm']
}

/// A file with this name may be a level's config file.
pub open spec fn is_config_name(s: Seq<char>) -> bool {
    s.len() >= 5 && s.subrange(s.len() - 5, s.len() as int) == json_suffix()
}

/// The config choice of a listing of names: `None` when two names could be
/// the config file, else the one name that can, if any.
pub open spec fn config_choice(names: Seq<Seq<char>>) -> Option<Option<Seq<char>>> {
    if exists|i: int, j: int|
        0 <= i < j < names.len() && is_config_name(#[trigger] names[i]) && is_config_name(
            #[trigger] names[j],
        ) {
        None
    } else if exists|i: int| 0 <= i < names.len() && is_config_name(#[trigger] names[i]) {
        Some(Some(names[choose|i: int| 0 <= i < names.len() && is_config_name(#[trigger] names[i])]))
    } else {
        Some(None)
    }
}

pub open spec fn name_views(files: Seq<String>) -> Seq<Seq<char>> {
    files.map_values(|s: String| s@)
}

fn ends_with_json(s: &String) -> (r: bool)
    ensures
        r == is_config_name(s@),
{
    let st: &str = s.as_str();
    let n = st.unicode_len();
    if n < 5 {
        return false;
    }
    let suffix: &str = ".json";
    proof {
        reveal_strlit(".json");
    }
    let mut k: usize = 0;
    while k < 5
        invariant
            n == s@.len(),
            n >= 5,
            st@ == s@,
            suffix@ == json_suffix(),
            k <= 5,
            forall|i: int| 0 <= i < k ==> s@[n - 5 + i] == json_suffix()[i],
        decreases 5 - k,
    {
        if st.get_char(n - 5 + k) != suffix.get_char(k) {
            assert(s@.subrange(n - 5, n as int)[k as int] != json_suffix()[k as int]);
            return false;
        }
        k = k + 1;
    }
    assert(s@.subrange(n - 5, n as int) =~= json_suffix());
    true
}

/// Picks the config file among a level's file names: the one name that ends
/// in ".json". With none there is no config file; with more than one the
/// choice would hang on the listing's order, so it fails with `Parse`.
pub fn select_config(files: &Vec<String>) -> (r: Result<Option<usize>, BundleError>)
    ensures
        r is Err <==> exists|i: int, j: int|
            0 <= i < j < files@.len() && is_config_name(#[trigger] files@[i]@) && is_config_name(
                #[trigger] files@[j]@,
            ),
        r matches Err(e) ==> e == BundleError::Parse,
        r == Ok::<Option<usize>, BundleError>(None) <==> forall|i: int|
            0 <= i < files@.len() ==> !is_config_name(#[trigger] files@[i]@),
        r matches Ok(Some(i)) ==> i < files@.len() && is_config_name(files@[i as int]@) && forall|
            j: int,
        | 0 <= j < files@.len() && j != i ==> !is_config_name(#[trigger] files@[j]@),
        match r {
            Err(_) => config_choice(name_views(files@)) is None,
            Ok(None) => config_choice(name_views(files@)) == Some(None::<Seq<char>>),
            Ok(Some(i)) => config_choice(name_views(files@)) == Some(Some(files@[i as int]@)),
        },
{
    let mut found: Option<usize> = None;
    let mut i: usize = 0;
    while i < files.len()
        invariant
            i <= files@.len(),
            match found {
                Some(f) => f < i && is_config_name(files@[f as int]@) && forall|j: int|
                    0 <= j < i && j != f ==> !is_config_name(#[trigger] files@[j]@),
                None => forall|j: int| 0 <= j < i ==> !is_config_name(#[trigger] files@[j]@),
            },
        decreases files@.len() - i,
    {
        if ends_with_json(&files[i]) {
            match found {
                Some(f) => {
                    proof {
                        let v = name_views(files@);
                        assert(is_config_name(v[f as int]) && is_config_name(v[i as int]));
                    }
                    return Err(BundleError::Parse);
                },
                None => {
                    found = Some(i);
                },
            }
        }
        i = i + 1;
    }
    proof {
        let v = name_views(files@);
        assert forall|k: int| 0 <= k < v.len() implies v[k] == files@[k]@ by {}
        match found {
            Some(f) => {
                assert(is_config_name(v[f as int]));
                let c = choose|k: int| 0 <= k < v.len() && is_config_name(#[trigger] v[k]);
                assert(c == f as int);
            },
            None => {},
        }
    }
    Ok(found)
}

/// Whether a directory with these entry names is buildable: one of them is
/// the build descriptor ".build".
pub fn is_buildable(names: &Vec<String>) -> (r: bool)
    ensures
        r == exists|i: int| 0 <= i < names@.len() && #[trigger] names@[i]@ == descriptor_name(),
{
    proof {
        reveal_strlit(".build");
    }
    let marker = String::from_str(".build");
    let mut i: usize = 0;
    while i < names.len()
        invariant
            i <= names@.len(),
            marker@ == descriptor_name(),
            forall|j: int| 0 <= j < i ==> #[trigger] names@[j]@ != descriptor_name(),
        decreases names@.len() - i,
    {
        if names[i] == marker {
            return true;
        }
        i = i + 1;
    }
    false
}

/// The file name under which a built artifact is restored.
pub fn artifact_file_name(name: &String) -> (r: String)
    ensures
        r@ == name@ + artifact_suffix(),
{
    proof {
        reveal_strlit(".wasm");
    }
    let mut r = name.clone();
    r.append(".wasm");
    r
}

/// The hoisted config of a level from its parsed config file, which must be
/// an object; anything else fails with `Parse`.
pub fn config_from_json(name: String, j: Json) -> (r: Result<Config, BundleError>)
    ensures
        match j {
            Json::Obj(es) => r matches Ok(c) && c.name == name && c.fields == es,
            _ => r == Err::<Config, BundleError>(BundleError::Parse),
        },
{
    match j {
        Json::Obj(es) => Ok(Config { name, fields: es }),
        _ => Err(BundleError::Parse),
    }
}

} // verus!
