//! The build descriptor of a buildable directory.
use vstd::prelude::*;
use crate::error::BundleError;
use crate::json::{find_key, has_key, value_of, Json};

verus! {

/// The commands that build a directory, in order, each with its arguments,
/// and the path of the artifact that they leave, relative to the directory.
pub struct BuildDescriptor {
    pub steps: Vec<(String, Vec<String>)>,
    pub artifact: String,
}

pub open spec fn steps_key() -> Seq<char> {
    seq!['s', 't', 'e', 'p', 's']
}

pub open spec fn artifact_key() -> Seq<char> {
    seq!['a', 'r', 't', 'i', 'f', 'a', 'c', 't']
}

/// `a` is a JSON array of the strings `args`.
pub open spec fn lists_args(a: Json, args: Seq<String>) -> bool {
    a matches Json::Arr(xs) && xs@.len() == args.len() && forall|k: int|
        0 <= k < args.len() ==> (#[trigger] xs@[k] matches Json::Str(s) && s@ == args[k]@)
}

pub open spec fn is_arg_list(a: Json) -> bool {
    a matches Json::Arr(xs) && forall|k: int| 0 <= k < xs@.len() ==> #[trigger] xs@[k] is Str
}

/// The shape of a descriptor: an object with an object of argument lists
/// under "steps" and a string under "artifact".
pub open spec fn is_descriptor(j: Json) -> bool {
    j matches Json::Obj(es) && {
        &&& has_key(es@, steps_key())
        &&& has_key(es@, artifact_key())
        &&& value_of(es@, steps_key()) is Obj
        &&& forall|i: int|
            0 <= i < value_of(es@, steps_key())->Obj_0@.len() ==> #[trigger] is_arg_list(
                value_of(es@, steps_key())->Obj_0@[i].1,
            )
        &&& value_of(es@, artifact_key()) is Str
    }
}

/// The descriptor `d` holds the steps, in order, and the artifact of `j`.
pub open spec fn reads_as(j: Json, d: BuildDescriptor) -> bool {
    j matches Json::Obj(es) && {
        &&& (value_of(es@, steps_key()) matches Json::Obj(st) && {
            &&& d.steps@.len() == st@.len()
            &&& forall|i: int|
                0 <= i < st@.len() ==> #[trigger] d.steps@[i].0@ == st@[i].0@ && lists_args(
                    st@[i].1,
                    d.steps@[i].1@,
                )
        })
        &&& (value_of(es@, artifact_key()) matches Json::Str(a) && d.artifact@ == a@)
    }
}

fn arg_list(a: &Json) -> (r: Option<Vec<String>>)
    ensures
        r is Some <==> is_arg_list(*a),
        r matches Some(v) ==> lists_args(*a, v@),
{
    match a {
        Json::Arr(xs) => {
            let mut v: Vec<String> = Vec::new();
            let mut k: usize = 0;
            while k < xs.len()
                invariant
                    *a == Json::Arr(*xs),
                    k <= xs@.len(),
                    v@.len() == k,
                    forall|i: int|
                        0 <= i < k ==> (#[trigger] xs@[i] matches Json::Str(s) && s@ == v@[i]@),
                decreases xs@.len() - k,
            {
                match &xs[k] {
                    Json::Str(s) => v.push(s.clone()),
                    _ => {
                        assert(!(xs@[k as int] is Str));
                        return None;
                    },
                }
                k = k + 1;
            }
            Some(v)
        },
        _ => None,
    }
}

/// Reads a build descriptor from its parsed file. Anything of another shape
/// fails with `Parse`.
pub fn descriptor_from_json(j: &Json) -> (r: Result<BuildDescriptor, BundleError>)
    ensures
        r is Ok <==> is_descriptor(*j),
        r matches Err(e) ==> e == BundleError::Parse,
        r matches Ok(d) ==> reads_as(*j, d),
{
    let es = match j {
        Json::Obj(es) => es,
        _ => return Err(BundleError::Parse),
    };
    proof {
        reveal_strlit("steps");
        reveal_strlit("artifact");
    }
    let steps_text = String::from_str("steps");
    let artifact_text = String::from_str("artifact");
    assert(steps_text@ == steps_key());
    assert(artifact_text@ == artifact_key());
    assert(*j == Json::Obj(*es));
    let si = match find_key(es, &steps_text) {
        Some(i) => i,
        None => return Err(BundleError::Parse),
    };
    let ai = match find_key(es, &artifact_text) {
        Some(i) => i,
        None => return Err(BundleError::Parse),
    };
    let artifact = match &es[ai].1 {
        Json::Str(a) => a.clone(),
        _ => return Err(BundleError::Parse),
    };
    let st = match &es[si].1 {
        Json::Obj(st) => st,
        _ => return Err(BundleError::Parse),
    };
    let mut steps: Vec<(String, Vec<String>)> = Vec::new();
    let mut i: usize = 0;
    while i < st.len()
        invariant
            *j == Json::Obj(*es),
            has_key(es@, steps_key()),
            has_key(es@, artifact_key()),
            value_of(es@, steps_key()) == Json::Obj(*st),
            value_of(es@, artifact_key()) matches Json::Str(a) && a@ == artifact@,
            i <= st@.len(),
            steps@.len() == i,
            forall|k: int| 0 <= k < i ==> #[trigger] is_arg_list(st@[k].1),
            forall|k: int|
                0 <= k < i ==> #[trigger] steps@[k].0@ == st@[k].0@ && lists_args(
                    st@[k].1,
                    steps@[k].1@,
                ),
        decreases st@.len() - i,
    {
        let args = match arg_list(&st[i].1) {
            Some(v) => v,
            None => {
                assert(!is_arg_list(st@[i as int].1));
                assert(!is_descriptor(*j)) by {
                    if is_descriptor(*j) {
                        assert(value_of(es@, steps_key())->Obj_0 == *st);
                        assert(is_arg_list(st@[i as int].1));
                    }
                }
                return Err(BundleError::Parse);
            },
        };
        steps.push((st[i].0.clone(), args));
        i = i + 1;
    }
    Ok(BuildDescriptor { steps, artifact })
}

/// What the caller of a build does next.
pub enum BuildAction {
    /// Run the step at this position of the descriptor.
    RunStep(usize),
    /// All steps succeeded: read the artifact.
    ReadArtifact,
    /// The build is over, with the artifact's bytes or a `Build` error.
    Done(Result<Vec<u8>, BundleError>),
}

/// The first action of a build with `steps` steps.
pub fn build_start(steps: usize) -> (r: BuildAction)
    ensures
        steps > 0 ==> r == BuildAction::RunStep(0),
        steps == 0 ==> r == BuildAction::ReadArtifact,
{
    if steps > 0 {
        BuildAction::RunStep(0)
    } else {
        BuildAction::ReadArtifact
    }
}

/// The action after step `step` of `steps` exited. A step that failed to
/// start or exited non-zero ends the build with `Build`, and no later step
/// runs; otherwise the next step runs, or the artifact is read after the
/// last one.
pub fn after_step(steps: usize, step: usize, success: bool) -> (r: BuildAction)
    requires
        step < steps,
    ensures
        !success ==> r == BuildAction::Done(Err(BundleError::Build)),
        success && step + 1 < steps ==> r == BuildAction::RunStep((step + 1) as usize),
        success && step + 1 == steps ==> r == BuildAction::ReadArtifact,
{
    if !success {
        BuildAction::Done(Err(BundleError::Build))
    } else if step + 1 < steps {
        BuildAction::RunStep(step + 1)
    } else {
        BuildAction::ReadArtifact
    }
}

/// The end of a build once the artifact was looked for: its bytes, or
/// `Build` when it was missing or not a regular file.
pub fn after_artifact(found: Option<Vec<u8>>) -> (r: BuildAction)
    ensures
        match found {
            Some(b) => r == BuildAction::Done(Ok(b)),
            None => r == BuildAction::Done(Err(BundleError::Build)),
        },
{
    match found {
        Some(b) => BuildAction::Done(Ok(b)),
        None => BuildAction::Done(Err(BundleError::Build)),
    }
}

} // verus!
