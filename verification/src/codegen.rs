use vstd::prelude::*;
use vstd::string::to_string_from_display_ensures;
use vstd::string::StringSliceAdditionalSpecFns;
use vstd::utf8::{decode_utf8, encode_utf8, valid_utf8};

use crate::error::{path_text, path_to_str, Error};
use crate::json::{json_accepts, json_value, parse_json};
use crate::language::{language_name, Language};

verus! {

/// The bytes of an optional path, if there is one.
pub open spec fn optional_bytes(path: Option<&[u8]>) -> Option<Seq<u8>> {
    match path {
        Some(p) => Some(p@),
        None => None,
    }
}

/// The text handed to cricket for an optional path or name: the text itself, or the empty text
/// that selects cricket's default when there is none.
pub open spec fn optional_path_text(path: Option<Seq<u8>>) -> Seq<char> {
    match path {
        Some(p) => path_text(p),
        None => Seq::empty(),
    }
}

/// The text handed to cricket for an optional name.
pub open spec fn optional_text(text: Option<&str>) -> Seq<char> {
    match text {
        Some(t) => t@,
        None => Seq::empty(),
    }
}

/// An optional path that is there and is not valid UTF-8.
pub open spec fn bad_optional_path(path: Option<Seq<u8>>) -> bool {
    path matches Some(p) && !valid_utf8(p)
}

/// The first path of the list that is not valid UTF-8, if any.
pub open spec fn first_non_utf8(paths: Seq<Seq<u8>>) -> Option<Seq<u8>>
    decreases paths.len(),
{
    if paths.len() == 0 {
        None
    } else if !valid_utf8(paths[0]) {
        Some(paths[0])
    } else {
        first_non_utf8(paths.drop_first())
    }
}

/// An optional path handed across as text: `""` when there is none.
fn optional_path_to_str(path: Option<&[u8]>) -> (r: Result<&str, Error>)
    ensures
        r is Err <==> bad_optional_path(optional_bytes(path)),
        r matches Ok(s) ==> s@ == optional_path_text(optional_bytes(path)),
        r matches Err(e) ==> e matches Error::NonUtf8Path(p) && Some(p@) == optional_bytes(path),
        path matches Some(p) ==> (r is Ok <==> valid_utf8(p@)),
        r matches Ok(s) ==> match path {
            Some(p) => s.spec_bytes() == p@,
            None => s@ == Seq::<char>::empty(),
        },
{
    match path {
        Some(p) => path_to_str(p),
        None => {
            proof {
                reveal_strlit("");
            }
            Ok("")
        },
    }
}

/// The three texts cricket's `RobotInfo` constructor takes: the URDF path, the SRDF path (`""`
/// for none) and the end effector's name (`""` for none).
#[derive(Debug)]
pub struct RobotInfoArgs<'a> {
    pub urdf: &'a str,
    pub srdf: &'a str,
    pub end_effector: &'a str,
}

/// Prepares the arguments of cricket's `RobotInfo` constructor. The URDF path is checked first,
/// then the SRDF path; the first that is not valid UTF-8 is the error.
pub fn robot_info_args<'a>(
    urdf: &'a [u8],
    srdf: Option<&'a [u8]>,
    end_effector: Option<&'a str>,
) -> (r: Result<RobotInfoArgs<'a>, Error>)
    ensures
        r is Ok <==> valid_utf8(urdf@) && !bad_optional_path(optional_bytes(srdf)),
        r matches Err(e) ==> e matches Error::NonUtf8Path(p) && if !valid_utf8(urdf@) {
            p@ == urdf@
        } else {
            Some(p@) == optional_bytes(srdf)
        },
        r matches Ok(args) ==> {
            &&& args.urdf@ == path_text(urdf@)
            &&& args.srdf@ == optional_path_text(optional_bytes(srdf))
            &&& args.end_effector@ == optional_text(end_effector)
        },
        valid_utf8(urdf@) && (srdf matches Some(p) ==> valid_utf8(p@)) ==> r is Ok,
        r matches Err(e) ==> e matches Error::NonUtf8Path(p) && !valid_utf8(p@),
        r matches Ok(args) ==> {
            &&& args.urdf.spec_bytes() == urdf@
            &&& srdf matches Some(p) ==> args.srdf.spec_bytes() == p@
            &&& srdf is None ==> args.srdf@ == Seq::<char>::empty()
        },
{
    let urdf = path_to_str(urdf)?;
    let srdf = optional_path_to_str(srdf)?;
    let end_effector = match end_effector {
        Some(e) => e,
        None => "",
    };
    proof {
        reveal_strlit("");
    }
    Ok(RobotInfoArgs { urdf, srdf, end_effector })
}

/// A named subtemplate the main template can `{% include %}`, as cricket takes it.
#[derive(Debug)]
pub struct Subtemplate {
    pub name: String,
    pub path: String,
}

/// The paths of the subtemplates, in order.
pub open spec fn subtemplate_paths(subtemplates: Seq<(&str, &[u8])>) -> Seq<Seq<u8>> {
    subtemplates.map_values(|s: (&str, &[u8])| s.1@)
}

/// Which path, if any, stops a code generation request: the URDF path, then the SRDF path, then
/// the template path, then each subtemplate's path in order; the first that is not valid UTF-8.
pub open spec fn generate_path_error(
    urdf: Seq<u8>,
    srdf: Option<Seq<u8>>,
    template_path: Option<Seq<u8>>,
    subtemplates: Seq<Seq<u8>>,
) -> Option<Seq<u8>> {
    if !valid_utf8(urdf) {
        Some(urdf)
    } else if bad_optional_path(srdf) {
        srdf
    } else if bad_optional_path(template_path) {
        template_path
    } else {
        first_non_utf8(subtemplates)
    }
}

/// A present optional path stops the call exactly when its bytes are not valid UTF-8; otherwise
/// it is handed over as the text whose UTF-8 encoding is exactly those bytes, which is empty only
/// for the empty path. An absent path never stops the call and is handed over as the empty text.
pub proof fn lemma_optional_path_handed_over(path: Option<Seq<u8>>)
    ensures
        path is None ==> !bad_optional_path(path) && optional_path_text(path) == Seq::<char>::empty(),
        path matches Some(p) ==> (bad_optional_path(path) <==> !valid_utf8(p)),
        path matches Some(p) ==> (valid_utf8(p) ==> encode_utf8(optional_path_text(path)) == p
            && optional_path_text(path) == decode_utf8(p)),
        path matches Some(p) ==> (valid_utf8(p) && p.len() > 0 ==> optional_path_text(path).len()
            > 0),
{
    if let Some(p) = path {
        if valid_utf8(p) {
            lemma_path_text_encodes_path(p);
            if p.len() > 0 && optional_path_text(path).len() == 0 {
                assert(optional_path_text(path) =~= Seq::<char>::empty());
                assert(encode_utf8(Seq::<char>::empty()) =~= Seq::<u8>::empty());
            }
        }
    }
}

/// The text a valid UTF-8 path is handed over as encodes back to exactly the path's bytes.
pub proof fn lemma_path_text_encodes_path(p: Seq<u8>)
    requires
        valid_utf8(p),
    ensures
        encode_utf8(path_text(p)) == p,
{
    vstd::utf8::decode_utf8_encode_utf8(p);
}

/// `first_non_utf8` finds nothing exactly when every path is valid UTF-8, and otherwise finds the
/// earliest path that is not.
pub proof fn lemma_first_non_utf8_is_first_invalid(paths: Seq<Seq<u8>>)
    ensures
        first_non_utf8(paths) is None <==> forall|i: int|
            0 <= i < paths.len() ==> valid_utf8(#[trigger] paths[i]),
        forall|k: int|
            0 <= k < paths.len() && !valid_utf8(#[trigger] paths[k]) && (forall|i: int|
                0 <= i < k ==> valid_utf8(paths[i])) ==> first_non_utf8(paths) == Some(paths[k]),
    decreases paths.len(),
{
    if paths.len() > 0 {
        let rest = paths.drop_first();
        lemma_first_non_utf8_is_first_invalid(rest);
        if first_non_utf8(paths) is None {
            assert forall|i: int| 0 <= i < paths.len() implies valid_utf8(#[trigger] paths[i]) by {
                if i > 0 {
                    assert(rest[i - 1] == paths[i]);
                }
            }
        }
        if forall|i: int| 0 <= i < paths.len() ==> valid_utf8(#[trigger] paths[i]) {
            assert forall|i: int| 0 <= i < rest.len() implies valid_utf8(#[trigger] rest[i]) by {
                assert(rest[i] == paths[i + 1]);
            }
        }
        assert forall|k: int|
            0 <= k < paths.len() && !valid_utf8(#[trigger] paths[k]) && (forall|i: int|
                0 <= i < k ==> valid_utf8(paths[i])) implies first_non_utf8(paths) == Some(
            paths[k],
        ) by {
            if k > 0 {
                assert(valid_utf8(paths[0]));
                assert(rest[k - 1] == paths[k]);
                assert forall|i: int| 0 <= i < k - 1 implies valid_utf8(rest[i]) by {
                    assert(rest[i] == paths[i + 1]);
                }
            }
        }
    }
}

/// `first_non_utf8` of two lists one after the other: the first list's finding if it has one,
/// else the second's.
pub proof fn lemma_first_non_utf8_concat(a: Seq<Seq<u8>>, b: Seq<Seq<u8>>)
    ensures
        first_non_utf8(a + b) == if first_non_utf8(a) is Some {
            first_non_utf8(a)
        } else {
            first_non_utf8(b)
        },
    decreases a.len(),
{
    if a.len() == 0 {
        assert(a + b =~= b);
    } else {
        assert((a + b).drop_first() =~= a.drop_first() + b);
        assert((a + b)[0] == a[0]);
        lemma_first_non_utf8_concat(a.drop_first(), b);
    }
}

/// The path that stops a code generation request is the first path that is not valid UTF-8 in
/// the order urdf, srdf (if any), template (if any), then the subtemplates in order; there is
/// none exactly when all of them are valid UTF-8.
pub proof fn lemma_generate_path_error_in_order(
    urdf: Seq<u8>,
    srdf: Option<Seq<u8>>,
    template_path: Option<Seq<u8>>,
    subtemplates: Seq<Seq<u8>>,
)
    ensures
        generate_path_error(urdf, srdf, template_path, subtemplates) == first_non_utf8(
            seq![urdf] + match srdf {
                Some(p) => seq![p],
                None => Seq::empty(),
            } + match template_path {
                Some(p) => seq![p],
                None => Seq::empty(),
            } + subtemplates,
        ),
{
    let s = match srdf {
        Some(p) => seq![p],
        None => Seq::<Seq<u8>>::empty(),
    };
    let t = match template_path {
        Some(p) => seq![p],
        None => Seq::<Seq<u8>>::empty(),
    };
    let u = seq![urdf];
    lemma_first_non_utf8_concat(u + s + t, subtemplates);
    lemma_first_non_utf8_concat(u + s, t);
    lemma_first_non_utf8_concat(u, s);
    assert(first_non_utf8(u.drop_first()) is None) by {
        assert(u.drop_first() =~= Seq::<Seq<u8>>::empty());
    }
    if let Some(p) = srdf {
        assert(s.drop_first() =~= Seq::<Seq<u8>>::empty());
    }
    if let Some(p) = template_path {
        assert(t.drop_first() =~= Seq::<Seq<u8>>::empty());
    }
}

/// Everything cricket's `generate_robot_source` takes but the Cartesian bounds: the texts of the
/// paths and names (`""` selects cricket's default), the subtemplates, the language's name and the
/// extra template data as JSON text (`""` for none).
#[derive(Debug)]
pub struct GenRequest<'a> {
    pub urdf: &'a str,
    pub srdf: &'a str,
    pub end_effector: &'a str,
    pub template_path: &'a str,
    pub subtemplates: Vec<Subtemplate>,
    pub language: &'static str,
    pub extra_data_json: String,
}

/// Prepares a code generation request. Fails with `NonUtf8Path` for the first path, in the order
/// of `generate_path_error`, that is not valid UTF-8.
pub fn generate_request<'a>(
    urdf: &'a [u8],
    srdf: Option<&'a [u8]>,
    end_effector: Option<&'a str>,
    template_path: Option<&'a [u8]>,
    subtemplates: &[(&str, &[u8])],
    language: Language,
    extra_data: Option<&serde_json::Value>,
) -> (r: Result<GenRequest<'a>, Error>)
    ensures
        r is Err <==> generate_path_error(
            urdf@,
            optional_bytes(srdf),
            optional_bytes(template_path),
            subtemplate_paths(subtemplates@),
        ) is Some,
        r matches Err(e) ==> e matches Error::NonUtf8Path(p) && Some(p@) == generate_path_error(
            urdf@,
            optional_bytes(srdf),
            optional_bytes(template_path),
            subtemplate_paths(subtemplates@),
        ),
        r matches Ok(req) ==> {
            &&& req.urdf@ == path_text(urdf@)
            &&& req.srdf@ == optional_path_text(optional_bytes(srdf))
            &&& req.end_effector@ == optional_text(end_effector)
            &&& req.template_path@ == optional_path_text(optional_bytes(template_path))
            &&& req.subtemplates.len() == subtemplates.len()
            &&& forall|i: int|
                0 <= i < subtemplates.len() ==> (#[trigger] req.subtemplates@[i]).name@
                    == subtemplates@[i].0@ && req.subtemplates@[i].path@ == path_text(
                    subtemplates@[i].1@,
                )
            &&& req.language@ == language_name(language)
            &&& extra_data is None ==> req.extra_data_json@ == Seq::<char>::empty()
            &&& extra_data matches Some(v) ==> to_string_from_display_ensures::<serde_json::Value>(
                v,
                req.extra_data_json,
            )
        },
        ({
            &&& valid_utf8(urdf@)
            &&& srdf matches Some(p) ==> valid_utf8(p@)
            &&& template_path matches Some(p) ==> valid_utf8(p@)
            &&& forall|i: int| 0 <= i < subtemplates.len() ==> valid_utf8(#[trigger] subtemplates@[i].1@)
        }) ==> r is Ok,
        r matches Err(e) ==> e matches Error::NonUtf8Path(p) && !valid_utf8(p@),
        r matches Ok(req) ==> {
            &&& req.urdf.spec_bytes() == urdf@
            &&& srdf matches Some(p) ==> req.srdf.spec_bytes() == p@
            &&& srdf is None ==> req.srdf@ == Seq::<char>::empty()
            &&& template_path matches Some(p) ==> req.template_path.spec_bytes() == p@
            &&& template_path is None ==> req.template_path@ == Seq::<char>::empty()
            &&& forall|i: int|
                0 <= i < subtemplates.len() ==> encode_utf8((#[trigger] req.subtemplates@[i]).path@)
                    == subtemplates@[i].1@
        },
{
    let urdf_text = path_to_str(urdf)?;
    let srdf_text = optional_path_to_str(srdf)?;
    let template_text = optional_path_to_str(template_path)?;

    let ghost paths = subtemplate_paths(subtemplates@);
    let n = subtemplates.len();
    let mut subs: Vec<Subtemplate> = Vec::new();
    assert(paths.skip(0) =~= paths);
    for i in 0..n
        invariant
            n == subtemplates@.len(),
            valid_utf8(urdf@),
            !bad_optional_path(optional_bytes(srdf)),
            !bad_optional_path(optional_bytes(template_path)),
            paths == subtemplate_paths(subtemplates@),
            paths.len() == n,
            first_non_utf8(paths) == first_non_utf8(paths.skip(i as int)),
            subs.len() == i,
            forall|k: int|
                0 <= k < i ==> (#[trigger] subs@[k]).name@ == subtemplates@[k].0@
                    && subs@[k].path@ == path_text(subtemplates@[k].1@)
                    && encode_utf8(subs@[k].path@) == subtemplates@[k].1@,
            forall|k: int| 0 <= k < i ==> valid_utf8(#[trigger] paths[k]),
    {
        let (name, path) = subtemplates[i];
        assert(paths.skip(i as int)[0] == path@);
        match path_to_str(path) {
            Ok(text) => {
                subs.push(Subtemplate { name: name.to_owned(), path: text.to_owned() });
                assert(paths.skip(i as int).drop_first() =~= paths.skip(i + 1));
            },
            Err(e) => {
                assert(first_non_utf8(paths.skip(i as int)) == Some(path@));
                return Err(e);
            },
        }
    }
    assert(paths.skip(n as int) =~= Seq::<Seq<u8>>::empty());

    let end_effector = match end_effector {
        Some(e) => e,
        None => "",
    };
    let extra_data_json = match extra_data {
        Some(v) => v.to_string(),
        None => String::new(),
    };
    proof {
        reveal_strlit("");
    }
    Ok(
        GenRequest {
            urdf: urdf_text,
            srdf: srdf_text,
            end_effector,
            template_path: template_text,
            subtemplates: subs,
            language: language.as_str(),
            extra_data_json,
        },
    )
}

/// What cricket's `generate_robot_source` reports, as it crosses the FFI boundary: the rendered
/// source, the template data context as JSON text, and the robot's name, dimension and sphere
/// count.
#[derive(Debug)]
pub struct RawGenResult {
    pub source: String,
    pub data_json: String,
    pub robot_name: String,
    pub dimension: usize,
    pub n_spheres: usize,
}

/// The rendered source, plus the metadata cricket derived about the robot along the way.
#[derive(Debug)]
pub struct GenResult {
    pub source: String,
    /// The full merged template data context (bounds, joint topology, every traced code
    /// fragment, ...), as parsed JSON.
    pub data: serde_json::Value,
    pub robot_name: String,
    pub dimension: usize,
    pub n_spheres: usize,
}

impl GenResult {
    /// Takes cricket's report over, parsing its data context; `None` exactly when the data
    /// context is not JSON (which cricket never reports).
    pub fn from_raw(raw: RawGenResult) -> (r: Option<GenResult>)
        ensures
            r is Some <==> json_accepts(raw.data_json@),
            r matches Some(g) ==> {
                &&& g.source == raw.source
                &&& g.data == json_value(raw.data_json@)
                &&& g.robot_name == raw.robot_name
                &&& g.dimension == raw.dimension
                &&& g.n_spheres == raw.n_spheres
            },
    {
        match parse_json(raw.data_json.as_str()) {
            Some(data) => Some(
                GenResult {
                    source: raw.source,
                    data,
                    robot_name: raw.robot_name,
                    dimension: raw.dimension,
                    n_spheres: raw.n_spheres,
                },
            ),
            None => None,
        }
    }
}

} // verus!
