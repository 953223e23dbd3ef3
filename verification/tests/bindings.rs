use std::collections::BTreeSet;

use cricket::{
    allowed_link_pairs, bounding_spheres, generate_request, parse_json, path_to_str,
    per_link_spheres, robot_info_args, Error, GenResult, Language, LinkSpheres, RawGenResult,
    Traced,
};

fn link(link_index: usize, sphere_indices: Vec<usize>) -> LinkSpheres {
    LinkSpheres { link_index, sphere_indices }
}

#[test]
fn language_names_are_cricket_names() {
    assert_eq!(Language::Cpp.as_str(), "c++");
    assert_eq!(Language::Rust.as_str(), "rust");
    assert_ne!(Language::Cpp.as_str(), Language::Rust.as_str());
}

#[test]
fn default_language_is_cpp() {
    assert_eq!(Language::default(), Language::Cpp);
}

#[test]
fn utf8_path_is_handed_over_as_text() {
    let path = "/robots/panda/panda_spherized.urdf".as_bytes();
    assert_eq!(path_to_str(path).unwrap(), "/robots/panda/panda_spherized.urdf");
    let accented = "/données/bras.urdf".as_bytes();
    assert_eq!(path_to_str(accented).unwrap(), "/données/bras.urdf");
    assert_eq!(path_to_str(b"").unwrap(), "");
}

#[test]
fn non_utf8_path_is_a_typed_error_carrying_the_path() {
    let bad: &[u8] = b"/robots/p\xffnda.urdf";
    match path_to_str(bad) {
        Err(Error::NonUtf8Path(p)) => assert_eq!(p, bad.to_vec()),
        other => panic!("expected NonUtf8Path, got {:?}", other),
    }
    // A truncated multi-byte sequence is not UTF-8 either.
    assert!(matches!(path_to_str(b"\xc3"), Err(Error::NonUtf8Path(_))));
}

#[test]
fn error_messages() {
    let cricket = Error::Cricket("failed to parse URDF".to_string());
    assert_eq!(cricket.to_string(), "failed to parse URDF");
    let path = Error::NonUtf8Path(b"/tmp/p\xffnda".to_vec());
    assert_eq!(path.to_string(), "path /tmp/p\u{FFFD}nda is not valid UTF-8");
    assert!(!path.to_string().is_empty());
}

#[test]
fn per_link_spheres_orders_entries_by_link_index() {
    let raw = vec![
        link(2, vec![7, 8]),
        link(0, vec![1]),
        link(1, vec![]),
        link(3, vec![4, 5, 6]),
    ];
    let out = per_link_spheres(raw);
    assert_eq!(out, vec![vec![1], vec![], vec![7, 8], vec![4, 5, 6]]);
}

#[test]
fn per_link_spheres_indexed_by_link_index() {
    // Link indices 0..n, each once: each link's list sits at its own index.
    let raw = vec![link(4, vec![40]), link(1, vec![10]), link(3, vec![30]), link(0, vec![0]), link(2, vec![20])];
    let out = per_link_spheres(raw);
    for (i, spheres) in out.iter().enumerate() {
        assert_eq!(spheres, &vec![i * 10]);
    }
}

#[test]
fn per_link_spheres_is_stable_for_equal_link_indices() {
    let raw = vec![
        link(5, vec![1]),
        link(2, vec![2]),
        link(5, vec![3]),
        link(2, vec![4]),
        link(5, vec![5]),
    ];
    let out = per_link_spheres(raw);
    assert_eq!(out, vec![vec![2], vec![4], vec![1], vec![3], vec![5]]);
}

#[test]
fn per_link_spheres_of_nothing_is_empty() {
    assert!(per_link_spheres(Vec::new()).is_empty());
}

#[test]
fn allowed_link_pairs_collects_each_pair_once_in_order() {
    let raw = [(3, 4), (0, 1), (3, 4), (0, 2), (1, 5)];
    let pairs = allowed_link_pairs(&raw);
    assert_eq!(pairs.len(), 4);
    let in_order: Vec<(usize, usize)> = pairs.iter().copied().collect();
    assert_eq!(in_order, vec![(0, 1), (0, 2), (1, 5), (3, 4)]);
    for (a, b) in &pairs {
        assert!(a <= b, "allowed_link_pairs should stay normalized (a <= b)");
    }
    assert_eq!(allowed_link_pairs(&[]), BTreeSet::new());
}

#[test]
fn bounding_spheres_are_keyed_by_frame_with_last_entry_kept() {
    let raw = vec![(7, "a"), (3, "b"), (7, "c"), (9, "d")];
    let by_frame = bounding_spheres(raw);
    assert_eq!(by_frame.len(), 3);
    assert_eq!(by_frame[&7], "c");
    assert_eq!(by_frame[&3], "b");
    assert_eq!(by_frame[&9], "d");
    assert!(!by_frame.contains_key(&0));
}

#[test]
fn robot_info_args_select_defaults_with_empty_text() {
    let args = robot_info_args(b"panda/panda_spherized.urdf", None, None).unwrap();
    assert_eq!(args.urdf, "panda/panda_spherized.urdf");
    assert_eq!(args.srdf, "");
    assert_eq!(args.end_effector, "");

    let args = robot_info_args(
        b"panda/panda_spherized.urdf",
        Some(b"panda/panda.srdf"),
        Some("panda_grasptarget"),
    )
    .unwrap();
    assert_eq!(args.srdf, "panda/panda.srdf");
    assert_eq!(args.end_effector, "panda_grasptarget");
}

#[test]
fn robot_info_args_report_the_first_non_utf8_path() {
    let both_bad = robot_info_args(b"u\xff", Some(b"s\xfe"), None);
    match both_bad {
        Err(Error::NonUtf8Path(p)) => assert_eq!(p, b"u\xff".to_vec()),
        other => panic!("unexpected {:?}", other),
    }
    let srdf_bad = robot_info_args(b"robot.urdf", Some(b"s\xfe"), Some("ee"));
    match srdf_bad {
        Err(Error::NonUtf8Path(p)) => assert_eq!(p, b"s\xfe".to_vec()),
        other => panic!("unexpected {:?}", other),
    }
}

#[test]
fn generate_request_with_defaults() {
    let req = generate_request(b"panda.urdf", None, None, None, &[], Language::default(), None)
        .unwrap();
    assert_eq!(req.urdf, "panda.urdf");
    assert_eq!(req.srdf, "");
    assert_eq!(req.end_effector, "");
    assert_eq!(req.template_path, "");
    assert!(req.subtemplates.is_empty());
    assert_eq!(req.language, "c++");
    assert_eq!(req.extra_data_json, "");
}

#[test]
fn generate_request_carries_every_argument() {
    let extra = parse_json(r#"{"name": "Panda", "resolution": 32}"#).unwrap();
    let subtemplates: [(&str, &[u8]); 2] = [("fk", b"templates/fk.hh"), ("cc", b"templates/cc.hh")];
    let req = generate_request(
        b"panda/panda_spherized.urdf",
        Some(b"panda/panda.srdf"),
        Some("panda_grasptarget"),
        Some(b"templates/main.hh"),
        &subtemplates,
        Language::Rust,
        Some(&extra),
    )
    .unwrap();
    assert_eq!(req.urdf, "panda/panda_spherized.urdf");
    assert_eq!(req.srdf, "panda/panda.srdf");
    assert_eq!(req.end_effector, "panda_grasptarget");
    assert_eq!(req.template_path, "templates/main.hh");
    assert_eq!(req.subtemplates.len(), 2);
    assert_eq!(req.subtemplates[0].name, "fk");
    assert_eq!(req.subtemplates[0].path, "templates/fk.hh");
    assert_eq!(req.subtemplates[1].name, "cc");
    assert_eq!(req.subtemplates[1].path, "templates/cc.hh");
    assert_eq!(req.language, "rust");
    let round_trip = parse_json(&req.extra_data_json).unwrap();
    assert_eq!(round_trip, extra);
    assert_eq!(round_trip["name"], "Panda");
    assert_eq!(round_trip["resolution"], 32);
}

fn first_path(r: Result<cricket::GenRequest<'_>, Error>) -> Vec<u8> {
    match r {
        Err(Error::NonUtf8Path(p)) => p,
        other => panic!("unexpected {:?}", other),
    }
}

#[test]
fn generate_request_checks_paths_in_order() {
    let good_sub: (&str, &[u8]) = ("ok", b"ok.hh");
    let bad_sub_1: (&str, &[u8]) = ("bad1", b"b1\xff");
    let bad_sub_2: (&str, &[u8]) = ("bad2", b"b2\xff");

    let r = generate_request(b"u\xff", Some(b"s\xff"), None, Some(b"t\xff"), &[bad_sub_1], Language::Cpp, None);
    assert_eq!(first_path(r), b"u\xff".to_vec());
    let r = generate_request(b"u", Some(b"s\xff"), None, Some(b"t\xff"), &[bad_sub_1], Language::Cpp, None);
    assert_eq!(first_path(r), b"s\xff".to_vec());
    let r = generate_request(b"u", Some(b"s"), None, Some(b"t\xff"), &[bad_sub_1], Language::Cpp, None);
    assert_eq!(first_path(r), b"t\xff".to_vec());
    let r = generate_request(b"u", None, None, None, &[good_sub, bad_sub_1, bad_sub_2], Language::Cpp, None);
    assert_eq!(first_path(r), b"b1\xff".to_vec());
    let r = generate_request(b"u", None, None, None, &[good_sub, good_sub, bad_sub_2], Language::Cpp, None);
    assert_eq!(first_path(r), b"b2\xff".to_vec());
}

#[test]
fn parse_json_accepts_only_json() {
    let metadata = parse_json(r#"{"n_q": 7, "end_effector": "panda_grasptarget"}"#).unwrap();
    assert_eq!(metadata["n_q"], 7);
    assert_eq!(metadata["end_effector"], "panda_grasptarget");
    assert!(parse_json("[1, 2, 3]").is_some());
    assert!(parse_json("{\"n_q\": ").is_none());
    assert!(parse_json("").is_none());
}

#[test]
fn gen_result_parses_its_data_context() {
    let raw = RawGenResult {
        source: "namespace panda {}".to_string(),
        data_json: r#"{"n_q": 7, "name": "Panda"}"#.to_string(),
        robot_name: "Panda".to_string(),
        dimension: 7,
        n_spheres: 59,
    };
    let result = GenResult::from_raw(raw).unwrap();
    assert_eq!(result.robot_name, "Panda");
    assert!(result.source.contains("namespace"));
    assert_eq!(result.data["n_q"], result.dimension);
    assert_eq!(result.n_spheres, 59);
    assert_eq!(result.data, parse_json(r#"{"n_q": 7, "name": "Panda"}"#).unwrap());
    assert_ne!(result.data, parse_json("null").unwrap());
}

#[test]
fn gen_result_rejects_a_data_context_that_is_not_json() {
    let raw = RawGenResult {
        source: String::new(),
        data_json: "not json".to_string(),
        robot_name: String::new(),
        dimension: 0,
        n_spheres: 0,
    };
    assert!(GenResult::from_raw(raw).is_none());
}

#[test]
fn traced_fragments_compare_by_value() {
    let a = Traced { code: "out[0] = q[0];".to_string(), temp_variables: 0, outputs: 12 };
    let b = a.clone();
    assert_eq!(a, b);
    assert_ne!(a, Traced { code: String::new(), temp_variables: 0, outputs: 12 });
}
