//! The manifest projection, the registry, and the deterministic generator.

use nvim_api::generate;
use nvim_api::generate_from_manifest;
use nvim_api::grammar::TypeName;
use nvim_api::manifest::Root;
use nvim_api::manifest::TypeEntry;
use nvim_api::manifest::{Function, Parameter};
use nvim_api::registry::kind_for_tag;
use nvim_api::registry::tag_for_kind;
use nvim_api::root_of;
use nvim_api::generate::option_for_ident;
use nvim_api::BasicType;
use nvim_api::FromMsgpackError;
use nvim_api::GenerateError;
use nvim_api::ManifestError;
use nvim_api::ToMsgpack;
use nvim_api::Version;

fn s(x: &str) -> String {
    x.to_string()
}

fn version() -> Version {
    Version {
        api_compatible: 0,
        api_level: 13,
        api_prerelease: false,
        major: 0,
        minor: 11,
        patch: 4,
        prerelease: true,
    }
}

fn scalar(name: &str) -> TypeName {
    TypeName::Scalar(s(name))
}

fn func(name: &str, params: Vec<(&str, &str)>, ret: &str) -> Function {
    Function {
        method: false,
        name: s(name),
        parameters: params
            .into_iter()
            .map(|(t, n)| Parameter {
                ty: scalar(t),
                name: s(n),
            })
            .collect(),
        return_type: scalar(ret),
        since: 1,
        deprecated_since: None,
    }
}

fn sample_root() -> Root {
    Root {
        version: version(),
        error_types: vec![(s("Validation"), 1), (s("Exception"), 0)],
        types: vec![
            (s("Window"), TypeEntry { id: 1, prefix: s("nvim_win_") }),
            (s("Buffer"), TypeEntry { id: 0, prefix: s("nvim_buf_") }),
            (s("Tabpage"), TypeEntry { id: 2, prefix: s("nvim_tabpage_") }),
        ],
        functions: vec![
            func("window_get_cursor", vec![("Window", "window")], "Object"),
            func("nvim_get_mode", vec![], "Object"),
            func("nvim_set_option", vec![("String", "name"), ("Object", "value")], "void"),
            func("with_callback", vec![("LuaRef", "fun")], "void"),
        ],
        ui_options: vec![s("rgb"), s("ext_cmdline"), s("ext_popupmenu")],
        ui_events: vec![],
    }
}

#[test]
fn version_constant_is_emitted_exactly() {
    let out = generate(&sample_root());
    let expected = "impl Version {\n    pub const CURRENT: Self = Self {\n        api_compatible: 0,\n        api_level: 13,\n        api_prerelease: false,\n        major: 0,\n        minor: 11,\n        patch: 4,\n        prerelease: true,\n    };\n}\n\n";
    assert!(out.starts_with(expected), "got:\n{out}");
}

#[test]
fn object_return_dispatches_on_the_name_prefix() {
    let out = generate(&sample_root());
    assert!(out.contains(
        "    pub async fn window_get_cursor(neovim: &mut impl Neovim, window: Window) -> Window {\n"
    ));
    assert!(out.contains("    pub async fn nvim_get_mode(neovim: &mut impl Neovim) -> BasicType {\n"));
}

#[test]
fn void_return_emits_no_return_clause() {
    let out = generate(&sample_root());
    assert!(out.contains(
        "    pub async fn nvim_set_option(neovim: &mut impl Neovim, name: &str, value: BasicType) {\n"
    ));
}

#[test]
fn callback_reference_functions_are_omitted_entirely() {
    let out = generate(&sample_root());
    assert!(!out.contains("with_callback"));
}

#[test]
fn stub_bodies_encode_each_argument_in_order() {
    let out = generate(&sample_root());
    assert!(out.contains(
        "        neovim.call(\"nvim_set_option\", |w| { name.to_msgpack(w); value.to_msgpack(w); })\n"
    ));
}

#[test]
fn keyword_parameter_names_are_escaped() {
    let mut root = sample_root();
    root.functions = vec![func(
        "nvim_call_function",
        vec![("String", "fn"), ("String", "type")],
        "Object",
    )];
    let out = generate(&root);
    assert!(out.contains("r#fn: &str"));
    assert!(out.contains("r#type: &str"));
    assert!(out.contains("r#fn.to_msgpack(w);"));
}

#[test]
fn sequence_type_names_map_to_collections() {
    let mut root = sample_root();
    root.functions = vec![Function {
        method: false,
        name: s("nvim_buf_get_lines"),
        parameters: vec![
            Parameter {
                ty: TypeName::DynamicArray(s("String")),
                name: s("lines"),
            },
            Parameter {
                ty: TypeName::FixedArray { size: 2, elem: s("Integer") },
                name: s("range"),
            },
        ],
        return_type: TypeName::DynamicArray(s("String")),
        since: 1,
        deprecated_since: None,
    }];
    let out = generate(&root);
    assert!(out.contains("lines: impl Iterator<Item = &str>"));
    assert!(out.contains("range: [i64; 2]"));
    assert!(out.contains("-> Vec<String> {"));
}

#[test]
fn tables_are_emitted_in_lexicographic_key_order() {
    let out = generate(&sample_root());
    let exception = out.find("    Exception,\n").expect("exception variant");
    let validation = out.find("    Validation,\n").expect("validation variant");
    assert!(exception < validation);
    assert!(out.contains("            ErrorKind::Exception => 0,\n"));
    assert!(out.contains("            ErrorKind::Validation => 1,\n"));
    let buf = out.find("impl Buffer {\n    pub const TYPE_ID: i8 = 0;\n}").expect("buffer decl");
    let tab = out.find("impl Tabpage {\n    pub const TYPE_ID: i8 = 2;\n}").expect("tabpage decl");
    let win = out.find("impl Window {\n    pub const TYPE_ID: i8 = 1;\n}").expect("window decl");
    assert!(buf < tab && tab < win);
}

#[test]
fn ui_options_map_to_enumerants_and_back() {
    let out = generate(&sample_root());
    assert!(out.contains("    Rgb,\n"));
    assert!(out.contains("    ExtCmdline,\n"));
    assert!(out.contains("            UiOption::Rgb => \"rgb\",\n"));
    assert!(out.contains("            UiOption::ExtCmdline => \"ext_cmdline\",\n"));
    assert!(out.contains("            UiOption::ExtPopupmenu => \"ext_popupmenu\",\n"));

    let options = sample_root().ui_options;
    assert_eq!(option_for_ident(&options, "Rgb"), Some(&s("rgb")));
    assert_eq!(option_for_ident(&options, "ExtCmdline"), Some(&s("ext_cmdline")));
    assert_eq!(option_for_ident(&options, "Missing"), None);
}

#[test]
fn registry_maps_kinds_and_tags_both_ways() {
    let root = sample_root();
    assert_eq!(tag_for_kind(&root.types, "Buffer"), Some(0));
    assert_eq!(tag_for_kind(&root.types, "Window"), Some(1));
    assert_eq!(tag_for_kind(&root.types, "Unknown"), None);
    assert_eq!(kind_for_tag(&root.types, 2), Some(&s("Tabpage")));
    assert_eq!(kind_for_tag(&root.types, 9), None);
}

fn str_val(x: &str) -> BasicType {
    BasicType::String(s(x))
}

fn entry(k: &str, v: BasicType) -> (BasicType, BasicType) {
    (str_val(k), v)
}

fn manifest_value() -> BasicType {
    let version = BasicType::Dictionary(vec![
        entry("api_compatible", BasicType::Integer(0)),
        entry("api_level", BasicType::Integer(13)),
        entry("api_prerelease", BasicType::Boolean(false)),
        entry("major", BasicType::Integer(0)),
        entry("minor", BasicType::Integer(11)),
        entry("patch", BasicType::Integer(4)),
        entry("prerelease", BasicType::Boolean(true)),
    ]);
    let error_types = BasicType::Dictionary(vec![
        entry(
            "Validation",
            BasicType::Dictionary(vec![entry("id", BasicType::Integer(1))]),
        ),
        entry(
            "Exception",
            BasicType::Dictionary(vec![entry("id", BasicType::Integer(0))]),
        ),
    ]);
    let types = BasicType::Dictionary(vec![entry(
        "Buffer",
        BasicType::Dictionary(vec![
            entry("id", BasicType::Integer(0)),
            entry("prefix", str_val("nvim_buf_")),
        ]),
    )]);
    let param = |t: &str, n: &str| BasicType::Array(vec![str_val(t), str_val(n)]);
    let functions = BasicType::Array(vec![BasicType::Dictionary(vec![
        entry("method", BasicType::Boolean(false)),
        entry("name", str_val("window_get_cursor")),
        entry("parameters", BasicType::Array(vec![param("Window", "window")])),
        entry("return_type", str_val("Object")),
        entry("since", BasicType::Integer(1)),
    ])]);
    let ui_options = BasicType::Array(vec![str_val("rgb"), str_val("ext_cmdline")]);
    let ui_events = BasicType::Array(vec![BasicType::Dictionary(vec![
        entry("name", str_val("grid_line")),
        entry("parameters", BasicType::Array(vec![param("Integer", "grid")])),
        entry("since", BasicType::Integer(2)),
    ])]);
    BasicType::Dictionary(vec![
        entry("version", version),
        entry("error_types", error_types),
        entry("types", types),
        entry("functions", functions),
        entry("ui_options", ui_options),
        entry("ui_events", ui_events),
    ])
}

#[test]
fn projection_reads_the_manifest_shape() {
    let root = root_of(&manifest_value()).expect("well-formed manifest");
    assert_eq!(root.version, version());
    assert_eq!(root.error_types, vec![(s("Validation"), 1), (s("Exception"), 0)]);
    assert_eq!(root.types.len(), 1);
    assert_eq!(root.types[0].0, s("Buffer"));
    assert_eq!(root.types[0].1, TypeEntry { id: 0, prefix: s("nvim_buf_") });
    assert_eq!(root.functions.len(), 1);
    assert_eq!(root.functions[0].name, s("window_get_cursor"));
    assert_eq!(root.functions[0].deprecated_since, None);
    assert_eq!(root.ui_options, vec![s("rgb"), s("ext_cmdline")]);
    assert_eq!(root.ui_events.len(), 1);
    assert_eq!(root.ui_events[0].name, s("grid_line"));
}

#[test]
fn malformed_manifests_are_fatal() {
    assert_eq!(root_of(&BasicType::Nil), Err(ManifestError::Shape));
    // a version field of the wrong category
    let broken = BasicType::Dictionary(vec![entry("version", BasicType::Integer(3))]);
    assert_eq!(root_of(&broken), Err(ManifestError::Shape));
}

#[test]
fn option_identifiers_normalize_segments() {
    // separators are dropped, each segment's first letter is uppercased,
    // and other characters pass through unchanged
    let options = vec![s("ext_cmdline"), s("a__b"), s("_x"), s("rgb9")];
    let out = generate(&Root { ui_options: options.clone(), ..sample_root() });
    assert!(out.contains("    ExtCmdline,\n"));
    assert!(out.contains("    AB,\n"));
    assert!(out.contains("    X,\n"));
    assert!(out.contains("    Rgb9,\n"));
    assert_eq!(option_for_ident(&options, "AB"), Some(&s("a__b")));
}

#[test]
fn deprecated_ordinal_is_projected_when_present() {
    let f = || {
        BasicType::Dictionary(vec![
            entry("method", BasicType::Boolean(true)),
            entry("name", str_val("buffer_insert")),
            entry("parameters", BasicType::Array(vec![])),
            entry("return_type", str_val("void")),
            entry("since", BasicType::Integer(1)),
            entry("deprecated_since", BasicType::Integer(2)),
        ])
    };
    let mut v = manifest_value();
    if let BasicType::Dictionary(ref mut es) = v {
        for pair in es.iter_mut() {
            if pair.0 == str_val("functions") {
                pair.1 = BasicType::Array(vec![f()]);
            }
        }
    }
    let root = root_of(&v).expect("well-formed");
    assert_eq!(root.functions[0].deprecated_since, Some(2));
    assert!(root.functions[0].method);
}

#[test]
fn whole_pass_runs_from_bytes_and_is_deterministic() {
    let v = manifest_value();
    let mut bytes = Vec::new();
    v.to_msgpack(&mut bytes).expect("manifest fits");
    let once = generate_from_manifest(&bytes).expect("generates");
    let twice = generate_from_manifest(&bytes).expect("generates");
    assert_eq!(once, twice);
    let root = root_of(&v).unwrap();
    assert_eq!(once, generate(&root));
    assert!(once.contains("window_get_cursor"));
}

#[test]
fn undecodable_manifest_bytes_fail_the_pass() {
    assert_eq!(
        generate_from_manifest(&vec![]),
        Err(GenerateError::Decode(FromMsgpackError::MarkerRead))
    );
    let truncated = vec![0x81, 0xa1];
    assert_eq!(
        generate_from_manifest(&truncated),
        Err(GenerateError::Decode(FromMsgpackError::Io))
    );
    // decodes, but is not shaped like a manifest
    let mut not_a_manifest = Vec::new();
    BasicType::Nil.to_msgpack(&mut not_a_manifest).unwrap();
    assert_eq!(
        generate_from_manifest(&not_a_manifest),
        Err(GenerateError::Manifest(ManifestError::Shape))
    );
}
