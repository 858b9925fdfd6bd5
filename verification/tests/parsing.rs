//! The wavefront text layer: numerals, tokens, documents, libraries.

use rays::fixed::SCALE;
use rays::wavefront::{
    collect_args, collect_triple, get_absolute_index, parse_arg, parse_int, parse_triple,
    FaceIndex, MtlLibrary, WavefrontObject,
};

fn lines(texts: &[&str]) -> Vec<Vec<u8>> {
    texts.iter().map(|t| t.as_bytes().to_vec()).collect()
}

#[test]
fn parse_arg_decimals() {
    assert_eq!(parse_arg(b"3.5"), Some(3 * SCALE + SCALE / 2));
    assert_eq!(parse_arg(b"-0.25"), Some(-(SCALE / 4)));
    assert_eq!(parse_arg(b"12"), Some(12 * SCALE));
    assert_eq!(parse_arg(b"0"), Some(0));
    assert_eq!(parse_arg(b"1."), Some(SCALE));
    assert_eq!(parse_arg(b".5"), Some(SCALE / 2));
    assert_eq!(parse_arg(b""), None);
    assert_eq!(parse_arg(b"-"), None);
    assert_eq!(parse_arg(b"1.2.3"), None);
    assert_eq!(parse_arg(b"abc"), None);
    // 0.1 has no finite binary expansion: the value truncates toward zero.
    assert_eq!(parse_arg(b"0.1"), Some(SCALE / 10));
}

#[test]
fn parse_arg_exponents_and_signs() {
    assert_eq!(parse_arg(b"1e3"), Some(1000 * SCALE));
    assert_eq!(parse_arg(b"1.5e2"), Some(150 * SCALE));
    assert_eq!(parse_arg(b"2e+2"), Some(200 * SCALE));
    assert_eq!(parse_arg(b"-1E2"), Some(-100 * SCALE));
    assert_eq!(parse_arg(b"+2.5"), Some(2 * SCALE + SCALE / 2));
    // Negative exponents downscale, truncating toward zero.
    assert_eq!(parse_arg(b"1e-3"), Some(SCALE / 1000));
    assert_eq!(parse_arg(b"25e-1"), Some(2 * SCALE + SCALE / 2));
    // Malformed or out-of-range exponents are refused.
    assert_eq!(parse_arg(b"1e"), None);
    assert_eq!(parse_arg(b"e3"), None);
    assert_eq!(parse_arg(b"1e19"), None);
    assert_eq!(parse_arg(b"1e2e3"), None);
}

#[test]
fn parse_int_values() {
    assert_eq!(parse_int(b"42"), Some(42));
    assert_eq!(parse_int(b"-7"), Some(-7));
    assert_eq!(parse_int(b""), None);
    assert_eq!(parse_int(b"1.5"), None);
}

#[test]
fn collect_args_skips_keyword() {
    assert_eq!(collect_args(b"v 1 2 3"), Some(vec![SCALE, 2 * SCALE, 3 * SCALE]));
    assert_eq!(collect_args(b"v"), Some(vec![]));
    assert_eq!(collect_args(b""), Some(vec![]));
    assert_eq!(collect_args(b"v 1 x"), None);
    assert_eq!(collect_triple(b"Kd 0.5 0.5 1"), Some((SCALE / 2, SCALE / 2, SCALE)));
    assert_eq!(collect_triple(b"v 1 2"), None);
    assert_eq!(collect_triple(b"v 1 2 3 4"), None);
}

#[test]
fn parse_triple_defaults_missing_entries() {
    assert_eq!(parse_triple(b"0.5 0.25"), Some((SCALE / 2, SCALE / 4, 0)));
    assert_eq!(parse_triple(b""), Some((0, 0, 0)));
    assert_eq!(parse_triple(b"1 2 3 4"), Some((SCALE, 2 * SCALE, 3 * SCALE)));
    assert_eq!(parse_triple(b"1 oops"), None);
}

#[test]
fn absolute_indices() {
    assert_eq!(get_absolute_index(0, 5), None);
    assert_eq!(get_absolute_index(1, 5), Some(0));
    assert_eq!(get_absolute_index(5, 5), Some(4));
    assert_eq!(get_absolute_index(6, 5), None);
    assert_eq!(get_absolute_index(-1, 5), Some(4));
    assert_eq!(get_absolute_index(-5, 5), Some(0));
    assert_eq!(get_absolute_index(-6, 5), None);
}

#[test]
fn face_index_takes_first_slash_component() {
    assert_eq!(FaceIndex::parse(b"5/2/3").map(|f| f.vertex_index), Some(5));
    assert_eq!(FaceIndex::parse(b"7").map(|f| f.vertex_index), Some(7));
    assert_eq!(FaceIndex::parse(b"-2//1").map(|f| f.vertex_index), Some(-2));
    assert!(FaceIndex::parse(b"/2").is_none());
    let f = FaceIndex { vertex_index: 2 };
    assert_eq!(f.vertex(3), Some(1));
}

#[test]
fn obj_document_quad_and_materials() {
    let doc = lines(&[
        "# a square of two triangles",
        "mtllib scene.mtl",
        "",
        "v -1 -1 2",
        "v 1 -1 2",
        "v 1 1 2",
        "v -1 1 2",
        "usemtl paint",
        "f 1 2 3 4",
    ]);
    let obj = WavefrontObject::parse(&doc).expect("valid document");
    assert_eq!(obj.vertices.len(), 4);
    assert_eq!(obj.faces.len(), 2);
    assert_eq!(obj.mtl_requests.len(), 1);
    assert_eq!(obj.mtl_requests[0], b"scene.mtl".to_vec());
    assert_eq!(obj.faces[0].material, b"paint".to_vec());
    // The quad splits along its first diagonal.
    assert_eq!(obj.faces[0].vertices.0.x(), -SCALE);
    assert_eq!(obj.faces[1].vertices.1.x(), SCALE);
    assert_eq!(obj.faces[1].vertices.1.y(), SCALE);
}

#[test]
fn obj_document_rejects_bad_faces() {
    assert!(WavefrontObject::parse(&lines(&["v 0 0 0", "v 1 0 0", "f 1 2"])).is_none());
    assert!(WavefrontObject::parse(&lines(&["f 1 2 3"])).is_none());
    assert!(WavefrontObject::parse(&lines(&["v 0 0 oops"])).is_none());
}

#[test]
fn mtl_library_and_conversion() {
    let doc = lines(&[
        "newmtl lamp",
        "Ke 1 1 0.5",
        "newmtl wall",
        "Kd 0.5 0.5 0.5",
        "Ks 0 0 0",
        "map_Kd bricks.png",
    ]);
    let lib = MtlLibrary::parse(&doc).expect("valid library");
    assert_eq!(lib.materials.len(), 2);
    assert_eq!(lib.materials[0].name, b"lamp".to_vec());
    assert_eq!(lib.materials[0].emissive_color.red, SCALE);
    assert_eq!(lib.materials[1].diffuse_color.green, SCALE / 2);
    assert!(lib.materials[0].diffuse_texture.is_empty());
    assert_eq!(lib.materials[1].diffuse_texture, b"bricks.png".to_vec());
    // A colour or texture statement before any material is an error.
    assert!(MtlLibrary::parse(&lines(&["Kd 1 1 1"])).is_none());
    assert!(MtlLibrary::parse(&lines(&["map_Kd x.png"])).is_none());
}

#[test]
fn obj_into_objects_builds_triangles() {
    let doc = lines(&["v 0 0 2", "v 1 0 2", "v 0 1 2", "usemtl glow", "f 1 2 3"]);
    let obj = WavefrontObject::parse(&doc).expect("valid document");
    let mtl = MtlLibrary::parse(&lines(&["newmtl glow", "Ke 1 1 1"])).expect("valid library");
    let objects = obj.into_objects(&mtl.materials);
    assert_eq!(objects.len(), 1);
    match &objects[0].material.kind {
        rays::material::Kind::Emissive => {}
        other => panic!("expected an emissive material, got {:?}", other),
    }
}
