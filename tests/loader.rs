use rasterizer::lex::is_number;
use rasterizer::mtl::{MaterialSource, MtlReader};
use rasterizer::obj::{
    parse_face_vertex, triangulate, ErrorKind, FaceVertex, Field, LoadError, ObjLoader,
};

fn fv(v: i32, vt: i32, vn: i32) -> FaceVertex {
    FaceVertex { v, vt, vn }
}

fn feed_all(l: &mut ObjLoader, lines: &[&str]) {
    for (i, line) in lines.iter().enumerate() {
        assert_eq!(l.feed_line(line, i + 1), Ok(None), "line {}", i + 1);
    }
}

fn texts(v: &[String]) -> Vec<&str> {
    v.iter().map(|s| s.as_str()).collect()
}

#[test]
fn number_literals() {
    for ok in ["1", "-2", "+3", "1.5", ".5", "1.", "1e10", "+1.2E-3", "0.000", "-.5e+2"] {
        assert!(is_number(ok), "{ok}");
    }
    for bad in ["", ".", "e5", "1e", "abc", "1.2.3", "inf", "NaN", "1,5", "--1", "1e+", "0x10"] {
        assert!(!is_number(bad), "{bad}");
    }
}

#[test]
fn face_vertex_fields() {
    assert_eq!(parse_face_vertex("3"), Ok(fv(3, 0, 0)));
    assert_eq!(parse_face_vertex("3/4/5"), Ok(fv(3, 4, 5)));
    assert_eq!(parse_face_vertex("3//5"), Ok(fv(3, 0, 5)));
    assert_eq!(parse_face_vertex("3/4"), Ok(fv(3, 4, 0)));
    assert_eq!(parse_face_vertex("-1/-2/-3"), Ok(fv(-1, -2, -3)));
    assert_eq!(parse_face_vertex("x/1"), Err(ErrorKind::Invalid(Field::VertexIndex)));
    assert_eq!(parse_face_vertex("1/y"), Err(ErrorKind::Invalid(Field::TextureIndex)));
    assert_eq!(parse_face_vertex("1/2/z"), Err(ErrorKind::Invalid(Field::NormalIndex)));
    assert_eq!(parse_face_vertex(""), Err(ErrorKind::Invalid(Field::VertexIndex)));
    assert_eq!(parse_face_vertex("0"), Err(ErrorKind::Invalid(Field::VertexIndex)));
    assert_eq!(parse_face_vertex("+3/-2147483648"), Ok(fv(3, -2147483648, 0)));
    assert_eq!(parse_face_vertex("2147483647"), Ok(fv(2147483647, 0, 0)));
    assert_eq!(parse_face_vertex("2147483648"), Err(ErrorKind::Invalid(Field::VertexIndex)));
    assert_eq!(parse_face_vertex("-2147483649"), Err(ErrorKind::Invalid(Field::VertexIndex)));
    assert_eq!(parse_face_vertex("-"), Err(ErrorKind::Invalid(Field::VertexIndex)));
    assert_eq!(parse_face_vertex("+"), Err(ErrorKind::Invalid(Field::VertexIndex)));
    assert_eq!(parse_face_vertex("1a"), Err(ErrorKind::Invalid(Field::VertexIndex)));
    assert_eq!(parse_face_vertex("007//-0"), Err(ErrorKind::Invalid(Field::NormalIndex)));
    assert_eq!(parse_face_vertex("1/0"), Err(ErrorKind::Invalid(Field::TextureIndex)));
    assert_eq!(parse_face_vertex("1//0"), Err(ErrorKind::Invalid(Field::NormalIndex)));
    assert_eq!(parse_face_vertex("99999999999"), Err(ErrorKind::Invalid(Field::VertexIndex)));
}

#[test]
fn quad_becomes_a_fan_of_two() {
    let poly = vec![fv(1, 1, 1), fv(2, 2, 2), fv(3, 0, 3), fv(4, 4, 4)];
    let tris = triangulate(&poly, 7);
    assert_eq!(tris.len(), 2);
    assert_eq!(tris[0].verts, [1, 0, 2]);
    assert_eq!(tris[0].texes, [2, 1, 0]);
    assert_eq!(tris[0].norms, [2, 1, 3]);
    assert_eq!(tris[1].verts, [2, 0, 3]);
    assert_eq!(tris[1].mtl, 7);
}

#[test]
fn negative_indices_keep_magnitude_and_reverse_winding() {
    let poly = vec![fv(-1, 0, -1), fv(-2, 0, -2), fv(-3, 0, -3)];
    let tris = triangulate(&poly, 0);
    assert_eq!(tris.len(), 1);
    assert_eq!(tris[0].verts, [0, 1, 2]);
    assert_eq!(tris[0].norms, [1, 2, 3]);
    let mixed = vec![fv(1, 0, 0), fv(2, 0, 0), fv(-3, 0, 0)];
    assert_eq!(triangulate(&mixed, 0)[0].verts, [0, 1, 2]);
    let forward = vec![fv(1, 0, 0), fv(2, 0, 0), fv(3, 0, 0)];
    assert_eq!(triangulate(&forward, 0)[0].verts, [1, 0, 2]);
}

#[test]
fn records_fill_the_mesh() {
    let mut l = ObjLoader::new();
    feed_all(
        &mut l,
        &["# a comment", "", "v 0 0 0", "v 1 0 0", "v 0 1 0", "vn 0 0 -1", "vt 0.5", "vt 0 1 0", "g group", "f 1/1/1 2/2/1 3/1/1"],
    );
    assert_eq!(l.positions.len(), 3);
    assert_eq!(texts(&l.positions[1]), ["1", "0", "0"]);
    assert_eq!(texts(&l.normals[0]), ["0", "0", "-1"]);
    assert_eq!(texts(&l.texcoords[0]), ["0.5"]);
    assert_eq!(texts(&l.texcoords[1]), ["0", "1", "0"]);
    assert_eq!(l.triangles.len(), 1);
    assert_eq!(l.triangles[0].verts, [1, 0, 2]);
    assert_eq!(l.triangles[0].texes, [2, 1, 1]);
    assert_eq!(l.triangles[0].norms, [1, 1, 1]);
    assert_eq!(l.triangles[0].mtl, 0);
}

#[test]
fn field_errors_name_the_line_and_field() {
    let mut l = ObjLoader::new();
    assert_eq!(l.feed_line("v 1 x 2", 4), Err(LoadError { line: 4, kind: ErrorKind::Invalid(Field::Y) }));
    assert_eq!(l.feed_line("v 1 2", 5), Err(LoadError { line: 5, kind: ErrorKind::Missing(Field::Z) }));
    assert_eq!(l.feed_line("vn", 6), Err(LoadError { line: 6, kind: ErrorKind::Missing(Field::X) }));
    assert_eq!(l.feed_line("vt 1 q", 7), Err(LoadError { line: 7, kind: ErrorKind::Invalid(Field::V) }));
    assert_eq!(l.feed_line("vt", 8), Err(LoadError { line: 8, kind: ErrorKind::Missing(Field::U) }));
    assert_eq!(l.feed_line("usemtl", 9), Err(LoadError { line: 9, kind: ErrorKind::Missing(Field::MaterialName) }));
    assert_eq!(l.feed_line("mtllib", 10), Err(LoadError { line: 10, kind: ErrorKind::Missing(Field::LibraryName) }));
    assert_eq!(l.feed_line("v inf 0 0", 11), Err(LoadError { line: 11, kind: ErrorKind::Invalid(Field::X) }));
    assert_eq!(l.positions.len(), 0);
}

#[test]
fn face_errors() {
    let mut l = ObjLoader::new();
    feed_all(&mut l, &["v 0 0 0", "v 1 0 0", "v 0 1 0"]);
    assert_eq!(l.feed_line("f 1 2", 4), Err(LoadError { line: 4, kind: ErrorKind::TooFewVertices }));
    assert_eq!(l.feed_line("f 1 2 9", 5), Err(LoadError { line: 5, kind: ErrorKind::VertexOutOfRange }));
    assert_eq!(l.feed_line("f 1//1 2//1 3//1", 9), Err(LoadError { line: 9, kind: ErrorKind::NormalOutOfRange }));
    assert_eq!(l.feed_line("f 1 b 3", 6), Err(LoadError { line: 6, kind: ErrorKind::Invalid(Field::VertexIndex) }));
    assert_eq!(l.feed_line("usemtl missing", 7), Ok(None));
    assert_eq!(l.feed_line("f 1 2 3", 8), Err(LoadError { line: 8, kind: ErrorKind::UnknownMaterial }));
    assert_eq!(l.triangles.len(), 0);
}

#[test]
fn library_name_is_handed_back() {
    let mut l = ObjLoader::new();
    assert_eq!(l.feed_line("mtllib  scene.mtl", 1), Ok(Some(String::from("scene.mtl"))));
}

#[test]
fn faces_under_one_material_share_its_entry() {
    let mut l = ObjLoader::new();
    feed_all(&mut l, &["v 0 0 0", "v 1 0 0", "v 0 1 0", "v 1 1 0"]);
    l.register_material(String::from("red"), MaterialSource::unset());
    feed_all(&mut l, &["usemtl red", "f 1 2 3", "f 2 4 3", "f 1 2 4 3"]);
    assert_eq!(l.triangles.len(), 4);
    assert!(l.triangles.iter().all(|t| t.mtl == 1));
    assert_eq!(l.materials.len(), 2);
    assert_eq!(texts(&l.material_names), ["", "red"]);
}

#[test]
fn later_registration_applies_to_later_faces_only() {
    let mut l = ObjLoader::new();
    feed_all(&mut l, &["v 0 0 0", "v 1 0 0", "v 0 1 0"]);
    l.register_material(String::from("m"), MaterialSource::unset());
    feed_all(&mut l, &["usemtl m", "f 1 2 3"]);
    l.register_material(String::from("m"), MaterialSource::unset());
    feed_all(&mut l, &["f 1 2 3"]);
    assert_eq!(l.triangles[0].mtl, 1);
    assert_eq!(l.triangles[1].mtl, 2);
}

#[test]
fn material_library_records() {
    let mut r = MtlReader::new();
    let lines = [
        "# materials",
        "newmtl red",
        "Kd 1 0 0",
        "Ni 1.5",
        "Tf 1 1 1",
        "map_Kd tex.png",
        "newmtl blue",
        "Ka 0 0 1",
        "Tr 0.25",
        "d 0.5",
        "map_Ks spec.png",
    ];
    for (i, line) in lines.iter().enumerate() {
        assert_eq!(r.feed_line(line, i + 1), Ok(()));
    }
    let (names, materials) = r.finish();
    assert_eq!(texts(&names), ["red", "blue"]);
    assert_eq!(texts(materials[0].kd.as_ref().unwrap()), ["1", "0", "0"]);
    assert_eq!(materials[0].ka, None);
    assert_eq!(materials[0].map_kd.as_deref(), Some("tex.png"));
    assert_eq!(texts(materials[1].ka.as_ref().unwrap()), ["0", "0", "1"]);
    assert_eq!(materials[1].transparency.as_deref(), Some("0.5"));
    assert_eq!(materials[1].map_ks.as_deref(), Some("spec.png"));
    assert_eq!(materials[1].kd, None);
}

#[test]
fn material_library_errors() {
    let mut r = MtlReader::new();
    assert_eq!(r.feed_line("Ka 1 2", 3), Err(LoadError { line: 3, kind: ErrorKind::Missing(Field::Blue) }));
    assert_eq!(r.feed_line("Ks a b c", 4), Err(LoadError { line: 4, kind: ErrorKind::Invalid(Field::Red) }));
    assert_eq!(r.feed_line("map_Ka", 5), Err(LoadError { line: 5, kind: ErrorKind::Missing(Field::ImageFile) }));
    assert_eq!(r.feed_line("newmtl", 6), Err(LoadError { line: 6, kind: ErrorKind::Missing(Field::MaterialName) }));
    assert_eq!(r.feed_line("d", 7), Err(LoadError { line: 7, kind: ErrorKind::Missing(Field::Transparency) }));
    let (names, _) = r.finish();
    assert!(names.is_empty());
}

#[test]
fn newmtl_starts_from_the_defaults() {
    let mut r = MtlReader::new();
    for (i, line) in ["Ka 1 0 0", "Kd 0.2 0.3 0.4", "newmtl a", "Ks 1 1 1"].iter().enumerate() {
        assert_eq!(r.feed_line(line, i + 1), Ok(()));
    }
    let (names, materials) = r.finish();
    assert_eq!(texts(&names), ["a"]);
    assert_eq!(materials[0].ka, None);
    assert_eq!(materials[0].kd, None);
    assert_eq!(texts(materials[0].ks.as_ref().unwrap()), ["1", "1", "1"]);
}
