use rasterizer::mesh::{normal_slots, texcoord_slots, Triangle};
use rasterizer::shapes::{
    cone_triangles, cube_triangles, cylinder_triangles, letter_n_triangles, p_shape_triangles,
    wall_triangles,
};

#[test]
fn normals_come_from_the_face_when_it_names_all_three() {
    let t = Triangle { verts: [4, 5, 6], texes: [0, 0, 0], norms: [1, 2, 3], mtl: 0 };
    assert_eq!(normal_slots(&t), [0, 1, 2]);
    let partial = Triangle { norms: [0, 2, 3], ..t };
    assert_eq!(normal_slots(&partial), [4, 5, 6]);
}

#[test]
fn texture_coordinates_need_all_three_in_range() {
    let t = Triangle { verts: [0, 1, 2], texes: [1, 2, 3], norms: [0, 0, 0], mtl: 0 };
    assert_eq!(texcoord_slots(&t, 3), Some([0, 1, 2]));
    assert_eq!(texcoord_slots(&t, 2), None);
    let absent = Triangle { texes: [0, 2, 3], ..t };
    assert_eq!(texcoord_slots(&absent, 3), None);
}

#[test]
fn cylinder_has_two_sides_and_two_caps_per_segment() {
    let tris = cylinder_triangles(12);
    assert_eq!(tris.len(), 48);
    assert_eq!(tris[0].verts, [0, 1, 12]);
    assert_eq!(tris[1].verts, [12, 1, 13]);
    assert_eq!(tris[2].verts, [1, 0, 24]);
    assert_eq!(tris[3].verts, [12, 13, 25]);
    assert_eq!(tris[44].verts, [11, 0, 23]);
    assert_eq!(tris[45].verts, [23, 0, 12]);
    assert_eq!(tris[46].verts, [0, 11, 24]);
    assert_eq!(tris[47].verts, [23, 12, 25]);
    assert_eq!(tris.iter().map(|t| t.mtl).take(5).collect::<Vec<_>>(), [0, 1, 2, 3, 0]);
    assert!(tris.iter().all(|t| t.verts.iter().all(|v| *v < 26) && t.norms == [0, 0, 0]));
}

#[test]
fn cone_has_sides_then_base() {
    let tris = cone_triangles(12);
    assert_eq!(tris.len(), 24);
    assert_eq!(tris[0].verts, [0, 1, 12]);
    assert_eq!(tris[11].verts, [11, 0, 12]);
    assert_eq!(tris[12].verts, [0, 13, 1]);
    assert_eq!(tris[23].verts, [11, 13, 0]);
    assert_eq!(tris[11].mtl, 11);
    assert_eq!((tris[12].mtl, tris[13].mtl, tris[23].mtl), (12, 13, 13));
}

#[test]
fn fixed_shapes_stay_inside_their_vertex_arrays() {
    for (tris, n_verts, n_tris, n_colors) in [
        (cube_triangles(), 8, 12, 12),
        (wall_triangles(), 4, 2, 1),
        (letter_n_triangles(), 20, 32, 6),
        (p_shape_triangles(), 22, 36, 2),
    ] {
        assert_eq!(tris.len(), n_tris);
        assert!(tris.iter().all(|t| t.verts.iter().all(|v| *v < n_verts) && t.mtl < n_colors));
    }
    assert_eq!(cube_triangles()[2].verts, [4, 6, 5]);
    assert_eq!(wall_triangles()[1].verts, [3, 2, 1]);
    assert_eq!(letter_n_triangles()[31].verts, [8, 18, 16]);
    assert_eq!(p_shape_triangles()[12].verts, [13, 2, 0]);
    assert_eq!(p_shape_triangles()[12].mtl, 1);
}
