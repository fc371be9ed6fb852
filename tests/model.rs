use yatsr::geometry::Vec3;
use yatsr::model::{parse_face, resolve_index, Object};

#[test]
fn face_forms() {
    assert_eq!(parse_face("f 1 2 3"), Some((vec![1, 2, 3], vec![], vec![])));
    assert_eq!(parse_face("f 1/4 2/5 3/6"), Some((vec![1, 2, 3], vec![4, 5, 6], vec![])));
    assert_eq!(parse_face("f 1/4/7 2/5/8 3/6/9"), Some((vec![1, 2, 3], vec![4, 5, 6], vec![7, 8, 9])));
    assert_eq!(parse_face("f 1//7 2//8 -1//9 "), Some((vec![1, 2, -1], vec![], vec![7, 8, 9])));
}

#[test]
fn bad_faces() {
    assert_eq!(parse_face("f 1/2/3/4 5 6"), None);
    assert_eq!(parse_face("f a b c"), None);
    assert_eq!(parse_face("f 1  2 3"), None);
}

#[test]
fn obj_indices() {
    assert_eq!(resolve_index(1, 3), Some(0));
    assert_eq!(resolve_index(3, 3), Some(2));
    assert_eq!(resolve_index(-1, 3), Some(2));
    assert_eq!(resolve_index(-3, 3), Some(0));
    assert_eq!(resolve_index(0, 3), None);
    assert_eq!(resolve_index(4, 3), None);
    assert_eq!(resolve_index(-4, 3), None);
}

#[test]
fn mesh_validation() {
    let v = vec![Vec3::new(1, 2, 3), Vec3::new(4, 5, 6), Vec3::new(7, 8, 9)];
    let m = Object::new(v.clone(), v.clone(), v.clone(), vec![[0, 1, 2]], vec![[2, 1, 0]], vec![[0, 0, 0]]).unwrap();
    assert_eq!(m.face_count(), 1);
    assert_eq!(m.vert_count(), 3);
    assert_eq!(m.vert(0, 1), Vec3::new(4, 5, 6));
    assert_eq!(m.texture_coord(0, 0), Vec3::new(7, 8, 9));
    assert_eq!(m.normal(0, 2), Vec3::new(1, 2, 3));
    assert!(m.has_normal_vector());
    assert!(Object::new(v.clone(), v.clone(), v.clone(), vec![[0, 1, 3]], vec![[0, 1, 2]], vec![[0, 1, 2]]).is_none());
    assert!(Object::new(v.clone(), v.clone(), v, vec![[0, 1, 2]], vec![], vec![[0, 1, 2]]).is_none());
}

#[test]
fn face_accessors() {
    let v = vec![Vec3::new(0, 0, 0), Vec3::new(2, 0, 0), Vec3::new(0, 3, 0)];
    let t = vec![Vec3::new(1, 1, 0), Vec3::new(2, 2, 0), Vec3::new(3, 3, 0)];
    let m = Object::new(v.clone(), t, v, vec![[0, 1, 2]], vec![[2, 1, 0]], vec![[0, 1, 2]]).unwrap();
    assert_eq!(m.verts_of_face(0), [Vec3::new(0, 0, 0), Vec3::new(2, 0, 0), Vec3::new(0, 3, 0)]);
    assert_eq!(m.texture_coords_of_face(0)[0], Vec3::new(3, 3, 0));
    assert_eq!(m.normal_of_face(0), Some(Vec3::new(0, 0, 6)));
}
