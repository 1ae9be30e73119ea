use worldgen::collisions::{intersecting_triangle_id, Ray};
use worldgen::polyhedron::make_sphere;
use worldgen::vec3::Vec3;

#[test]
fn ray_through_a_face_centroid_picks_that_face() {
    let poly = make_sphere(0).unwrap();
    for face_id in [0usize, 7, 19] {
        let f = &poly.faces[face_id];
        let a = poly.vertices[f.vertex_indices[0]].pos;
        let b = poly.vertices[f.vertex_indices[1]].pos;
        let c = poly.vertices[f.vertex_indices[2]].pos;
        let cx = (a.x + b.x + c.x) / 3;
        let cy = (a.y + b.y + c.y) / 3;
        let cz = (a.z + b.z + c.z) / 3;
        // Stand five centroid-lengths out and look back at the center: the
        // ray passes exactly through the centroid.
        let orig = Vec3 { x: cx * 5, y: cy * 5, z: cz * 5 };
        let ray = Ray::towards_center(&orig).unwrap();
        let hit = intersecting_triangle_id(&poly, &ray);
        assert_eq!(hit, Some(face_id), "centroid ray missed face {}", face_id);
    }
}

#[test]
fn ray_pointing_away_from_the_sphere_misses() {
    let poly = make_sphere(0).unwrap();
    let orig = Vec3 { x: 5_000_000, y: 1_000_000, z: 2_000_000 };
    let dir = orig.normalize().unwrap();
    let ray = Ray { orig, dir };
    assert_eq!(intersecting_triangle_id(&poly, &ray), None);
}

#[test]
fn degenerate_viewpoint_is_reported() {
    let zero = Vec3 { x: 0, y: 0, z: 0 };
    assert!(Ray::towards_center(&zero).is_err());
}
