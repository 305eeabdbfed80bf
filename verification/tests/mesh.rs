//! Tests for mesh generation: positions and heights in micro-units, a
//! height scale of 1_000_000 meaning a multiplier of one.

use lrle::colors::{height_to_color, ColorScheme};
use lrle::mesh::{ShadingMode, TerrainMesh};
use lrle::terrain::TerrainData;

fn basic_mesh(terrain: &TerrainData, height_scale: i64) -> TerrainMesh {
    TerrainMesh::from_terrain(terrain, height_scale, ShadingMode::Smooth, ColorScheme::Terrain)
}

#[test]
fn test_mesh_from_simple_terrain() {
    let terrain = TerrainData::new(
        vec![vec![0, 1_000_000], vec![2_000_000, 3_000_000]],
        None,
    );
    let mesh = basic_mesh(&terrain, 1_000_000);

    // 2x2 grid = 4 vertices
    assert_eq!(mesh.vertices.len(), 4);

    // Wireframe: 2 horizontal + 2 vertical edges = 4 edges = 8 indices
    assert_eq!(mesh.wireframe_indices.len(), 8);
}

#[test]
fn test_mesh_empty_terrain() {
    let terrain = TerrainData::new(vec![], None);
    let mesh = basic_mesh(&terrain, 1_000_000);

    assert!(mesh.vertices.is_empty());
    assert!(mesh.wireframe_indices.is_empty());
    assert!(mesh.triangle_indices.is_empty());
}

#[test]
fn test_mesh_centered_at_origin() {
    let terrain = TerrainData::new(vec![vec![0, 0], vec![0, 0]], None);
    let mesh = basic_mesh(&terrain, 1_000_000);

    // With a 2x2 grid and (width-1)/2 offset, the mesh spans -0.5 to +0.5.
    let min_x = mesh.vertices.iter().map(|v| v.position.x).min().unwrap();
    let max_x = mesh.vertices.iter().map(|v| v.position.x).max().unwrap();
    let min_z = mesh.vertices.iter().map(|v| v.position.z).min().unwrap();
    let max_z = mesh.vertices.iter().map(|v| v.position.z).max().unwrap();

    assert!(min_x < 0);
    assert!(max_x > 0);
    assert!(min_z < 0);
    assert!(max_z > 0);
    assert_eq!(min_x, -500_000);
    assert_eq!(max_x, 500_000);
}

#[test]
fn test_height_scale() {
    let terrain = TerrainData::new(vec![vec![10_000_000]], None);

    let mesh1 = basic_mesh(&terrain, 1_000_000);
    let mesh2 = basic_mesh(&terrain, 2_000_000);

    assert_eq!(mesh1.vertices[0].position.y, 10_000_000);
    assert_eq!(mesh2.vertices[0].position.y, 20_000_000);
}

#[test]
fn test_height_to_color_bounds() {
    // The gradient at key points.
    let low = height_to_color(0, ColorScheme::Terrain);
    let mid = height_to_color(500_000, ColorScheme::Terrain);
    let high = height_to_color(1_000_000, ColorScheme::Terrain);

    assert!(low.b > low.r);
    assert!(mid.g > mid.r);
    assert!(high.r > 900_000 && high.g > 900_000 && high.b > 900_000);
}

#[test]
fn test_index_counts_three_by_two() {
    let terrain = TerrainData::new(
        vec![
            vec![0, 1_000_000, 2_000_000],
            vec![3_000_000, 4_000_000, 5_000_000],
        ],
        None,
    );
    let mesh = basic_mesh(&terrain, 1_000_000);
    let (w, h) = (3usize, 2usize);

    assert_eq!(mesh.vertices.len(), w * h);
    assert_eq!(mesh.wireframe_indices.len(), 2 * (h * (w - 1) + w * (h - 1)));
    assert_eq!(mesh.triangle_indices.len(), 6 * (w - 1) * (h - 1));
    assert!(mesh.wireframe_indices.iter().all(|&i| (i as usize) < w * h));
    assert!(mesh.triangle_indices.iter().all(|&i| (i as usize) < w * h));
}

#[test]
fn test_triangle_winding_first_quad() {
    let terrain = TerrainData::new(
        vec![
            vec![0, 0, 0],
            vec![0, 0, 0],
        ],
        None,
    );
    let mesh = basic_mesh(&terrain, 1_000_000);
    // Quad 0 of a 3-wide grid: top_left 0, bottom_left 3, top_right 1,
    // bottom_right 4, split (tl, bl, tr) then (tr, bl, br).
    assert_eq!(&mesh.triangle_indices[0..6], &[0, 3, 1, 1, 3, 4]);
}

#[test]
fn test_wireframe_edges_two_by_two() {
    let terrain = TerrainData::new(vec![vec![0, 0], vec![0, 0]], None);
    let mesh = basic_mesh(&terrain, 1_000_000);
    // Horizontal edges first (rows 0 and 1), then vertical ones.
    assert_eq!(
        mesh.wireframe_indices,
        vec![0, 1, 2, 3, 0, 2, 1, 3]
    );
}

#[test]
fn test_uniform_grid_single_color() {
    let terrain = TerrainData::new(
        vec![vec![7_000_000, 7_000_000], vec![7_000_000, 7_000_000]],
        None,
    );
    let mesh = basic_mesh(&terrain, 1_000_000);
    let expected = height_to_color(0, ColorScheme::Terrain);
    assert!(mesh.vertices.iter().all(|v| v.color == expected));
}

#[test]
fn test_smooth_normals_flat_grid_point_up() {
    let terrain = TerrainData::new(
        vec![vec![5_000_000, 5_000_000], vec![5_000_000, 5_000_000]],
        None,
    );
    let mesh = basic_mesh(&terrain, 1_000_000);
    for v in &mesh.vertices {
        assert_eq!((v.normal.x, v.normal.y, v.normal.z), (0, 1_000_000, 0));
    }
}

#[test]
fn test_flat_normals_tilted_plane() {
    // Height rises one unit per column: the gradient along x is 1, so
    // the (doubled) direction is (-2, 2, 0) and the unit normal is
    // (-0.707106.., 0.707106.., 0), truncated in micro-units.
    let terrain = TerrainData::new(
        vec![vec![0, 1_000_000], vec![0, 1_000_000]],
        None,
    );
    let mesh = TerrainMesh::from_terrain(
        &terrain,
        1_000_000,
        ShadingMode::Flat,
        ColorScheme::Terrain,
    );
    for v in &mesh.vertices {
        assert_eq!((v.normal.x, v.normal.y, v.normal.z), (-707106, 707106, 0));
    }
}

#[test]
fn test_smooth_normals_upward_hemisphere() {
    let terrain = TerrainData::new(
        vec![
            vec![0, 3_000_000, 0],
            vec![3_000_000, 0, 3_000_000],
            vec![0, 3_000_000, 0],
        ],
        None,
    );
    let mesh = basic_mesh(&terrain, 1_000_000);
    assert!(mesh.vertices.iter().all(|v| v.normal.y >= 0));
}
