//! Tests for the height-field data model, in micro-unit heights.

use lrle::terrain::TerrainData;

#[test]
fn test_terrain_data_new() {
    let points = vec![
        vec![0, 1_000_000, 2_000_000],
        vec![3_000_000, 4_000_000, 5_000_000],
    ];
    let terrain = TerrainData::new(points, None);

    assert_eq!(terrain.width, 3);
    assert_eq!(terrain.height, 2);
    assert!(terrain.colors.is_none());
}

#[test]
fn test_terrain_data_empty() {
    let terrain = TerrainData::new(vec![], None);
    assert_eq!(terrain.width, 0);
    assert_eq!(terrain.height, 0);
}

#[test]
fn test_height_bounds() {
    let points = vec![
        vec![0, 5_000_000, 2_000_000],
        vec![-3_000_000, 4_000_000, 10_000_000],
    ];
    let terrain = TerrainData::new(points, None);
    let (min, max) = terrain.height_bounds();

    assert_eq!(min, -3_000_000);
    assert_eq!(max, 10_000_000);
}

#[test]
fn test_height_bounds_empty() {
    let terrain = TerrainData::new(vec![], None);
    let (min, max) = terrain.height_bounds();
    assert_eq!(min, 0);
    assert_eq!(max, 0);
}

#[test]
fn test_terrain_data_with_colors() {
    let points = vec![vec![0, 1_000_000]];
    let colors = vec![vec![0xFF0000, 0x00FF00]];
    let terrain = TerrainData::new(points, Some(colors));
    assert_eq!(terrain.width, 2);
    assert_eq!(terrain.height, 1);
    assert_eq!(terrain.colors.unwrap()[0][1], 0x00FF00);
}
