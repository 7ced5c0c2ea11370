use simcore::terrain::{calc_biome, terrain_code, terrain_color, Terrain, TerrainType};

#[test]
fn biome_thresholds() {
    assert_eq!(calc_biome(50, 500), TerrainType::Ocean);
    assert_eq!(calc_biome(110, 500), TerrainType::Beach);
    assert_eq!(calc_biome(850, 50), TerrainType::Scorched);
    assert_eq!(calc_biome(850, 150), TerrainType::Bare);
    assert_eq!(calc_biome(850, 300), TerrainType::Tundra);
    assert_eq!(calc_biome(850, 600), TerrainType::Snow);
    assert_eq!(calc_biome(700, 100), TerrainType::TemperateDesert);
    assert_eq!(calc_biome(700, 500), TerrainType::Shrubland);
    assert_eq!(calc_biome(700, 700), TerrainType::Taiga);
    assert_eq!(calc_biome(400, 100), TerrainType::TemperateDesert);
    assert_eq!(calc_biome(400, 300), TerrainType::Grassland);
    assert_eq!(calc_biome(400, 700), TerrainType::TemperateDeciduousForest);
    assert_eq!(calc_biome(400, 900), TerrainType::TemperateRainForest);
    assert_eq!(calc_biome(200, 100), TerrainType::SubtropicalDesert);
    assert_eq!(calc_biome(200, 200), TerrainType::Grassland);
    assert_eq!(calc_biome(200, 500), TerrainType::TropicalSeasonalForest);
    assert_eq!(calc_biome(200, 700), TerrainType::TropicalRainForest);
}

#[test]
fn biome_codes_are_stable() {
    assert_eq!(terrain_code(TerrainType::Bare), 0x0);
    assert_eq!(terrain_code(TerrainType::Beach), 0x1);
    assert_eq!(terrain_code(TerrainType::Grassland), 0x2);
    assert_eq!(terrain_code(TerrainType::Ocean), 0x3);
    assert_eq!(terrain_code(TerrainType::Tundra), 0xe);
}

#[test]
fn biome_colors() {
    assert_eq!(terrain_color(TerrainType::Ocean), (0, 153, 152));
    assert_eq!(terrain_color(TerrainType::Snow), (255, 255, 255));
    assert_eq!(terrain_color(TerrainType::Grassland), (102, 255, 102));
}

#[test]
fn from_samples_clamps_and_classifies() {
    let elev = vec![-50, 110, 700, 2_000];
    let moist = vec![0, 0, 500, 0];
    let t = Terrain::from_samples(2, &elev, &moist);
    assert_eq!(t.size, 2);
    assert_eq!(t.elevation_map, vec![0, 110, 700, 1_000]);
    assert_eq!(
        t.terrain_map,
        vec![
            terrain_code(TerrainType::Ocean),
            terrain_code(TerrainType::Beach),
            terrain_code(TerrainType::Shrubland),
            terrain_code(TerrainType::Scorched),
        ]
    );
}

#[test]
fn elevation_lookup_clamps_coordinates() {
    let elev = vec![10, 20, 30, 40];
    let moist = vec![0, 0, 0, 0];
    let t = Terrain::from_samples(2, &elev, &moist);
    assert_eq!(t.get_elevation(0, 0), 10);
    assert_eq!(t.get_elevation(1, 0), 20);
    assert_eq!(t.get_elevation(0, 1), 30);
    assert_eq!(t.get_elevation(1, 1), 40);
    // Out-of-grid coordinates clamp to the edge.
    assert_eq!(t.get_elevation(9, 9), 40);
}

#[test]
fn flat_terrain_is_uniform() {
    let t = Terrain::flat(3, 500);
    assert_eq!(t.size, 3);
    assert_eq!(t.elevation_map.len(), 9);
    assert!(t.elevation_map.iter().all(|e| *e == 500));
    assert_eq!(t.get_elevation(2, 2), 500);
}
