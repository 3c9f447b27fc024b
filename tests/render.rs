use num_complex::Complex;
use tiled_mandelbrot::artifact::{decode_artifact, encode_artifact, exec, merge};
use tiled_mandelbrot::error::{ConfigurationError, RenderError, StorageError};
use tiled_mandelbrot::merge::merge_vecs;
use tiled_mandelbrot::shade::{exec_to_vec, intensity, pixel_coords};
use tiled_mandelbrot::tiling::{split, JobDescriptor, TileJob, TileRegion};

fn job(width: u32, height: u32, max_iter: usize, num_tiles: usize) -> JobDescriptor {
    JobDescriptor { width, height, max_iter, num_tiles, output_dir: "renders".to_string() }
}

fn escape_count(c: Complex<f64>, max_iter: usize) -> usize {
    let mut z = Complex::new(0.0, 0.0);
    let mut n = 0;
    while z.norm() <= 2.0 && n < max_iter {
        z = z * z + c;
        n += 1;
    }
    n
}

// Counts for a tile of the plane rectangle (-2, -1) .. (1, 1) at 300 x 200 pixels.
fn tile_counts(tile: &TileJob) -> Vec<usize> {
    let start = Complex::new(-2.0, -1.0);
    let step = Complex::new(3.0 / 300.0, 2.0 / 200.0);
    pixel_coords(&tile.region)
        .iter()
        .map(|&(x, y)| escape_count(start + Complex::new(step.re * x as f64, step.im * y as f64), tile.max_iter))
        .collect()
}

#[test]
fn split_scenario_four_bands() {
    let tiles = split(&job(300, 200, 80, 4)).unwrap();
    let starts: Vec<u32> = tiles.iter().map(|t| t.region.start_y).collect();
    let ends: Vec<u32> = tiles.iter().map(|t| t.region.end_y).collect();
    assert_eq!(starts, vec![0, 50, 100, 150]);
    assert_eq!(ends, vec![50, 100, 150, 200]);
    for t in &tiles {
        assert_eq!(t.region.start_x, 0);
        assert_eq!(t.region.end_x, 300);
        assert_eq!(t.max_iter, 80);
    }
    assert_eq!(tiles[1].output, "renders/out-50-100.png");
}

#[test]
fn split_rejects_zero_tiles() {
    assert_eq!(
        split(&job(300, 200, 80, 0)).err(),
        Some(RenderError::Configuration(ConfigurationError::TileCount { num_tiles: 0, height: 200 }))
    );
}

#[test]
fn split_rejects_more_tiles_than_rows() {
    assert_eq!(
        split(&job(4, 3, 80, 4)).err(),
        Some(RenderError::Configuration(ConfigurationError::TileCount { num_tiles: 4, height: 3 }))
    );
    assert!(split(&job(4, 3, 80, 3)).is_ok());
}

#[test]
fn split_rejects_zero_dimensions() {
    assert_eq!(split(&job(0, 3, 80, 1)).err(), Some(RenderError::Configuration(ConfigurationError::ZeroWidth)));
    assert_eq!(split(&job(3, 0, 80, 1)).err(), Some(RenderError::Configuration(ConfigurationError::ZeroHeight)));
    assert_eq!(split(&job(3, 3, 0, 1)).err(), Some(RenderError::Configuration(ConfigurationError::ZeroMaxIter)));
}

#[test]
fn bands_partition_rows_for_every_count() {
    let height = 13;
    for n in 1..=height as usize {
        let tiles = split(&job(5, height, 10, n)).unwrap();
        assert_eq!(tiles.len(), n);
        assert_eq!(tiles[0].region.start_y, 0);
        assert_eq!(tiles[n - 1].region.end_y, height);
        for i in 0..n {
            assert!(tiles[i].region.start_y < tiles[i].region.end_y);
            if i + 1 < n {
                assert_eq!(tiles[i].region.end_y, tiles[i + 1].region.start_y);
            }
        }
    }
}

#[test]
fn uneven_bands_follow_floor_division() {
    let tiles = split(&job(2, 10, 10, 3)).unwrap();
    let bounds: Vec<(u32, u32)> = tiles.iter().map(|t| (t.region.start_y, t.region.end_y)).collect();
    assert_eq!(bounds, vec![(0, 3), (3, 6), (6, 10)]);
    assert_eq!(tiles[2].output, "renders/out-6-10.png");
}

#[test]
fn intensity_values() {
    assert_eq!(intensity(80, 80), 255);
    assert_eq!(intensity(80, 1), 255);
    assert_eq!(intensity(80, 0), 255);
    assert_eq!(intensity(0, 0), 255);
    assert_eq!(intensity(1, 2), 128);
    assert_eq!(intensity(1, 3), 85);
    assert_eq!(intensity(0, 5), 0);
    assert_eq!(intensity(usize::MAX, 1), 255);
}

#[test]
fn pixel_coords_are_row_major() {
    let region = TileRegion { start_x: 1, start_y: 5, end_x: 4, end_y: 7 };
    assert_eq!(pixel_coords(&region), vec![(1, 5), (2, 5), (3, 5), (1, 6), (2, 6), (3, 6)]);
    let empty = TileRegion { start_x: 0, start_y: 2, end_x: 3, end_y: 2 };
    assert!(pixel_coords(&empty).is_empty());
}

#[test]
fn exec_to_vec_shades_each_count() {
    let tile = TileJob {
        max_iter: 1,
        region: TileRegion { start_x: 0, start_y: 0, end_x: 2, end_y: 2 },
        output: String::new(),
    };
    assert_eq!(exec_to_vec(&tile, &vec![1, 2, 3, 0]), vec![255, 128, 85, 255]);
}

#[test]
fn merge_vecs_keeps_order() {
    assert_eq!(merge_vecs(vec![vec![1, 2], vec![], vec![3], vec![4, 5]]), vec![1, 2, 3, 4, 5]);
    assert!(merge_vecs(vec![]).is_empty());
}

#[test]
fn merged_bands_match_single_pass() {
    let tiles = split(&job(300, 200, 80, 4)).unwrap();
    let parts: Vec<Vec<u8>> = tiles.iter().map(|t| exec_to_vec(t, &tile_counts(t))).collect();
    let merged = merge_vecs(parts);
    let whole = split(&job(300, 200, 80, 1)).unwrap();
    let single = exec_to_vec(&whole[0], &tile_counts(&whole[0]));
    assert_eq!(merged.len(), 60000);
    assert_eq!(merged, single);
}

#[test]
fn merged_artifacts_match_single_pass() {
    let tiles = split(&job(300, 200, 80, 4)).unwrap();
    let artifacts: Vec<Vec<u8>> = tiles
        .iter()
        .map(|t| {
            let data = exec_to_vec(t, &tile_counts(t));
            encode_artifact(&data, t.region.end_x - t.region.start_x, t.region.end_y - t.region.start_y).unwrap()
        })
        .collect();
    let merged = merge(&artifacts).unwrap();
    let whole = split(&job(300, 200, 80, 1)).unwrap();
    assert_eq!(merged, exec_to_vec(&whole[0], &tile_counts(&whole[0])));
    assert!(encode_artifact(&merged, 300, 200).is_ok());
}

#[test]
fn save_rejects_short_buffer() {
    assert_eq!(
        encode_artifact(&vec![0u8; 99], 10, 10).err(),
        Some(RenderError::SizeMismatch { len: 99, width: 10, height: 10 })
    );
}

#[test]
fn save_rejects_zero_size() {
    assert_eq!(encode_artifact(&vec![], 0, 5).err(), Some(RenderError::Storage(StorageError::Encode)));
}

#[test]
fn artifact_round_trip() {
    let pixels: Vec<u8> = (0..60u32).map(|i| (i * 17 % 256) as u8).collect();
    let bytes = encode_artifact(&pixels, 6, 10).unwrap();
    assert_ne!(bytes, pixels);
    assert_eq!(&bytes[..8], &[137, 80, 78, 71, 13, 10, 26, 10]);
    let (back, width, height) = decode_artifact(&bytes).unwrap();
    assert_eq!(back, pixels);
    assert_eq!((width, height), (6, 10));
}

#[test]
fn load_rejects_garbage() {
    assert_eq!(
        decode_artifact(&vec![1, 2, 3]).err(),
        Some(RenderError::Storage(StorageError::Unreadable))
    );
}

#[test]
fn merge_names_the_bad_artifact() {
    let good = encode_artifact(&vec![7u8; 4], 2, 2).unwrap();
    assert_eq!(
        merge(&vec![good.clone(), vec![0, 1], good]).err(),
        Some(RenderError::Storage(StorageError::Decode { index: 1 }))
    );
}

#[test]
fn exec_returns_buffer_and_its_artifact() {
    let tiles = split(&job(300, 200, 80, 4)).unwrap();
    let t = &tiles[2];
    let (pixels, bytes) = exec(t, &tile_counts(t)).unwrap();
    assert_eq!(pixels, exec_to_vec(t, &tile_counts(t)));
    assert_eq!(pixels.len(), 15000);
    assert_eq!(decode_artifact(&bytes).unwrap(), (pixels, 300, 50));
}
