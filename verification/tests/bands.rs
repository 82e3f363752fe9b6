use mandelbrot::bands::{assemble, band_layout, rows_per_band, Band};

#[test]
fn test_rows_per_band() {
    assert_eq!(rows_per_band(750, 8), 94);
    assert_eq!(rows_per_band(200, 8), 26);
    assert_eq!(rows_per_band(8, 8), 2);
    assert_eq!(rows_per_band(1, 8), 1);
}

#[test]
fn test_band_layout_exact() {
    let bands = band_layout(10, 3);
    assert_eq!(
        bands,
        vec![
            Band { top: 0, height: 4 },
            Band { top: 4, height: 4 },
            Band { top: 8, height: 2 },
        ]
    );
}

#[test]
fn test_band_layout_partitions_rows() {
    for (height, workers) in [(200usize, 8usize), (7, 3), (100, 4), (13, 13)] {
        let bands = band_layout(height, workers);
        assert!(bands.len() <= workers);
        let mut owners = vec![0usize; height];
        for band in &bands {
            assert!(band.height >= 1);
            for row in band.top..band.top + band.height {
                owners[row] += 1;
            }
        }
        assert!(owners.iter().all(|&n| n == 1));
    }
}

#[test]
fn test_band_layout_more_workers_than_rows() {
    let bands = band_layout(1, 8);
    assert_eq!(bands, vec![Band { top: 0, height: 1 }]);

    let bands = band_layout(3, 100);
    assert_eq!(bands.len(), 3);

    let bands = band_layout(0, 8);
    assert_eq!(bands, vec![]);
}

// A deterministic stand-in for the per-pixel escape report, so the
// verified pipeline (layout, per-band shading, assembly) can be exercised
// end to end without floating point.
fn report(row: usize, col: usize) -> Option<usize> {
    let n = (row * 31 + col * 7) % 300;
    if n % 5 == 0 {
        None
    } else {
        Some(n)
    }
}

#[test]
fn test_render_independent_of_worker_count() {
    let width = 9usize;
    let height = 20usize;

    let mut reference: Vec<u8> = Vec::new();
    for row in 0..height {
        for col in 0..width {
            reference.push(mandelbrot::raster::shade(report(row, col)));
        }
    }

    for workers in [1usize, 2, 3, 8, 64] {
        let bands = band_layout(height, workers);
        let mut parts: Vec<Vec<u8>> = Vec::new();
        for band in &bands {
            let mut counts = Vec::new();
            for row in band.top..band.top + band.height {
                for col in 0..width {
                    counts.push(report(row, col));
                }
            }
            parts.push(mandelbrot::raster::render_band(&counts));
        }
        assert_eq!(assemble(&parts), reference);
    }
}

#[test]
fn test_assemble() {
    let parts = vec![vec![1u8, 2], vec![3], vec![], vec![4, 5, 6]];
    assert_eq!(assemble(&parts), vec![1, 2, 3, 4, 5, 6]);
    let empty: Vec<Vec<u8>> = vec![];
    assert_eq!(assemble(&empty), Vec::<u8>::new());
}
