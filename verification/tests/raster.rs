use mandelbrot::raster::{new_buffer, render_band, shade, Viewport};

#[test]
fn test_shade() {
    assert_eq!(shade(None), 0);
    assert_eq!(shade(Some(0)), 255);
    assert_eq!(shade(Some(1)), 254);
    assert_eq!(shade(Some(5)), 250);
    assert_eq!(shade(Some(254)), 1);
    assert_eq!(shade(Some(255)), 0);
    assert_eq!(shade(Some(1000)), 0);
}

#[test]
fn test_render_band() {
    let counts = vec![None, Some(0), Some(3), Some(255), Some(400)];
    assert_eq!(render_band(&counts), vec![0, 255, 252, 0, 0]);
    assert_eq!(render_band(&Vec::new()), Vec::<u8>::new());
}

#[test]
fn test_new_buffer_single_pixel() {
    let buf = new_buffer(Viewport {
        width: 1,
        height: 1,
    });
    assert_eq!(buf, vec![0u8]);
}

#[test]
fn test_new_buffer_dimensions() {
    let buf = new_buffer(Viewport {
        width: 100,
        height: 100,
    });
    assert_eq!(buf.len(), 10000);
    assert!(buf.iter().all(|&b| b == 0));
}
