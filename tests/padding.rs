use blind_watermark::pipeline::YCrBrAMat;
use blind_watermark::plane::Plane;

fn ones_image(height: usize, width: usize) -> YCrBrAMat<f32> {
    YCrBrAMat {
        y: Plane::new(height, width, 1.0f32),
        cb: Plane::new(height, width, 1.0f32),
        cr: Plane::new(height, width, 1.0f32),
        a: Plane::new(height, width, 1.0f32),
        dimensions: (height, width),
    }
}

fn counting_plane(height: usize, width: usize, offset: u32) -> Plane<u32> {
    let mut p = Plane::new(height, width, 0u32);
    for r in 0..height {
        for c in 0..width {
            p.cells[r][c] = offset + (r * width + c) as u32;
        }
    }
    p
}

#[test]
fn test_add_padding() {
    let yuv = ones_image(2, 3);
    let padded = yuv.add_padding(0.0);
    assert_eq!(padded.y.ncols(), 4);
    assert_eq!(padded.cr.ncols(), 4);
    assert_eq!(padded.cb.ncols(), 4);
    assert_eq!(padded.y.nrows(), 2);
    assert_eq!(padded.cb.nrows(), 2);
    assert_eq!(padded.cr.nrows(), 2);
    assert_eq!(padded.a.nrows(), 2);
    assert_eq!(padded.a.ncols(), 4);
}

#[test]
fn test_remove_padding() {
    let yuv = ones_image(2, 3);
    let padded = yuv.add_padding(0.0);
    let yuv_recovered = padded.remove_padding();
    assert_eq!(yuv_recovered.y.nrows(), 2);
    assert_eq!(yuv_recovered.y.ncols(), 3);
    assert_eq!(yuv_recovered.cb.nrows(), 2);
    assert_eq!(yuv_recovered.cb.ncols(), 3);
    assert_eq!(yuv_recovered.cr.nrows(), 2);
    assert_eq!(yuv_recovered.cr.ncols(), 3);
    assert_eq!(yuv_recovered.a.nrows(), 2);
    assert_eq!(yuv_recovered.a.ncols(), 3);
}

#[test]
fn padding_fills_new_row_and_column() {
    let img = YCrBrAMat {
        y: counting_plane(3, 5, 0),
        cb: counting_plane(3, 5, 100),
        cr: counting_plane(3, 5, 200),
        a: counting_plane(3, 5, 300),
        dimensions: (3, 5),
    };
    let padded = img.add_padding(7);
    assert_eq!((padded.y.height, padded.y.width), (4, 6));
    assert_eq!(padded.original_dimensions, (3, 5));
    assert_eq!(padded.y.at(2, 4), 14);
    assert_eq!(padded.cb.at(1, 1), 106);
    assert_eq!(padded.y.at(3, 0), 7);
    assert_eq!(padded.cr.at(0, 5), 7);
    assert_eq!(padded.y.at(3, 5), 7);
    assert_eq!((padded.a.height, padded.a.width), (4, 6));
    assert_eq!(padded.a.at(2, 4), 314);
    assert_eq!(padded.a.at(3, 2), 7);
    assert_eq!(padded.a.at(1, 5), 7);
}

#[test]
fn even_image_is_not_padded() {
    let img = YCrBrAMat {
        y: counting_plane(4, 2, 0),
        cb: counting_plane(4, 2, 0),
        cr: counting_plane(4, 2, 0),
        a: counting_plane(4, 2, 0),
        dimensions: (4, 2),
    };
    let padded = img.add_padding(9);
    assert_eq!(padded.y.cells, counting_plane(4, 2, 0).cells);
}

#[test]
fn padding_round_trip_restores_every_plane() {
    let img = YCrBrAMat {
        y: counting_plane(5, 7, 0),
        cb: counting_plane(5, 7, 1000),
        cr: counting_plane(5, 7, 2000),
        a: counting_plane(5, 7, 3000),
        dimensions: (5, 7),
    };
    let back = img.add_padding(0).remove_padding();
    assert_eq!(back.dimensions, (5, 7));
    assert_eq!(back.y.cells, counting_plane(5, 7, 0).cells);
    assert_eq!(back.cb.cells, counting_plane(5, 7, 1000).cells);
    assert_eq!(back.cr.cells, counting_plane(5, 7, 2000).cells);
    assert_eq!(back.a.cells, counting_plane(5, 7, 3000).cells);
}

#[test]
fn plane_window_and_overwrite() {
    let mut p = counting_plane(4, 4, 0);
    let w = p.submatrix(1, 2, 2, 2);
    assert_eq!(w.cells, vec![vec![6, 7], vec![10, 11]]);
    let src = Plane::new(2, 2, 99u32);
    p.write_submatrix(2, 0, &src);
    assert_eq!(p.cells[2], vec![99, 99, 10, 11]);
    assert_eq!(p.cells[3], vec![99, 99, 14, 15]);
    assert_eq!(p.cells[0], vec![0, 1, 2, 3]);
    assert!(p.is_wf());
}

#[test]
fn well_formedness_checks() {
    let good = ones_image(3, 3);
    assert!(good.is_well_formed());
    let mut bad = ones_image(3, 3);
    bad.a = Plane::new(3, 2, 1.0f32);
    assert!(!bad.is_well_formed());
    let mut ragged = ones_image(2, 2);
    ragged.y.cells[1].push(0.0);
    assert!(!ragged.is_well_formed());
    let padded = ones_image(3, 5).add_padding(0.0);
    assert!(padded.is_well_formed());
    let mut shifted = ones_image(3, 5).add_padding(0.0);
    shifted.original_dimensions = (1, 5);
    assert!(!shifted.is_well_formed());
}
