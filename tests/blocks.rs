use blind_watermark::blocks::{Block, BlockCutted, DwtedYCrBrAMat, Subbands};
use blind_watermark::config::{WatermarkConfig, WatermarkMode};
use blind_watermark::embed::WatermarkError;
use blind_watermark::plane::Plane;

fn counting_plane(height: usize, width: usize, offset: u32) -> Plane<u32> {
    let mut p = Plane::new(height, width, 0u32);
    for r in 0..height {
        for c in 0..width {
            p.cells[r][c] = offset + (r * width + c) as u32;
        }
    }
    p
}

fn subbands(height: usize, width: usize, offset: u32) -> Subbands<u32> {
    (
        counting_plane(height, width, offset),
        Plane::new(height, width, 1),
        Plane::new(height, width, 2),
        Plane::new(height, width, 3),
    )
}

fn dwted(height: usize, width: usize) -> DwtedYCrBrAMat<u32> {
    DwtedYCrBrAMat {
        y: subbands(height, width, 0),
        cb: subbands(height, width, 1000),
        cr: subbands(height, width, 2000),
        a: Plane::new(2 * height, 2 * width, 5),
        original_dimensions: (2 * height, 2 * width),
    }
}

#[test]
fn cut_makes_row_major_tiles() {
    let cut = dwted(8, 8).cut();
    assert_eq!(cut.blocks_dimensions, (2, 2));
    assert_eq!(cut.y_ll_blocks.len(), 4);
    assert_eq!(cut.nblocks(), 4);
    assert_eq!(cut.y_ll_blocks[0].mat_data.cells[0], vec![0, 1, 2, 3]);
    assert_eq!(cut.y_ll_blocks[1].mat_data.cells[0], vec![4, 5, 6, 7]);
    assert_eq!(cut.y_ll_blocks[2].mat_data.cells[0], vec![32, 33, 34, 35]);
    assert_eq!(cut.y_ll_blocks[3].mat_data.cells[3], vec![60, 61, 62, 63]);
    assert_eq!(cut.cb_ll_blocks[3].mat_data.at(0, 0), 1036);
    assert_eq!(cut.cr_ll_blocks[1].mat_data.at(1, 0), 2012);
}

#[test]
fn cut_leaves_out_partial_tiles() {
    let cut = dwted(6, 9).cut();
    assert_eq!(cut.blocks_dimensions, (1, 2));
    assert_eq!(cut.y_ll_blocks.len(), 2);
    assert_eq!(cut.y_ll_blocks[1].mat_data.cells[1], vec![13, 14, 15, 16]);
}

#[test]
fn cut_then_assemble_unchanged_restores_subbands() {
    let cut = dwted(6, 9).cut();
    let y = cut.y_ll_blocks.iter().map(|b| Block { mat_data: b.mat_data.clone() }).collect();
    let cb = cut.cb_ll_blocks.iter().map(|b| Block { mat_data: b.mat_data.clone() }).collect();
    let cr = cut.cr_ll_blocks.iter().map(|b| Block { mat_data: b.mat_data.clone() }).collect();
    let assembled = cut.replace_blocks(y, cb, cr).unwrap().assemble();
    assert_eq!(assembled.y.0.cells, counting_plane(6, 9, 0).cells);
    assert_eq!(assembled.cb.0.cells, counting_plane(6, 9, 1000).cells);
    assert_eq!(assembled.cr.0.cells, counting_plane(6, 9, 2000).cells);
    assert_eq!(assembled.y.3.cells, Plane::new(6, 9, 3u32).cells);
    assert_eq!(assembled.original_dimensions, (12, 18));
}

#[test]
fn assemble_writes_modified_tiles_in_place() {
    let cut = dwted(8, 8).cut();
    let mut y: Vec<Block<u32>> =
        cut.y_ll_blocks.iter().map(|b| Block { mat_data: b.mat_data.clone() }).collect();
    y[2] = Block { mat_data: Plane::new(4, 4, 777) };
    let cb = cut.cb_ll_blocks.iter().map(|b| Block { mat_data: b.mat_data.clone() }).collect();
    let cr = cut.cr_ll_blocks.iter().map(|b| Block { mat_data: b.mat_data.clone() }).collect();
    let assembled = cut.replace_blocks(y, cb, cr).unwrap().assemble();
    assert_eq!(assembled.y.0.at(4, 0), 777);
    assert_eq!(assembled.y.0.at(7, 3), 777);
    assert_eq!(assembled.y.0.at(4, 4), 36);
    assert_eq!(assembled.y.0.at(3, 3), 27);
}

#[test]
fn replace_blocks_rejects_wrong_shapes() {
    let cut = dwted(8, 8).cut();
    let y = vec![];
    let cb = vec![];
    let cr = vec![];
    assert_eq!(cut.replace_blocks(y, cb, cr).err(), Some(WatermarkError::ShapeMismatch));

    let cut = dwted(8, 8).cut();
    let make = || (0..4).map(|_| Block { mat_data: Plane::new(4, 4, 0u32) }).collect::<Vec<_>>();
    let mut y = make();
    y[1] = Block { mat_data: Plane::new(4, 3, 0u32) };
    assert_eq!(cut.replace_blocks(y, make(), make()).err(), Some(WatermarkError::ShapeMismatch));
}

#[test]
fn capacity_violation_touches_no_block() {
    let cut: BlockCutted<u32> = dwted(8, 8).cut();
    let config = WatermarkConfig::default();
    let bits = vec![true, false, true, false, true];
    assert_eq!(
        cut.watermark_bits_per_block(&bits, &config),
        Err(WatermarkError::CapacityExceeded)
    );
    assert_eq!(cut.y_ll_blocks.len(), 4);
    assert_eq!(cut.y_ll_blocks[0].mat_data.cells[0], vec![0, 1, 2, 3]);
    assert_eq!(cut.y.0.cells, counting_plane(8, 8, 0).cells);
    let four = vec![false, true, false, true];
    assert_eq!(cut.watermark_bits_per_block(&four, &config), Ok(four.clone()));
    let seeded = WatermarkConfig { mode: WatermarkMode::Strategy(3), ..WatermarkConfig::default() };
    let mut got = cut.watermark_bits_per_block(&four, &seeded).unwrap();
    got.sort();
    assert_eq!(got, vec![false, false, true, true]);
}
