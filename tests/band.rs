use mandellib::{assemble_image, finish_band, reorient, RenderParameters};

fn luma(x: u32, y: u32) -> RenderParameters {
    RenderParameters::new(x as usize, y as usize, 10, 1, true).unwrap()
}

fn rgb(x: u32, y: u32) -> RenderParameters {
    RenderParameters::new(x as usize, y as usize, 10, 1, false).unwrap()
}

#[test]
fn mirrors_past_the_axis_pixel() {
    let p = luma(1, 5);
    let mut band = vec![10, 20, 30, 0, 0];
    finish_band(&mut band, &p, 3, false);
    assert_eq!(band, vec![10, 20, 30, 20, 10]);
}

#[test]
fn mirrors_a_shorter_half() {
    let p = luma(1, 4);
    let mut band = vec![10, 20, 30, 0];
    finish_band(&mut band, &p, 3, false);
    assert_eq!(band, vec![10, 20, 30, 20]);
}

#[test]
fn flip_keeps_channels_in_order() {
    let p = rgb(1, 4);
    let mut band = vec![1, 2, 3, 4, 5, 6, 7, 8, 9, 0, 0, 0];
    finish_band(&mut band, &p, 3, true);
    assert_eq!(band, vec![4, 5, 6, 7, 8, 9, 4, 5, 6, 1, 2, 3]);
}

#[test]
fn fully_computed_band_is_only_flipped() {
    let p = rgb(1, 3);
    let mut band = vec![1, 2, 3, 4, 5, 6, 7, 8, 9];
    finish_band(&mut band, &p, 3, false);
    assert_eq!(band, vec![1, 2, 3, 4, 5, 6, 7, 8, 9]);
    finish_band(&mut band, &p, 3, true);
    assert_eq!(band, vec![7, 8, 9, 4, 5, 6, 1, 2, 3]);
}

#[test]
fn rgba_flip_keeps_alpha_last() {
    let p = RenderParameters::try_new(1, 2, 10, 1, mandellib::SupportedColorType::Rgba8).unwrap();
    let mut band = vec![1, 2, 3, 255, 4, 5, 6, 255];
    finish_band(&mut band, &p, 2, true);
    assert_eq!(band, vec![4, 5, 6, 255, 1, 2, 3, 255]);
}

#[test]
fn bands_become_columns_bottom_up() {
    let p = luma(2, 3);
    let bands = vec![vec![1, 2, 3], vec![4, 5, 6]];
    assert_eq!(assemble_image(&p, &bands), vec![3, 6, 2, 5, 1, 4]);
    assert_eq!(reorient(&p, vec![1, 2, 3, 4, 5, 6]), vec![3, 6, 2, 5, 1, 4]);
}

#[test]
fn color_bands_become_columns() {
    let p = rgb(2, 2);
    let bands = vec![vec![1, 1, 1, 2, 2, 2], vec![3, 3, 3, 4, 4, 4]];
    assert_eq!(assemble_image(&p, &bands), vec![2, 2, 2, 4, 4, 4, 1, 1, 1, 3, 3, 3]);
}

#[test]
fn mirrored_image_rows_are_symmetric() {
    let (x, y) = (3u32, 5u32);
    let p = rgb(x, y);
    for flip in [false, true] {
        let mut bands = Vec::new();
        for col in 0..x as u8 {
            let mut band = vec![0u8; 3 * y as usize];
            for (i, b) in band.iter_mut().take(9).enumerate() {
                *b = 10 * col + i as u8 + 1;
            }
            finish_band(&mut band, &p, 3, flip);
            bands.push(band);
        }
        let image = assemble_image(&p, &bands);
        let row = |r: usize| image[r * 9..(r + 1) * 9].to_vec();
        assert_eq!(row(0), row(4));
        assert_eq!(row(1), row(3));
        assert_ne!(row(0), row(2));
    }
}

#[test]
fn assembly_is_the_same_whatever_order_bands_finish_in() {
    let p = rgb(4, 3);
    let make = |col: u8| {
        let mut band: Vec<u8> = (0..9).map(|i| col * 16 + i).collect();
        finish_band(&mut band, &p, 3, col % 2 == 0);
        band
    };
    let forward: Vec<Vec<u8>> = (0..4).map(make).collect();
    let mut backward: Vec<(u8, Vec<u8>)> = (0..4).rev().map(|c| (c, make(c))).collect();
    backward.sort_by_key(|(c, _)| *c);
    let backward: Vec<Vec<u8>> = backward.into_iter().map(|(_, b)| b).collect();
    assert_eq!(assemble_image(&p, &forward), assemble_image(&p, &backward));
}
