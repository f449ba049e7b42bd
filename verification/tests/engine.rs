use screenmix::common::{Pixel, Raster, SortBy, SortKey, SortOrder};
use screenmix::matrix::Matrix;
use screenmix::sorting::{
    pixel_map_column, pixel_map_row, pixel_sort_column, pixel_sort_row, pixel_unsort,
    unsort_images,
};

fn gray(v: u8) -> Pixel {
    Pixel { r: v, g: v, b: v, a: 255 }
}

fn image_of(width: usize, height: usize, values: &[u8]) -> Raster {
    assert_eq!(values.len(), width * height);
    Matrix { width, height, data: values.iter().map(|&v| gray(v)).collect() }
}

#[test]
fn row_grid_inverts_the_row_sort() {
    // a single row with luma 200, 50, 100: ascending luma order is the
    // cells 1, 2, 0, and the grid records where each cell's pixel landed
    let img = image_of(3, 1, &[200, 50, 100]);
    let grid = pixel_map_row(&img, SortKey::Lightness, SortOrder::Ascending, None);
    assert_eq!(grid.data, vec![(2, 0), (0, 0), (1, 0)]);
    let sorted = pixel_sort_row(&img, SortKey::Lightness, SortOrder::Ascending);
    assert_eq!(sorted.data, vec![gray(50), gray(100), gray(200)]);
    let restored = pixel_unsort(&sorted, &grid);
    assert_eq!(restored.data, img.data);
}

#[test]
fn column_grid_inverts_the_column_sort() {
    let img = image_of(1, 3, &[200, 50, 100]);
    let grid = pixel_map_column(&img, SortKey::Lightness, SortOrder::Ascending, None);
    assert_eq!(grid.data, vec![(0, 2), (0, 0), (0, 1)]);
    let sorted = pixel_sort_column(&img, SortKey::Lightness, SortOrder::Ascending);
    assert_eq!(sorted.data, vec![gray(50), gray(100), gray(200)]);
    let restored = pixel_unsort(&sorted, &grid);
    assert_eq!(restored.data, img.data);
}

#[test]
fn row_sort_unsort_round_trip() {
    let img = image_of(4, 3, &[9, 3, 200, 7, 0, 255, 128, 17, 45, 45, 2, 99]);
    for order in [SortOrder::Ascending, SortOrder::Descending] {
        let sorted = pixel_sort_row(&img, SortKey::Lightness, order);
        let grid = pixel_map_row(&img, SortKey::Lightness, order, None);
        let restored = pixel_unsort(&sorted, &grid);
        assert_eq!(restored.data, img.data);
    }
}

#[test]
fn row_round_trip_with_equal_keys() {
    // two different pixels with the same luma key of 54
    let a = Pixel { r: 255, g: 0, b: 0, a: 255 };
    let b = Pixel { r: 0, g: 76, b: 0, a: 255 };
    let img = Raster { width: 3, height: 1, data: vec![a, gray(10), b] };
    let sorted = pixel_sort_row(&img, SortKey::Lightness, SortOrder::Ascending);
    let grid = pixel_map_row(&img, SortKey::Lightness, SortOrder::Ascending, None);
    let restored = pixel_unsort(&sorted, &grid);
    assert_eq!(restored.data, img.data);
}

#[test]
fn descending_row_sort_reverses_ascending() {
    let img = image_of(3, 1, &[200, 50, 100]);
    let desc = pixel_sort_row(&img, SortKey::Lightness, SortOrder::Descending);
    assert_eq!(desc.data, vec![gray(200), gray(100), gray(50)]);
}

#[test]
fn compound_row_then_column_grid() {
    // 2x2 with luma keys 10, 5 / 3, 20: the row pass ranks each row, the
    // column pass then re-sorts each column of the piped grid
    let a = image_of(2, 2, &[10, 5, 3, 20]);
    let b = image_of(2, 2, &[1, 2, 3, 4]);
    let out = unsort_images(
        &a,
        &b,
        SortKey::Lightness,
        SortBy::RowCol,
        SortOrder::Ascending,
        SortOrder::Ascending,
    );
    assert_eq!(out.data, vec![gray(3), gray(2), gray(1), gray(4)]);
}

#[test]
fn unsort_images_row_mode_restores_row_sorted_image() {
    let a = image_of(3, 2, &[200, 50, 100, 5, 99, 1]);
    let sorted = pixel_sort_row(&a, SortKey::Lightness, SortOrder::Ascending);
    let out = unsort_images(
        &a,
        &sorted,
        SortKey::Lightness,
        SortBy::Row,
        SortOrder::Ascending,
        SortOrder::Descending,
    );
    assert_eq!(out.data, a.data);
}

#[test]
fn unsort_uses_second_image_pixels() {
    let a = image_of(3, 1, &[200, 50, 100]);
    let b = image_of(3, 1, &[7, 8, 9]);
    let out = unsort_images(
        &a,
        &b,
        SortKey::Lightness,
        SortBy::Row,
        SortOrder::Ascending,
        SortOrder::Ascending,
    );
    // grid row is (2,0) (0,0) (1,0), applied to b's pixels
    assert_eq!(out.data, vec![gray(9), gray(7), gray(8)]);
}
