use sql_lineage::coreset::{
    assigned_to, compose, invert_index, weight_by_count, weight_coreset_points, with_offset,
};
use sql_lineage::zfp::{decoded_shape, element_count, field_layout, Layout, LayoutError};

#[test]
fn weights_count_the_assigned_points() {
    assert_eq!(weight_by_count(&vec![0, 2, 2, 1, 2]), vec![1, 1, 3]);
    assert_eq!(weight_by_count(&vec![3]), vec![0, 0, 0, 1]);
    assert_eq!(weight_coreset_points(4, &vec![0, 2, 2]), vec![1, 0, 2, 0]);
    assert_eq!(weight_coreset_points(2, &vec![]), vec![0, 0]);
}

#[test]
fn coreset_indices_point_into_the_data() {
    assert_eq!(invert_index(&vec![10, 20, 30], &vec![2, 0, 2]), vec![30, 10, 30]);
    assert_eq!(assigned_to(&vec![5, 7, 5, 5], 5), vec![0, 2, 3]);
    assert_eq!(assigned_to(&vec![5, 7, 5, 5], 6), Vec::<usize>::new());
    assert_eq!(with_offset(&vec![0, 3], 100), vec![100, 103]);
    assert_eq!(compose(vec![1, 2], vec![3]), vec![1, 2, 3]);
}

#[test]
fn layouts_of_one_to_four_dimensions() {
    assert_eq!(field_layout(&[7]), Ok(Layout { dims: 1, sy: 0, sz: 0, sw: 0 }));
    assert_eq!(field_layout(&[3, 7]), Ok(Layout { dims: 2, sy: 7, sz: 0, sw: 0 }));
    assert_eq!(field_layout(&[2, 3, 7]), Ok(Layout { dims: 3, sy: 7, sz: 21, sw: 0 }));
    assert_eq!(field_layout(&[5, 2, 3, 7]), Ok(Layout { dims: 4, sy: 7, sz: 21, sw: 42 }));
}

#[test]
fn layouts_that_cannot_be() {
    assert_eq!(field_layout(&[]), Err(LayoutError::Dimensions));
    assert_eq!(field_layout(&[1, 1, 1, 1, 1]), Err(LayoutError::Dimensions));
    assert_eq!(field_layout(&[1, usize::MAX]), Err(LayoutError::StrideY));
    assert_eq!(field_layout(&[1, usize::MAX, 2]), Err(LayoutError::StrideZOverflow));
    let half = (isize::MAX as usize) / 2 + 1;
    assert_eq!(field_layout(&[1, 2, half]), Err(LayoutError::StrideZ));
    assert_eq!(field_layout(&[1, 4, 2, half / 2]), Err(LayoutError::StrideWOverflow));
    assert_eq!(field_layout(&[1, 2, 2, half / 2]), Err(LayoutError::StrideW));
}

#[test]
fn shapes_read_back() {
    assert_eq!(decoded_shape(0, 0, 3, 7), vec![3, 7]);
    assert_eq!(decoded_shape(0, 0, 0, 0), Vec::<usize>::new());
    assert_eq!(decoded_shape(2, 3, 4, 5), vec![2, 3, 4, 5]);
    assert_eq!(element_count(&vec![2, 3, 4]), Some(24));
    assert_eq!(element_count(&vec![]), Some(1));
    assert_eq!(element_count(&vec![usize::MAX, 2]), None);
}
