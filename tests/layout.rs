use sierpinski::layout::{DataLayout, DataSpecification};

#[test]
fn position_and_color_records_split_at_three() {
    let layout = DataLayout::infer_from_len(24, &[3], 0, 4);
    let expected = DataSpecification { stride: 12, components: 3, normalize: 0 };
    assert_eq!(layout.specs().clone(), vec![expected, expected]);
    assert_eq!(layout.attribute_offsets(), Some((24, vec![0, 12])));
}

#[test]
fn position_only_records_form_one_attribute() {
    let layout = DataLayout::infer_from_len(8, &[], 1, 4);
    assert_eq!(layout.specs().clone(), vec![DataSpecification { stride: 8, components: 2, normalize: 1 }]);
    assert_eq!(layout.attribute_offsets(), Some((8, vec![0])));
}

#[test]
fn uneven_cutoffs() {
    let layout = DataLayout::infer_from_len(36, &[1, 1, 4], 0, 4);
    let strides: Vec<u32> = layout.specs().iter().map(|s| s.stride).collect();
    let components: Vec<i32> = layout.specs().iter().map(|s| s.components).collect();
    assert_eq!(components, vec![1, 0, 3, 5]);
    assert_eq!(strides, vec![4, 0, 12, 20]);
    assert_eq!(layout.attribute_offsets(), Some((36, vec![0, 4, 4, 16])));
}

#[test]
fn push_appends_and_offsets_overflow_is_reported() {
    let big = DataSpecification { stride: u32::MAX, components: 1, normalize: 0 };
    let one = DataLayout::default().push(big);
    assert_eq!(one.specs().len(), 1);
    assert_eq!(one.attribute_offsets(), Some((u32::MAX, vec![0])));
    let two = one.push(DataSpecification { stride: 1, components: 1, normalize: 0 });
    assert_eq!(two.attribute_offsets(), None);
    assert_eq!(DataLayout::default().attribute_offsets(), Some((0, vec![])));
}
