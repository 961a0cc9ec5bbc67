use audiobench::data_type::{Bounds, DataType, SpecificDataType};

fn array(dims: &[usize], base: SpecificDataType) -> SpecificDataType {
    SpecificDataType::make_array(dims, base)
}

#[test]
fn make_array_nests_outermost_first() {
    let made = array(&[2, 3], SpecificDataType::Float);
    let expected = SpecificDataType::Array(
        2,
        Box::new(SpecificDataType::Array(
            3,
            Box::new(SpecificDataType::Float),
        )),
    );
    assert!(made == expected);
    assert!(array(&[], SpecificDataType::Int) == SpecificDataType::Int);
}

#[test]
fn collect_dims_reads_them_back() {
    assert_eq!(
        array(&[4, 1, 9], SpecificDataType::Bool).collect_dims(),
        vec![4, 1, 9]
    );
    assert_eq!(
        SpecificDataType::Void.collect_dims(),
        Vec::<usize>::new()
    );
    let nested = array(&[2], array(&[3], SpecificDataType::Int));
    assert_eq!(nested.collect_dims(), vec![2, 3]);
}

#[test]
fn equivalent_compares_structure() {
    let a = array(&[2, 3], SpecificDataType::Float);
    assert!(a.equivalent(&array(&[2, 3], SpecificDataType::Float)));
    assert!(!a.equivalent(&array(&[2, 4], SpecificDataType::Float)));
    assert!(!a.equivalent(&array(&[2, 3], SpecificDataType::Int)));
    assert!(!a.equivalent(&array(&[2], SpecificDataType::Float)));
    assert!(!a.equivalent(&SpecificDataType::Float));
    assert!(SpecificDataType::Macro.equivalent(&SpecificDataType::Macro));
    assert!(!SpecificDataType::Macro.equivalent(&SpecificDataType::DataType));
    assert!(!SpecificDataType::Bool.equivalent(&a));
    assert!(a == a.clone());
}

#[test]
fn with_different_base_keeps_the_dimensions() {
    let a = array(&[2, 3], SpecificDataType::Float);
    assert!(a.with_different_base(SpecificDataType::Int) == array(&[2, 3], SpecificDataType::Int));
    assert!(
        SpecificDataType::Bool.with_different_base(SpecificDataType::Void)
            == SpecificDataType::Void
    );
    let stacked = a.with_different_base(array(&[5], SpecificDataType::Bool));
    assert_eq!(stacked.collect_dims(), vec![2, 3, 5]);
}

#[test]
fn bounds_to_and_from_tuples() {
    assert!(matches!(Bounds::from_tuple((None, None)), Bounds::Unbounded));
    match Bounds::from_tuple((None, Some(SpecificDataType::Int))) {
        Bounds::Upper(upper) => assert!(upper == SpecificDataType::Int),
        _ => panic!("expected an upper bound"),
    }
    let both = Bounds::from_tuple((Some(SpecificDataType::Bool), Some(SpecificDataType::Int)));
    let (lower, upper) = both.as_tuple();
    assert!(*lower.unwrap() == SpecificDataType::Bool);
    assert!(*upper.unwrap() == SpecificDataType::Int);
    let (lower, upper) = both.clone().into_tuple();
    assert!(lower.unwrap() == SpecificDataType::Bool);
    assert!(upper.unwrap() == SpecificDataType::Int);
    let (lower, upper) = Bounds::Unbounded.into_tuple();
    assert!(lower.is_none() && upper.is_none());
    let upper_only = Bounds::Upper(SpecificDataType::Float);
    let (lower, upper) = upper_only.as_tuple();
    assert!(lower.is_none());
    assert!(*upper.unwrap() == SpecificDataType::Float);
}

#[test]
fn data_types_are_built_and_mapped() {
    let unbounded = DataType::unbounded();
    assert!(unbounded.actual_type.is_none());
    assert!(matches!(unbounded.bounds, Bounds::Unbounded));

    let specific = DataType::specific(SpecificDataType::Int);
    assert!(specific.actual_type.clone().unwrap() == SpecificDataType::Int);
    match &specific.bounds {
        Bounds::LowerAndUpper(lower, upper) => {
            assert!(*lower == SpecificDataType::Int);
            assert!(*upper == SpecificDataType::Int);
        }
        _ => panic!("expected both bounds"),
    }
    let converted: DataType = SpecificDataType::Bool.into();
    assert!(converted.actual_type.unwrap() == SpecificDataType::Bool);

    let wrapped = specific.map_ref(|t| SpecificDataType::Array(2, Box::new(t.clone())));
    assert!(wrapped.actual_type.clone().unwrap() == array(&[2], SpecificDataType::Int));
    let (lower, upper) = wrapped.bounds.as_tuple();
    assert!(*lower.unwrap() == array(&[2], SpecificDataType::Int));
    assert!(*upper.unwrap() == array(&[2], SpecificDataType::Int));

    let again = wrapped.clone().map(|t| SpecificDataType::Array(7, Box::new(t)));
    assert_eq!(again.actual_type.unwrap().collect_dims(), vec![7, 2]);

    let upper_only = DataType {
        actual_type: None,
        bounds: Bounds::Upper(array(&[3], SpecificDataType::Float)),
    };
    let rebased = upper_only.with_different_base(SpecificDataType::Int);
    assert!(rebased.actual_type.is_none());
    match rebased.bounds {
        Bounds::Upper(upper) => assert!(upper == array(&[3], SpecificDataType::Int)),
        _ => panic!("expected an upper bound"),
    }
    let mapped = DataType::unbounded().map_ref(|_| SpecificDataType::Void);
    assert!(mapped.actual_type.is_none());
    assert!(matches!(mapped.bounds, Bounds::Unbounded));
}
