use raudit::klee::{
    bind_arg_ptr_value, bind_arg_rustrange_value, bind_arg_u64_value, ArgRustRangeValue, ArgU64Value,
    IndexRange,
};

#[test]
fn integers_bind_when_non_negative() {
    let b = bind_arg_u64_value(2, &7usize).unwrap();
    assert_eq!((b.index, b.value), (2, 7));
    let b = bind_arg_u64_value(0, &-1i32);
    assert!(b.is_none());
    let b = bind_arg_u64_value(1, &5i64).unwrap();
    assert_eq!((b.index, b.value), (1, 5));
    assert_eq!(255u8.as_arg_u64(), Some(255));
    assert_eq!(i8::MIN.as_arg_u64(), None);
}

#[test]
fn ranges_bind_start_and_end() {
    let r = bind_arg_rustrange_value(3, &IndexRange::From { start: 4 }, 10);
    assert_eq!(r.len(), 2);
    assert_eq!((r[0].index, r[0].value), (3, 4));
    assert_eq!((r[1].index, r[1].value), (4, 10));
    let r = bind_arg_rustrange_value(0, &IndexRange::Full, 6);
    assert_eq!((r[0].value, r[1].value), (0, 6));
    let r = bind_arg_rustrange_value(0, &IndexRange::Inclusive { start: 1, end: 3 }, 6);
    assert_eq!((r[0].value, r[1].value), (1, 4));
    let r = bind_arg_rustrange_value(0, &IndexRange::ToInclusive { end: 2 }, 6);
    assert_eq!((r[0].value, r[1].value), (0, 3));
    let r = bind_arg_rustrange_value(0, &IndexRange::To { end: 2 }, 6);
    assert_eq!((r[0].value, r[1].value), (0, 2));
    let r = bind_arg_rustrange_value(0, &IndexRange::Range { start: 2, end: 5 }, 6);
    assert_eq!((r[0].value, r[1].value), (2, 5));
    let r = bind_arg_rustrange_value(0, &(1usize..3usize), 6);
    assert_eq!((r[0].value, r[1].value), (1, 3));
    assert_eq!(IndexRange::Index(5).as_rustrange_u64(9), Some((5, 6)));
}

#[test]
fn pointers_bind_their_address() {
    let address: usize = 0x7fff_1000;
    let b = bind_arg_ptr_value(1, address);
    assert_eq!((b.index, b.value), (1, 0x7fff_1000u64));
}
