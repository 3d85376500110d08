use mpz::binary::{Binary, U128, U16, U32, U64, U8};
use mpz::cell_store::{CellStore, StoreError};
use mpz::memory::{Array, ClearValue, FromRaw, Slice, ToRaw};
use rangeset::set::RangeSet;

#[test]
fn u8_clear_value_is_lsb0() {
    let bits = 42u8.into_clear();
    assert_eq!(bits, vec![false, true, false, true, false, true, false, false]);
    assert_eq!(<u8 as ClearValue<mpz::binary::Binary>>::from_clear(bits), 42u8);
}

#[test]
fn uint_clear_values_round_trip() {
    let a: u16 = 0xbeef;
    let b: u32 = 0xdead_beef;
    let c: u64 = 0x0123_4567_89ab_cdef;
    let d: u128 = u128::MAX - 12345;
    assert_eq!(a.into_clear().len(), 16);
    assert_eq!(b.into_clear().len(), 32);
    assert_eq!(c.into_clear().len(), 64);
    assert_eq!(d.into_clear().len(), 128);
    assert_eq!(<u16 as ClearValue<mpz::binary::Binary>>::from_clear(a.into_clear()), a);
    assert_eq!(<u32 as ClearValue<mpz::binary::Binary>>::from_clear(b.into_clear()), b);
    assert_eq!(<u64 as ClearValue<mpz::binary::Binary>>::from_clear(c.into_clear()), c);
    assert_eq!(<u128 as ClearValue<mpz::binary::Binary>>::from_clear(d.into_clear()), d);
}

#[test]
fn array_clear_value_is_element_after_element() {
    let bits = [1u8, 128u8].into_clear();
    let mut expected = vec![true, false, false, false, false, false, false, false];
    expected.extend([false, false, false, false, false, false, false, true]);
    assert_eq!(bits, expected);
    let value: [u8; 16] = [69u8; 16];
    assert_eq!(
        <[u8; 16] as ClearValue<mpz::binary::Binary>>::from_clear(value.into_clear()),
        value
    );
}

#[test]
fn reprs_cover_their_width() {
    let slice = Slice::from_range_unchecked(10..20);
    assert_eq!(U8::from_raw(slice).to_raw().len(), 8);
    assert_eq!(U16::from_raw(slice).to_raw().len(), 16);
    assert_eq!(U32::from_raw(slice).to_raw().len(), 32);
    assert_eq!(U64::from_raw(slice).to_raw().len(), 64);
    assert_eq!(U128::from_raw(slice).to_raw().ptr().as_usize(), 10);
    let array: Array<U8, 16> = Array::from_raw(slice);
    assert_eq!(array.to_raw(), slice);
}

#[test]
fn slice_ranges() {
    let slice = Slice::from_range_unchecked(3..7);
    assert_eq!(slice.len(), 4);
    assert_eq!(slice.ptr().as_usize(), 3);
    assert_eq!(slice.to_range(), 3..7);
    let empty = Slice::from_range_unchecked(7..3);
    assert_eq!(empty.len(), 0);
}

#[test]
fn cell_store_scatter_gather() {
    let mut store: CellStore<u8> = CellStore::new();
    let slice = store.allocate(10, 0);
    assert_eq!(slice.len(), 10);
    let mut ranges: RangeSet<usize> = RangeSet::from(1..3);
    ranges |= &RangeSet::from(6..8);
    store.scatter(&ranges, &[1, 2, 3, 4]).unwrap();
    assert_eq!(store.gather(&ranges).unwrap(), vec![1, 2, 3, 4]);
    assert_eq!(
        store.try_get(Slice::from_range_unchecked(0..2)),
        Err(StoreError::Uninit { slice: Slice::from_range_unchecked(0..2) })
    );
    assert_eq!(store.try_get(Slice::from_range_unchecked(6..8)).unwrap(), vec![3, 4]);
    assert!(store
        .try_set(Slice::from_range_unchecked(9..12), &[1, 2, 3])
        .is_err());
}

#[test]
fn pointers_are_ordered_by_address() {
    let ptr = |a: usize| Slice::from_range_unchecked(a..a + 1).ptr();
    assert!(ptr(1) < ptr(2));
    assert!(ptr(3) > ptr(2));
    assert_eq!(ptr(4).cmp(&ptr(4)), std::cmp::Ordering::Equal);
}

#[test]
fn pairs_are_stored_first_then_second() {
    let raw = <(u8, u16) as ClearValue<Binary>>::into_clear((0x05u8, 0x0102u16));
    assert_eq!(raw.len(), 24);
    assert_eq!(&raw[..8], &[true, false, true, false, false, false, false, false]);
    assert_eq!(raw[8 + 1], true);
    assert_eq!(raw[8 + 8], true);
    assert_eq!(raw.iter().filter(|b| **b).count(), 4);
    let back = <(u8, u16) as ClearValue<Binary>>::from_clear(raw);
    assert_eq!(back, (0x05u8, 0x0102u16));
}

#[test]
fn pointers_are_made_from_addresses() {
    let p = mpz::memory::Ptr::new(7);
    assert_eq!(p.as_usize(), 7);
    assert!(mpz::memory::Ptr::new(3) < p);
}
