use layered_store::MemError;
use layered_store::Memory;

#[test]
fn test_mem() {
    let mut mem = Memory::new(1 << 6); // 64 bits
    mem.set(0x00, 0x0F);
    assert_eq!(mem.get(0x00), 0x0F);

    mem.set(0x10, 0xDE);
    assert_eq!(mem.get(0x10), 0xDE);

    mem.set(0x20, 0xAD);
    assert_eq!(mem.get(0x20), 0xAD);
}

#[test]
fn write_then_read_shadows_backing() {
    // The write wins regardless of what the backing store holds at the index.
    let mut back = Memory::new(16);
    back.set(3, 0x11);
    let mut top = Memory::new_with_backing(16, back);
    top.set(3, 0x77);
    assert_eq!(top.get(3), 0x77);
}

#[test]
fn fallback_fill_primes_the_top_store() {
    let mut back = Memory::new(16);
    back.set(5, 0xAB);
    let mut top = Memory::new_with_backing(16, back);
    assert!(!top.present(5));
    assert_eq!(top.get(5), 0xAB);
    // The miss became a permanent local hit: the slot is now present with
    // the resolved value, and a second read returns it again.
    assert!(top.present(5));
    assert_eq!(top.peek(5), 0xAB);
    assert_eq!(top.get(5), 0xAB);
}

#[test]
fn shadowing_write_does_not_propagate_down() {
    let mut back = Memory::new(16);
    back.set(5, 0xAB);
    let mut top = Memory::new_with_backing(16, back);
    assert_eq!(top.get(5), 0xAB); // fallback fill with v1
    top.set(5, 0xCD); // shadowing write of v2
    assert_eq!(top.get(5), 0xCD);
    // The backing store still holds v1 at the index.
    assert_eq!(top.backing().unwrap().peek(5), 0xAB);
}

#[test]
fn out_of_bounds_is_reported_and_mutates_nothing() {
    let mut mem = Memory::new(8);
    mem.set(2, 0x42);
    assert_eq!(mem.try_get(8), Err(MemError::IndexOutOfBounds));
    assert_eq!(mem.try_set(8, 0x99), Err(MemError::IndexOutOfBounds));
    assert_eq!(mem.try_get(usize::MAX), Err(MemError::IndexOutOfBounds));
    for i in 0..8 {
        if i == 2 {
            assert!(mem.present(i));
            assert_eq!(mem.peek(i), 0x42);
        } else {
            assert!(!mem.present(i));
            assert_eq!(mem.peek(i), 0x00);
        }
    }
}

#[test]
fn missing_backing_is_reported_and_mutates_nothing() {
    let mut mem = Memory::new(8);
    assert_eq!(mem.try_get(3), Err(MemError::MissingBackingStore));
    assert!(!mem.present(3));
    assert_eq!(mem.peek(3), 0x00);
}

#[test]
fn missing_backing_deep_in_the_chain() {
    // The condition raised by the deepest level propagates unchanged and
    // leaves every level unfilled.
    let back = Memory::new(8);
    let mut top = Memory::new_with_backing(8, back);
    assert_eq!(mem_err(&mut top, 1), MemError::MissingBackingStore);
    assert!(!top.present(1));
    assert!(!top.backing().unwrap().present(1));
}

fn mem_err(mem: &mut Memory, index: usize) -> MemError {
    mem.try_get(index).unwrap_err()
}

#[test]
fn try_set_then_try_get_round_trip() {
    let mut mem = Memory::new(8);
    assert_eq!(mem.try_set(7, 0xF0), Ok(()));
    assert_eq!(mem.try_get(7), Ok(0xF0));
}

#[test]
fn len_reports_the_fixed_size() {
    let mem = Memory::new(64);
    assert_eq!(mem.len(), 64);
    let top = Memory::new_with_backing(64, mem);
    assert_eq!(top.len(), 64);
}

#[test]
fn render_small_sizes() {
    let mem = Memory::new(3);
    assert_eq!(mem.render(), "00 00 00 ");

    let mut mem = Memory::new(8);
    mem.set(1, 0xAD);
    assert_eq!(mem.render(), "00 AD 00 00 00 00 00 00 \n");

    let mut mem = Memory::new(9);
    mem.set(8, 0x0A);
    assert_eq!(mem.render(), "00 00 00 00 00 00 00 00 \n0A ");
}

#[test]
fn render_never_triggers_a_fill() {
    let mut back = Memory::new(4);
    back.set(0, 0x5C);
    let top = Memory::new_with_backing(4, back);
    // The top store's raw bytes are all still 00: rendering reads raw
    // values only and resolves nothing from the backing store.
    assert_eq!(top.render(), "00 00 00 00 ");
}

#[test]
fn scenario_store_of_64() {
    let mut mem = Memory::new(64);
    mem.set(0x00, 0x0F);
    mem.set(0x10, 0xDE);
    mem.set(0x20, 0xAD);
    assert_eq!(mem.get(0x00), 0x0F);
    assert_eq!(mem.get(0x10), 0xDE);
    assert_eq!(mem.get(0x20), 0xAD);

    let zeros = "00 00 00 00 00 00 00 00 \n";
    let expected = format!(
        "{}{}{}{}{}{}{}{}",
        "0F 00 00 00 00 00 00 00 \n",
        zeros,
        "DE 00 00 00 00 00 00 00 \n",
        zeros,
        "AD 00 00 00 00 00 00 00 \n",
        zeros,
        zeros,
        zeros,
    );
    assert_eq!(mem.render(), expected);
}
