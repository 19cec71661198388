use irq_share::critical::Interrupts;
use irq_share::gated::GatedCell;
use irq_share::once::{AlreadySet, OnceCell};

#[test]
fn once_cell_second_set_fails_and_keeps_first() {
    let mut irq = Interrupts::new();
    let cs = irq.enter();
    let mut cell = OnceCell::new();
    assert_eq!(cell.get(), None);
    assert_eq!(cell.set(&cs, 7u16), Ok(()));
    assert_eq!(cell.set(&cs, 9u16), Err(AlreadySet));
    assert_eq!(cell.get(), Some(&7u16));
    irq.leave(cs);
}

#[test]
fn gated_cell_starts_empty_and_is_filled_once() {
    let mut irq = Interrupts::new();
    let cs = irq.enter();
    let mut cell: GatedCell<u32> = GatedCell::new();
    assert!(!cell.is_set(&cs));
    assert_eq!(cell.replace(&cs, 5), None);
    assert!(cell.is_set(&cs));
    *cell.get_mut(&cs) += 1;
    assert_eq!(*cell.borrow_mut(&cs), Some(6));
    assert_eq!(cell.replace(&cs, 1), Some(6));
    irq.leave(cs);
}
