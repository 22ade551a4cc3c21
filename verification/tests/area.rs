use databend_query::area::Area;
use databend_query::area::Layout;

#[test]
fn pieces_are_aligned_and_apart() {
    let mut area = Area::new();
    let mut pieces: Vec<(usize, usize)> = Vec::new();
    for (size, align) in [(1, 1), (24, 8), (0, 64), (3, 2), (5000, 4096), (16, 16), (1, 1)] {
        let layout = Layout::from_size_align(size, align).unwrap();
        let address = area.alloc_layout(layout);
        assert!(address > 0);
        assert_eq!(address % align, 0);
        for (other, other_size) in &pieces {
            assert!(other + other_size <= address || address + size <= *other);
        }
        pieces.push((address, size));
    }
}

#[test]
fn an_alignment_is_a_power_of_two() {
    assert!(Layout::from_size_align(8, 1).is_some());
    assert!(Layout::from_size_align(8, 64).is_some());
    assert!(Layout::from_size_align(8, 0).is_none());
    assert!(Layout::from_size_align(8, 3).is_none());
    assert!(Layout::from_size_align(8, 48).is_none());
}

#[test]
fn a_size_fits_when_rounded_up() {
    let max = isize::MAX as usize;
    assert!(Layout::from_size_align(max, 1).is_some());
    assert!(Layout::from_size_align(max, 2).is_none());
    assert!(Layout::from_size_align(max - 1, 2).is_some());
    assert!(Layout::from_size_align(max + 1, 1).is_none());
    assert!(Layout::from_size_align(0, max + 1).is_some());
    assert!(Layout::from_size_align(1, max + 1).is_none());
}

#[test]
fn an_area_can_be_sent_to_another_thread() {
    fn send<T: Send>(value: T) -> T {
        value
    }
    let mut area = send(Area::new());
    assert!(area.alloc_layout(Layout::from_size_align(1, 1).unwrap()) > 0);
}
