use librlox::immix::linemap::LineMap;

#[test]
fn used_unused() {
    let mut map = LineMap::new(128);
    assert!(!map.entire_block_used());

    map.set_used(10);
    assert!(map.is_used(10));

    map.set_unused(10);
    assert!(!map.is_used(10));
}

#[test]
fn next_unused() {
    let mut map = LineMap::new(128);
    for i in (0..128).step_by(10) {
        map.set_used(i);
    }

    let next_unused_line = map.find_next_unused(0);
    assert_eq!(next_unused_line, 1);

    map.set_used(127);
    map.set_used(126);
    let next_unused_line = map.find_next_unused(126);
    assert_eq!(next_unused_line, 128);
}

#[test]
fn next_used() {
    let mut map = LineMap::new(128);
    for i in (0..128).step_by(10) {
        map.set_used(i);
    }

    let next_used_line = map.find_next_used(1);
    assert_eq!(next_used_line, 10);

    let next_used_line = map.find_next_used(11);
    assert_eq!(next_used_line, 20);

    let next_used_line = map.find_next_used(125);
    assert_eq!(next_used_line, 128);
}

#[test]
fn entire_block_unused() {
    let mut map = LineMap::new(10);
    map.set_range_used(0, 10);
    assert!(!map.entire_block_unused());

    map.set_range_unused(0, 3);
    assert!(!map.entire_block_unused());

    map.set_range_unused(3, 10);
    assert!(map.entire_block_unused());
}

#[test]
fn entire_block_used() {
    let mut map = LineMap::new(10);
    map.set_range_used(0, 10);
    assert!(map.entire_block_used());

    map.set_range_unused(0, 3);
    assert!(!map.entire_block_used());
}

#[test]
fn hole_discovery() {
    let mut map = LineMap::new(128);
    for i in (0..128).step_by(10) {
        map.set_used(i);
    }
    assert_eq!(map.find_next_unused(0), 1);
    assert_eq!(map.find_next_used(1), 10);

    map.set_used(126);
    map.set_used(127);
    assert_eq!(map.find_next_unused(126), 128);
}

#[test]
fn a_new_map_has_no_used_line() {
    let map = LineMap::new(70);
    assert_eq!(map.len(), 70);
    assert!(map.entire_block_unused());
    assert!(!map.entire_block_used());
    for line in 0..70 {
        assert!(!map.is_used(line));
    }
    assert_eq!(map.find_next_used(0), 70);
    assert_eq!(map.find_next_unused(0), 0);
    assert_eq!(map.find_next_unused(69), 69);
}

#[test]
fn a_map_without_lines_is_both_used_and_unused() {
    let map = LineMap::new(0);
    assert_eq!(map.len(), 0);
    assert!(map.entire_block_unused());
    assert!(map.entire_block_used());
    assert_eq!(map.find_next_used(0), 0);
    assert_eq!(map.find_next_unused(0), 0);
    assert_eq!(map.print(), "");
}

#[test]
fn a_search_finds_the_line_it_starts_at() {
    let mut map = LineMap::new(8);
    map.set_used(3);
    assert_eq!(map.find_next_used(3), 3);
    assert_eq!(map.find_next_unused(3), 4);
    assert_eq!(map.find_next_unused(4), 4);
    assert_eq!(map.find_next_used(4), 8);
}

#[test]
fn a_search_from_the_end_on_finds_nothing() {
    let mut map = LineMap::new(8);
    map.set_used(7);
    assert_eq!(map.find_next_used(8), 8);
    assert_eq!(map.find_next_unused(8), 8);
    assert_eq!(map.find_next_used(20), 8);
    assert_eq!(map.find_next_unused(20), 8);
    assert_eq!(map.find_next_unused(7), 8);
}

#[test]
fn a_range_is_marked_up_to_its_end() {
    let mut map = LineMap::new(8);
    map.set_range_used(2, 5);
    assert_eq!(map.print(), "00111000");
    map.set_range_used(5, 5);
    assert_eq!(map.print(), "00111000");
    map.set_range_unused(3, 4);
    assert_eq!(map.print(), "00101000");
    map.set_range_used(5, 8);
    assert_eq!(map.print(), "00101111");
    map.set_range_unused(2, 3);
    map.set_range_unused(4, 8);
    assert!(map.entire_block_unused());
}

#[test]
fn single_lines_are_set_whatever_they_were() {
    let mut map = LineMap::new(3);
    map.set_used(1);
    map.set_used(1);
    assert_eq!(map.print(), "010");
    map.set_unused(0);
    map.set_unused(1);
    assert_eq!(map.print(), "000");
}

#[test]
fn print_shows_one_digit_per_line() {
    let mut map = LineMap::new(40);
    map.set_used(0);
    map.set_used(33);
    map.set_used(39);
    assert_eq!(map.print(), "1000000000000000000000000000000001000001");
    assert_eq!(map.print().len(), map.len());
}

#[test]
fn a_full_map_is_used() {
    let mut map = LineMap::new(33);
    map.set_range_used(0, 33);
    assert!(map.entire_block_used());
    assert!(!map.entire_block_unused());
    assert_eq!(map.find_next_unused(0), 33);
    map.set_unused(32);
    assert!(!map.entire_block_used());
    assert_eq!(map.find_next_unused(0), 32);
}
