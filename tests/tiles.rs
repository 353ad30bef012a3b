use platformer::tiles::Tiles;

#[test]
fn test_bits() {
    let num = 0_u32;
    let bit = 3_u32;
    let shifter = 1_u32 << bit;
    let shifted = num ^ shifter;
    assert_eq!(shifted, 8_u32);
    let shifter = 1_u32 << bit;
    println!("{shifter:b}");
    let shifted = shifted & shifter;
    println!("{shifted:b}");
    let shifted = shifted >> bit;
    println!("{shifted:b}");
    assert_eq!(shifted, 1_u32);
}

#[test]
fn world_is_clear_with_rounded_up_words() {
    let t = Tiles::world(5, 7);
    assert_eq!(t.solid.len(), 2);
    assert_eq!(Tiles::world(4, 8).solid.len(), 1);
    assert_eq!(Tiles::world(0, 8).solid.len(), 0);
    for x in 0..5 {
        for y in 0..7 {
            assert!(!t.get_solid(x, y));
        }
    }
}

#[test]
fn set_then_get() {
    let mut t = Tiles::world(5, 7);
    for x in 0..5 {
        for y in 0..7 {
            t.set_solid(x, y, true);
            assert!(t.get_solid(x, y));
            t.set_solid(x, y, true);
            assert!(t.get_solid(x, y));
            t.set_solid(x, y, false);
            assert!(!t.get_solid(x, y));
        }
    }
}

#[test]
fn packed_layout() {
    let mut t = Tiles::world(5, 7);
    // (4, 6) is flat index 34: word 1, bit 2
    t.set_solid(4, 6, true);
    assert_eq!(t.solid, vec![0, 4]);
    // (1, 3) is flat index 10: word 0, bit 10
    t.set_solid(1, 3, true);
    assert_eq!(t.solid, vec![1 << 10, 4]);
    t.set_solid(4, 6, false);
    assert_eq!(t.solid, vec![1 << 10, 0]);
}

#[test]
fn index_schemes_agree() {
    let mut t = Tiles::world(6, 9);
    t.set_solid(2, 5, true);
    t.set_solid_i(50, true);
    for x in 0..6 {
        for y in 0..9 {
            assert_eq!(t.get_solid_i(x * 9 + y), t.get_solid(x, y));
        }
    }
    assert!(t.get_solid(5, 5));
    assert!(t.get_solid_i(2 * 9 + 5));
}

#[test]
fn out_of_range_is_ignored() {
    let mut t = Tiles::world(3, 3);
    t.set_solid(1, 1, true);
    let before = t.solid.clone();
    t.set_solid(3, 0, true);
    t.set_solid(0, 3, true);
    t.set_solid(100, 100, false);
    t.set_solid_i(9, true);
    assert_eq!(t.solid, before);
    assert!(!t.get_solid(3, 0));
    assert!(!t.get_solid(0, 3));
    assert!(!t.get_solid_i(9));
    assert!(!t.get_solid_i(1000));
}

#[test]
fn other_bits_of_a_word_are_kept() {
    let mut t = Tiles::world(4, 8);
    for i in 0..32 {
        if i % 3 == 0 {
            t.set_solid_i(i, true);
        }
    }
    t.set_solid_i(7, true);
    t.set_solid_i(9, false);
    for i in 0..32 {
        assert_eq!(t.get_solid_i(i), i % 3 == 0 && i != 9 || i == 7);
    }
}
