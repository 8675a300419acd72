use asciiforger::chunk::calculate_chunk_shade;

#[test]
fn mean_of_a_pair() {
    let shades: Vec<u32> = vec![0, 85, 170, 255];
    assert_eq!(calculate_chunk_shade(&shades, &4, &2, &1, 0, 2, 0, 1), 42);
    assert_eq!(calculate_chunk_shade(&shades, &4, &2, &1, 2, 4, 0, 1), 212);
}

#[test]
fn mean_of_a_block() {
    let shades: Vec<u32> = vec![
        1, 2, 3, //
        4, 5, 6, //
        7, 8, 10,
    ];
    // rows 1..3, columns 1..3: 5 + 6 + 8 + 10 = 29
    assert_eq!(calculate_chunk_shade(&shades, &3, &2, &2, 1, 3, 1, 3), 7);
    // whole grid: 46 / 9
    assert_eq!(calculate_chunk_shade(&shades, &3, &3, &3, 0, 3, 0, 3), 5);
}

#[test]
fn mean_rounds_down() {
    let shades: Vec<u32> = vec![1, 2];
    assert_eq!(calculate_chunk_shade(&shades, &2, &2, &1, 0, 2, 0, 1), 1);
}

#[test]
fn divisor_is_the_nominal_size() {
    let shades: Vec<u32> = vec![10, 20, 30, 40];
    // the rectangle holds 4 pixels, the divisor is 2: 100 / 2
    assert_eq!(calculate_chunk_shade(&shades, &4, &2, &1, 0, 4, 0, 1), 50);
    // the rectangle holds 1 pixel, the divisor is 4: 40 / 4
    assert_eq!(calculate_chunk_shade(&shades, &4, &2, &2, 3, 4, 0, 1), 10);
}

#[test]
fn position_past_the_end_reads_the_last_shade() {
    let shades: Vec<u32> = vec![10, 20, 30];
    // row 1 of a grid 2 wide: positions 2 and 3; position 3 reads 30
    assert_eq!(calculate_chunk_shade(&shades, &2, &2, &1, 0, 2, 1, 2), 30);
    // far outside: every pixel reads 30
    assert_eq!(calculate_chunk_shade(&shades, &1000, &2, &2, 10, 12, 10, 12), 30);
}

#[test]
fn empty_rectangle_has_shade_zero() {
    let shades: Vec<u32> = vec![10, 20, 30];
    assert_eq!(calculate_chunk_shade(&shades, &3, &1, &1, 2, 2, 0, 1), 0);
    assert_eq!(calculate_chunk_shade(&shades, &3, &1, &1, 2, 1, 0, 1), 0);
    assert_eq!(calculate_chunk_shade(&shades, &3, &1, &1, 0, 1, 1, 0), 0);
    let none: Vec<u32> = vec![];
    assert_eq!(calculate_chunk_shade(&none, &3, &1, &1, 0, 0, 0, 5), 0);
}

#[test]
fn large_shades_do_not_overflow() {
    let shades: Vec<u32> = vec![u32::MAX; 16];
    assert_eq!(calculate_chunk_shade(&shades, &4, &4, &4, 0, 4, 0, 4), u32::MAX);
}

#[test]
fn large_coordinates_do_not_overflow() {
    let shades: Vec<u32> = vec![7];
    let top = u32::MAX;
    assert_eq!(calculate_chunk_shade(&shades, &top, &1, &1, top - 1, top, top - 1, top), 7);
}
