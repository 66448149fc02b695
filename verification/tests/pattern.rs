use game_of_life::pattern::{
    bent_glider, decode, encode, rotate, straight_glider, PatternLibrary, PATTERN_LIMIT,
};

fn shape_from_rows(rows: [&str; 5]) -> [bool; 25] {
    let mut shape: [bool; 25] = [false; 25];
    for (y, row) in rows.iter().enumerate() {
        for (x, c) in row.chars().enumerate() {
            shape[y * 5 + x] = c == '1';
        }
    }
    shape
}

#[test]
fn straight_glider_has_its_cells() {
    assert_eq!(
        straight_glider(),
        shape_from_rows(["00000", "00100", "00010", "01110", "00000"])
    );
}

#[test]
fn bent_glider_has_its_cells() {
    assert_eq!(
        bent_glider(),
        shape_from_rows(["00000", "01000", "00110", "01100", "00000"])
    );
}

#[test]
fn encode_packs_row_major_most_significant_first() {
    assert_eq!(encode(&[false; 25]), 0);
    assert_eq!(encode(&[true; 25]), 0x1ff_ffff);
    let mut first: [bool; 25] = [false; 25];
    first[0] = true;
    assert_eq!(encode(&first), 1 << 24);
    let mut last: [bool; 25] = [false; 25];
    last[24] = true;
    assert_eq!(encode(&last), 1);
    let mut second_row: [bool; 25] = [false; 25];
    second_row[5] = true;
    assert_eq!(encode(&second_row), 1 << 19);
}

#[test]
fn encode_of_the_gliders() {
    assert_eq!(encode(&straight_glider()), 0b00000_00100_00010_01110_00000);
    assert_eq!(encode(&straight_glider()), 0x209c0);
    assert_eq!(encode(&bent_glider()), 0b00000_01000_00110_01100_00000);
    assert_eq!(encode(&bent_glider()), 0x41980);
}

#[test]
fn encode_stays_below_the_limit() {
    assert_eq!(PATTERN_LIMIT, 1 << 25);
    assert!(encode(&[true; 25]) < PATTERN_LIMIT);
}

#[test]
fn decode_reads_the_digits() {
    assert_eq!(decode(0), [false; 25]);
    assert_eq!(decode(0x1ff_ffff), [true; 25]);
    assert_eq!(decode(0x209c0), straight_glider());
    assert_eq!(decode(0x41980), bent_glider());
    let mut first: [bool; 25] = [false; 25];
    first[0] = true;
    assert_eq!(decode(1 << 24), first);
}

#[test]
fn decode_ignores_the_digits_above_the_pattern() {
    assert_eq!(decode(0x209c0 | (1 << 25)), straight_glider());
    assert_eq!(decode(u32::MAX), [true; 25]);
}

#[test]
fn decode_undoes_encode() {
    let shapes: [[bool; 25]; 4] = [
        straight_glider(),
        bent_glider(),
        shape_from_rows(["10101", "01010", "11100", "00011", "10001"]),
        shape_from_rows(["11111", "00000", "00001", "10000", "01110"]),
    ];
    for shape in shapes.iter() {
        assert_eq!(&decode(encode(shape)), shape);
    }
}

#[test]
fn encode_undoes_decode() {
    for pattern in [0u32, 1, 2, 0x209c0, 0x41980, 0x1ff_ffff, 0x155_5555, 0xaa_aaaa] {
        assert_eq!(encode(&decode(pattern)), pattern);
    }
}

#[test]
fn rotate_turns_a_quarter() {
    // The cell at column x, row y comes from column 4 - y, row x.
    let shape: [bool; 25] = shape_from_rows(["11000", "00000", "00000", "00000", "00000"]);
    assert_eq!(
        rotate(&shape),
        shape_from_rows(["00000", "00000", "00000", "10000", "10000"])
    );
    assert_eq!(
        rotate(&straight_glider()),
        shape_from_rows(["00000", "00110", "01010", "00010", "00000"])
    );
}

#[test]
fn rotate_four_times_is_the_identity() {
    let shape: [bool; 25] = shape_from_rows(["10101", "01010", "11100", "00011", "10001"]);
    let once: [bool; 25] = rotate(&shape);
    assert_ne!(once, shape);
    let twice: [bool; 25] = rotate(&once);
    let thrice: [bool; 25] = rotate(&twice);
    assert_eq!(rotate(&thrice), shape);
}

#[test]
fn library_of_the_gliders_holds_eight_patterns() {
    let library: PatternLibrary = PatternLibrary::gliders();
    for pattern in [
        0x209c0u32, 0x32840, 0x72080, 0x42980, 0x41980, 0x21940, 0x33040, 0x53080,
    ] {
        assert!(library.contains(pattern), "{:#x}", pattern);
    }
    assert!(!library.contains(0));
    assert!(!library.contains(0x1ff_ffff));
    assert!(!library.contains(0x209c1));
    // The boat is a still life, not a glider.
    assert!(!library.contains(0b00000_00010_00101_00110_00000));
}

#[test]
fn library_holds_every_rotation_of_its_seeds() {
    let first: [bool; 25] = shape_from_rows(["10000", "00000", "00000", "00000", "00000"]);
    let second: [bool; 25] = shape_from_rows(["01000", "00000", "00000", "00000", "00000"]);
    let library: PatternLibrary = PatternLibrary::from_seeds(&first, &second);
    let mut shape: [bool; 25] = first;
    for _ in 0..4 {
        assert!(library.contains(encode(&shape)));
        shape = rotate(&shape);
    }
    shape = second;
    for _ in 0..4 {
        assert!(library.contains(encode(&shape)));
        shape = rotate(&shape);
    }
    assert!(!library.contains(encode(&shape_from_rows([
        "00100", "00000", "00000", "00000", "00000"
    ]))));
}

#[test]
fn library_of_a_symmetric_seed() {
    let dot: [bool; 25] = shape_from_rows(["00000", "00000", "00100", "00000", "00000"]);
    let library: PatternLibrary = PatternLibrary::from_seeds(&dot, &dot);
    assert!(library.contains(1 << 12));
    assert!(!library.contains(1 << 11));
    assert!(!library.contains(0));
}
