use snake_core::pos::{Position, MAP_SIZE};

#[test]
fn from_hash_as_hash_roundtrip() {
    for h in 0..MAP_SIZE {
        let p = Position::from_hash(h);
        assert!(p.x >= 0 && (p.x as usize) < 16);
        assert!(p.y >= 0 && (p.y as usize) < 16);
        assert_eq!(p.as_hash(), h);
    }
}

#[test]
fn from_hash_coordinates() {
    let p = Position::from_hash(137);
    assert_eq!(p.x, 9);
    assert_eq!(p.y, 8);
    let q = Position::from_hash(0);
    assert_eq!(q.x, 0);
    assert_eq!(q.y, 0);
    let r = Position::from_hash(255);
    assert_eq!(r.x, 15);
    assert_eq!(r.y, 15);
}

#[test]
fn as_hash_row_major() {
    let p = Position { x: 13, y: 8 };
    assert_eq!(p.as_hash(), 8 * 16 + 13);
}
