use wt::create::{dest_path, hex_id, random_id};

#[test]
fn hex_is_two_lowercase_digits_per_byte() {
    assert_eq!(hex_id(&vec![0x00, 0xab, 0x3f]), "00ab3f");
    assert_eq!(hex_id(&vec![]), "");
}

#[test]
fn random_ids_are_six_hex_digits_and_vary() {
    let a = random_id().unwrap();
    let b = random_id().unwrap();
    let c = random_id().unwrap();
    for id in [&a, &b, &c] {
        assert_eq!(id.len(), 6);
        assert!(id.chars().all(|ch| ch.is_ascii_hexdigit() && !ch.is_ascii_uppercase()));
    }
    assert!(!(a == "000000" && b == "000000" && c == "000000"));
    assert!(!(a == b && b == c));
}

#[test]
fn destination_shape() {
    assert_eq!(dest_path("/h/.wt/worktrees", "a1b2c3", "repo"), "/h/.wt/worktrees/a1b2c3/repo");
}
