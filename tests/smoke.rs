use minigame::hex::HexMapPosition;

#[test]
fn it_works() {
    assert_eq!(2 + 2, 4);
}

#[test]
fn library_links() {
    let p = HexMapPosition::new(1, 1);
    assert_eq!(p.x, 1);
}
