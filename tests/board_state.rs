use minigame::behave_tree::AnimalActorBoard;
use minigame::board_state::{apply_decay, decay_amount, udpate_board_state_system, FrameCounter};
use minigame::hex::HexMapPosition;
use minigame::partition::EntityType;

#[test]
fn decay_happens_every_tenth_frame() {
    let mut counter = FrameCounter::new();
    let mut boards = vec![AnimalActorBoard::new(HexMapPosition::new(1, 1), EntityType::Rabbit)];
    for _ in 0..9 {
        assert!(!udpate_board_state_system(&mut counter, &mut boards, 100));
        assert_eq!(boards[0].satiety, 5500);
    }
    assert_eq!(counter.counter, 9);
    assert_eq!(counter.elpased, 900);
    assert!(udpate_board_state_system(&mut counter, &mut boards, 100));
    assert_eq!(boards[0].satiety, 5500 - 110);
    assert_eq!(counter.counter, 0);
    assert_eq!(counter.elpased, 0);
}

#[test]
fn decay_rounds_down() {
    assert_eq!(decay_amount(1000, 110), 110);
    assert_eq!(decay_amount(1234, 110), 135);
    assert_eq!(decay_amount(9, 110), 0);
    assert_eq!(decay_amount(0, 110), 0);
}

#[test]
fn decay_stops_at_the_lowest_satiety() {
    let mut board = AnimalActorBoard::new(HexMapPosition::new(1, 1), EntityType::Rabbit);
    board.satiety = i32::MIN + 5;
    apply_decay(&mut board, 1000);
    assert_eq!(board.satiety, i32::MIN);
    let mut board = AnimalActorBoard::new(HexMapPosition::new(1, 1), EntityType::Rabbit);
    board.decay_faction = u32::MAX;
    apply_decay(&mut board, u64::MAX);
    assert_eq!(board.satiety, i32::MIN);
}

#[test]
fn any_frame_count_is_accepted() {
    let mut counter = FrameCounter { counter: 25, elpased: 40 };
    let mut boards = vec![AnimalActorBoard::new(HexMapPosition::new(1, 1), EntityType::Rabbit)];
    assert!(!udpate_board_state_system(&mut counter, &mut boards, 60));
    assert_eq!((counter.counter, counter.elpased), (26, 100));
    let mut counter = FrameCounter { counter: 29, elpased: 900 };
    assert!(udpate_board_state_system(&mut counter, &mut boards, 100));
    assert_eq!(boards[0].satiety, 5500 - 110);
    assert_eq!((counter.counter, counter.elpased), (0, 0));
    let mut counter = FrameCounter { counter: u32::MAX, elpased: 0 };
    assert!(udpate_board_state_system(&mut counter, &mut boards, 0));
}
