use podzemka::audio::{
    sfx_index, MusicPlayer, SFXType, SFX_COUNT, PlayerMode, PlayerState, TrackChange, TrackStop, GAME_VOLUME, MENU_VOLUME,
    METRO_SFX_MAX_DELAY, METRO_SFX_MIN_DELAY, MUSIC_TRACK_COUNT, NEXT_TRACK, PREVIOUS_TRACK,
    SFX_METRO_COUNT,
};
use podzemka::player::{
    arrows_shown, mini_button_track, page_after_redraw, page_of, page_slots, picked_slot,
    press_player_button, track_for_slot, turn_page, PlayerEffect, PlayerLabel, RedrawType,
    TrackPages,
    TRACKS_PER_PAGE,
};

fn player_with(order: Vec<usize>, current: usize, mode: PlayerMode) -> MusicPlayer {
    let mut p = MusicPlayer::new(MUSIC_TRACK_COUNT);
    p.order = order;
    p.current_composition = current;
    p.player_mode = mode;
    p
}

fn is_permutation(order: &[usize]) -> bool {
    let mut sorted = order.to_vec();
    sorted.sort();
    sorted == (0..order.len()).collect::<Vec<usize>>()
}

#[test]
fn new_player_plays_in_order() {
    let p = MusicPlayer::new(MUSIC_TRACK_COUNT);
    assert!(p.current_state == PlayerState::Playing);
    assert!(p.player_mode == PlayerMode::Straight);
    assert_eq!(p.current_composition, 0);
    assert_eq!(p.order, vec![0, 1, 2, 3, 4, 5, 6, 7]);
    assert!(!p.sfx_playing);
}

#[test]
fn straight_order_is_restored() {
    let mut p = player_with(vec![3, 1, 2, 0, 7, 6, 5, 4], 2, PlayerMode::Straight);
    p.change_order();
    assert_eq!(p.order, vec![0, 1, 2, 3, 4, 5, 6, 7]);
    assert_eq!(p.current_composition, 2);
}

#[test]
fn single_repeat_keeps_order() {
    let mut p = player_with(vec![3, 1, 2, 0, 7, 6, 5, 4], 2, PlayerMode::SingleRepeat);
    p.change_order();
    assert_eq!(p.order, vec![3, 1, 2, 0, 7, 6, 5, 4]);
}

#[test]
fn shuffle_keeps_current_and_sides() {
    for _ in 0..30 {
        let mut p = player_with(vec![0, 1, 2, 3, 4, 5, 6, 7], 3, PlayerMode::Shuffle);
        p.change_order();
        assert_eq!(p.order[3], 3);
        assert!(is_permutation(&p.order));
        let mut before: Vec<usize> = p.order[..3].to_vec();
        before.sort();
        assert_eq!(before, vec![0, 1, 2]);
        let mut after: Vec<usize> = p.order[4..].to_vec();
        after.sort();
        assert_eq!(after, vec![4, 5, 6, 7]);
    }
}

#[test]
fn explicit_track_cuts_in() {
    let mut p = player_with(vec![7, 6, 5, 4, 3, 2, 1, 0], 0, PlayerMode::Straight);
    let c = p.change_track(Some(2), true);
    assert!(c == TrackChange { stop: TrackStop::Cut, play: 5, volume_percent: GAME_VOLUME });
    assert_eq!(p.current_composition, 2);
}

#[test]
fn previous_and_next_wrap_round() {
    let mut p = player_with(vec![0, 1, 2, 3, 4, 5, 6, 7], 0, PlayerMode::Straight);
    let c = p.change_track(Some(PREVIOUS_TRACK), true);
    assert_eq!(p.current_composition, 7);
    assert_eq!(c.play, 7);
    assert!(c.stop == TrackStop::Cut);
    let c = p.change_track(Some(NEXT_TRACK), true);
    assert_eq!(p.current_composition, 0);
    assert_eq!(c.play, 0);
}

#[test]
fn previous_then_next_comes_back() {
    let orders = vec![vec![0, 1, 2, 3, 4, 5, 6, 7], vec![4, 0, 6, 2, 7, 1, 3, 5]];
    for order in orders {
        for current in 0..MUSIC_TRACK_COUNT {
            let mut p = player_with(order.clone(), current, PlayerMode::Shuffle);
            p.change_track(Some(PREVIOUS_TRACK), true);
            p.change_track(Some(NEXT_TRACK), true);
            assert_eq!(p.current_composition, current);
            p.change_track(Some(NEXT_TRACK), true);
            p.change_track(Some(PREVIOUS_TRACK), true);
            assert_eq!(p.current_composition, current);
        }
    }
}

#[test]
fn next_looks_up_current_number_in_order() {
    let mut p = player_with(vec![4, 0, 6, 2, 7, 1, 3, 5], 6, PlayerMode::Shuffle);
    let c = p.change_track(Some(NEXT_TRACK), true);
    assert_eq!(p.current_composition, 2);
    assert_eq!(c.play, 6);
}

#[test]
fn ended_track_advances_in_game() {
    let mut p = player_with(vec![0, 1, 2, 3, 4, 5, 6, 7], 7, PlayerMode::Straight);
    p.current_state = PlayerState::Ended;
    let c = p.change_track(None, true);
    assert_eq!(p.current_composition, 0);
    assert!(p.current_state == PlayerState::Playing);
    assert!(c == TrackChange { stop: TrackStop::FadeOut, play: 0, volume_percent: GAME_VOLUME });
    let mut r = player_with(vec![0, 1, 2, 3, 4, 5, 6, 7], 5, PlayerMode::SingleRepeat);
    let c = r.change_track(None, true);
    assert_eq!(r.current_composition, 5);
    assert_eq!(c.play, 5);
}

#[test]
fn menu_plays_first_track_quieter() {
    let mut p = player_with(vec![3, 1, 2, 0, 4, 5, 6, 7], 4, PlayerMode::Straight);
    let c = p.change_track(None, false);
    assert!(c == TrackChange { stop: TrackStop::FadeOut, play: 0, volume_percent: MENU_VOLUME });
    assert_eq!(p.current_composition, 4);
}

#[test]
fn soundtrack_end_is_noticed_once() {
    let mut p = MusicPlayer::new(MUSIC_TRACK_COUNT);
    assert!(!p.check_soundtrack(true));
    assert!(p.check_soundtrack(false));
    assert!(p.current_state == PlayerState::Ended);
    assert!(!p.check_soundtrack(false));
}

#[test]
fn metro_sfx_cycle() {
    let mut p = MusicPlayer::new(MUSIC_TRACK_COUNT);
    assert!(!p.check_metro_sfx(false));
    for _ in 0..30 {
        let (effect, delay) = p.start_metro_sfx();
        assert!(p.sfx_playing);
        assert!(effect < SFX_METRO_COUNT);
        assert!(METRO_SFX_MIN_DELAY <= delay && delay < METRO_SFX_MAX_DELAY);
    }
    assert!(!p.check_metro_sfx(true));
    assert!(p.check_metro_sfx(false));
    assert!(!p.sfx_playing);
}

#[test]
fn pages_of_track_list() {
    assert_eq!(TRACKS_PER_PAGE, 5);
    assert_eq!(page_of(0), 1);
    assert_eq!(page_of(4), 1);
    assert_eq!(page_of(5), 2);
    assert_eq!(page_after_redraw(RedrawType::Redraw, 1, 6), 2);
    assert_eq!(page_after_redraw(RedrawType::ChangePage, 1, 6), 1);
    assert_eq!(page_after_redraw(RedrawType::ChangePicked(2), 2, 0), 2);
    assert_eq!(page_slots(1), vec![Some(0), Some(1), Some(2), Some(3), Some(4)]);
    assert_eq!(page_slots(2), vec![Some(5), Some(6), Some(7), None, None]);
    assert_eq!(page_slots(3), vec![None, None, None, None, None]);
}

#[test]
fn picked_slot_follows_click_or_current() {
    assert_eq!(picked_slot(RedrawType::ChangePicked(3), 0, 1), Some(3));
    assert_eq!(picked_slot(RedrawType::Redraw, 6, 2), Some(1));
    assert_eq!(picked_slot(RedrawType::ChangePage, 6, 1), None);
}

#[test]
fn arrows_and_turning() {
    assert_eq!(arrows_shown(1), (false, true));
    assert_eq!(arrows_shown(2), (true, false));
    assert_eq!(turn_page(1, true), (2, false));
    assert_eq!(turn_page(2, false), (1, false));
    assert_eq!(turn_page(3, false), (2, true));
    assert_eq!(track_for_slot(2, 2), Some(7));
    assert_eq!(track_for_slot(3, 2), None);
    assert_eq!(track_for_slot(0, 1), Some(0));
    assert_eq!(mini_button_track(true), NEXT_TRACK);
    assert_eq!(mini_button_track(false), PREVIOUS_TRACK);
}

#[test]
fn player_buttons_cycle() {
    let mut p = MusicPlayer::new(MUSIC_TRACK_COUNT);
    let r = press_player_button(PlayerLabel::InOrder, &mut p);
    assert!(r == (PlayerLabel::Shuffled, PlayerEffect::Reorder));
    assert!(p.player_mode == PlayerMode::Shuffle);
    let r = press_player_button(PlayerLabel::Shuffled, &mut p);
    assert!(r == (PlayerLabel::Looped, PlayerEffect::Nothing));
    assert!(p.player_mode == PlayerMode::SingleRepeat);
    let r = press_player_button(PlayerLabel::Looped, &mut p);
    assert!(r == (PlayerLabel::InOrder, PlayerEffect::Reorder));
    assert!(p.player_mode == PlayerMode::Straight);
    assert!(press_player_button(PlayerLabel::Mute, &mut p) == (PlayerLabel::Unmute, PlayerEffect::SetVolume(0)));
    assert!(press_player_button(PlayerLabel::Unmute, &mut p) == (PlayerLabel::Mute, PlayerEffect::SetVolume(100)));
    assert!(press_player_button(PlayerLabel::Pause, &mut p) == (PlayerLabel::Resume, PlayerEffect::TogglePause));
    assert!(press_player_button(PlayerLabel::Resume, &mut p) == (PlayerLabel::Pause, PlayerEffect::TogglePause));
    assert!(p.player_mode == PlayerMode::Straight);
}

#[test]
fn interface_sounds() {
    assert_eq!(SFX_COUNT, 2);
    assert_eq!(sfx_index(SFXType::ClickLKMSound), 0);
    assert_eq!(sfx_index(SFXType::ErrorSound), 1);
}

#[test]
fn mode_button_cycles_in_three() {
    let mut p = MusicPlayer::new(MUSIC_TRACK_COUNT);
    let mut label = PlayerLabel::InOrder;
    for _ in 0..3 {
        label = press_player_button(label, &mut p).0;
    }
    assert!(label == PlayerLabel::InOrder);
    assert!(p.player_mode == PlayerMode::Straight);
    let mut pause = PlayerLabel::Pause;
    for _ in 0..2 {
        pause = press_player_button(pause, &mut p).0;
    }
    assert!(pause == PlayerLabel::Pause);
}

#[test]
fn track_pages_stay_usable() {
    let mut p = TrackPages::new();
    assert!(p.page == 1 && !p.left_shown && !p.right_shown);
    assert!(!p.press(true));
    assert_eq!(p.page, 1);
    p.redraw();
    assert!(!p.left_shown && p.right_shown);
    assert!(p.press(true));
    assert!(p.page == 2 && !p.right_shown);
    p.redraw();
    assert!(p.left_shown && !p.right_shown);
    assert!(!p.press(true));
    assert!(p.press(false));
    assert!(p.page == 1 && !p.left_shown);
    p.show(6);
    assert!(p.page == 2 && p.left_shown && !p.right_shown);
    p.hide_arrows();
    assert!(!p.left_shown && !p.right_shown && p.page == 2);
}

#[test]
fn ended_track_with_fewer_tracks() {
    let mut p = MusicPlayer::new(3);
    p.current_composition = 2;
    let c = p.change_track(None, true);
    assert_eq!(p.current_composition, 0);
    assert_eq!(c.play, 0);
}

#[test]
fn shuffle_swaps_with_the_drawn_partners() {
    let mut p = player_with(vec![0, 1, 2, 3, 4, 5, 6, 7], 3, PlayerMode::Shuffle);
    let draws = vec![2, 1, 2, 3, 7, 5, 7, 7];
    p.shuffle_with(&draws);
    assert_eq!(p.order, vec![2, 1, 0, 3, 7, 5, 4, 6]);
    assert_eq!(p.current_composition, 3);
    assert!(p.player_mode == PlayerMode::Shuffle);
}

#[test]
fn shuffle_with_identity_draws_keeps_order() {
    let mut p = player_with(vec![4, 0, 6, 2, 7, 1, 3, 5], 0, PlayerMode::Shuffle);
    p.shuffle_with(&vec![0, 1, 2, 3, 4, 5, 6, 7]);
    assert_eq!(p.order, vec![4, 0, 6, 2, 7, 1, 3, 5]);
    let mut q = player_with(vec![4, 0, 6, 2, 7, 1, 3, 5], 7, PlayerMode::Shuffle);
    q.shuffle_with(&vec![6, 6, 6, 6, 6, 6, 6, 7]);
    assert_eq!(q.order, vec![3, 4, 0, 6, 2, 7, 1, 5]);
}
