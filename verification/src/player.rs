//! The music player's on-screen controls: pages of the track list, the
//! picked track, and the buttons that cycle through their modes.
use crate::audio::{MusicPlayer, PlayerMode, MUSIC_TRACK_COUNT, NEXT_TRACK, PREVIOUS_TRACK};
use vstd::prelude::*;

verus! {

/// How many tracks one page of the track list shows.
pub const TRACKS_PER_PAGE: usize = 5;

/// Why the track list is redrawn.
#[derive(Clone, Copy, PartialEq, Eq, Structural)]
pub enum RedrawType {
    /// The player turned a page.
    ChangePage,
    /// The list is shown afresh, at the page of the current track.
    Redraw,
    /// The player clicked the track in this slot of the page.
    ChangePicked(usize),
}

/// The page (counted from 1) that shows track position `current`.
pub fn page_of(current: usize) -> (page: usize)
    ensures
        page == current / TRACKS_PER_PAGE + 1,
{
    current / TRACKS_PER_PAGE + 1
}

/// The page after a redraw of kind `redraw` while `page` was shown.
pub fn page_after_redraw(redraw: RedrawType, page: usize, current: usize) -> (p: usize)
    ensures
        p == if redraw == RedrawType::Redraw {
            current / TRACKS_PER_PAGE + 1
        } else {
            page as int
        },
{
    if redraw == RedrawType::Redraw {
        page_of(current)
    } else {
        page
    }
}

/// The track shown in each slot of page `page`: slot `j` shows track
/// `(page - 1) * TRACKS_PER_PAGE + j`, or nothing past the last track.
pub fn page_slots(page: usize) -> (slots: Vec<Option<usize>>)
    requires
        1 <= page <= usize::MAX / TRACKS_PER_PAGE,
    ensures
        slots@.len() == TRACKS_PER_PAGE,
        forall|j: int|
            0 <= j < TRACKS_PER_PAGE ==> #[trigger] slots@[j] == {
                let t = (page - 1) * TRACKS_PER_PAGE + j;
                if t < MUSIC_TRACK_COUNT {
                    Some(t as usize)
                } else {
                    None::<usize>
                }
            },
{
    let mut slots: Vec<Option<usize>> = Vec::new();
    let first = (page - 1) * TRACKS_PER_PAGE;
    for j in 0..TRACKS_PER_PAGE
        invariant
            first == (page - 1) * TRACKS_PER_PAGE,
            page <= usize::MAX / TRACKS_PER_PAGE,
            slots@.len() == j,
            forall|i: int|
                0 <= i < j ==> #[trigger] slots@[i] == {
                    let t = (page - 1) * TRACKS_PER_PAGE + i;
                    if t < MUSIC_TRACK_COUNT {
                        Some(t as usize)
                    } else {
                        None::<usize>
                    }
                },
    {
        let t = first + j;
        if t < MUSIC_TRACK_COUNT {
            slots.push(Some(t));
        } else {
            slots.push(None);
        }
    }
    slots
}

/// The slot of page `page` that is highlighted: the clicked one, or else
/// the slot of the current track when it is on that page.
pub fn picked_slot(redraw: RedrawType, current: usize, page: usize) -> (slot: Option<usize>)
    requires
        page >= 1,
    ensures
        slot == match redraw {
            RedrawType::ChangePicked(v) => Some(v),
            _ => if current / TRACKS_PER_PAGE == page - 1 {
                Some(current % TRACKS_PER_PAGE)
            } else {
                None::<usize>
            },
        },
{
    match redraw {
        RedrawType::ChangePicked(v) => Some(v),
        _ => if current / TRACKS_PER_PAGE == page - 1 {
            Some(current % TRACKS_PER_PAGE)
        } else {
            None
        },
    }
}

/// Whether the arrow to the previous page, and the one to the next page,
/// are to be shown on page `page`.
pub fn arrows_shown(page: usize) -> (r: (bool, bool))
    ensures
        r.0 == (page > 1),
        r.1 == (page * TRACKS_PER_PAGE < MUSIC_TRACK_COUNT),
{
    (page > 1, page <= MUSIC_TRACK_COUNT / TRACKS_PER_PAGE && page * TRACKS_PER_PAGE < MUSIC_TRACK_COUNT)
}

/// Turning to the previous (`forward` false) or next page from `page`:
/// the new page, and whether the pressed arrow stays shown.
pub fn turn_page(page: usize, forward: bool) -> (r: (usize, bool))
    requires
        forward ==> page < usize::MAX / TRACKS_PER_PAGE,
        !forward ==> page >= 1,
    ensures
        forward ==> r.0 == page + 1 && r.1 == !((page + 1) * TRACKS_PER_PAGE >= MUSIC_TRACK_COUNT),
        !forward ==> r.0 == page - 1 && r.1 == !(page - 1 <= 1),
{
    if forward {
        let p = page + 1;
        (p, !(p * TRACKS_PER_PAGE >= MUSIC_TRACK_COUNT))
    } else {
        let p = page - 1;
        (p, !(p <= 1))
    }
}

/// The track that clicking slot `slot` of page `page` asks for, if the
/// slot shows one.
pub fn track_for_slot(slot: usize, page: usize) -> (t: Option<usize>)
    requires
        page >= 1,
    ensures
        t == if slot + (page - 1) * TRACKS_PER_PAGE >= MUSIC_TRACK_COUNT {
            None::<usize>
        } else {
            Some((slot + (page - 1) * TRACKS_PER_PAGE) as usize)
        },
{
    if slot >= MUSIC_TRACK_COUNT || page - 1 >= MUSIC_TRACK_COUNT {
        return None;
    }
    let t = slot + (page - 1) * TRACKS_PER_PAGE;
    if t >= MUSIC_TRACK_COUNT {
        None
    } else {
        Some(t)
    }
}

/// The small player's arrows: the left one asks for the previous track,
/// the right one for the next.
pub fn mini_button_track(right: bool) -> (t: usize)
    ensures
        t == if right {
            NEXT_TRACK
        } else {
            PREVIOUS_TRACK
        },
{
    if right {
        NEXT_TRACK
    } else {
        PREVIOUS_TRACK
    }
}

/// Which page of the track list is shown and which of its two arrows
/// (to the previous and to the next page) are visible.
pub struct TrackPages {
    pub page: usize,
    pub left_shown: bool,
    pub right_shown: bool,
}

impl TrackPages {
    /// The page is one that shows a track, and an arrow is visible only
    /// where it leads to such a page.
    pub open spec fn usable(&self) -> bool {
        &&& 1 <= self.page
        &&& (self.page - 1) * TRACKS_PER_PAGE < MUSIC_TRACK_COUNT
        &&& self.left_shown ==> self.page > 1
        &&& self.right_shown ==> self.page * TRACKS_PER_PAGE < MUSIC_TRACK_COUNT
    }

    /// The first page, with both arrows hidden.
    pub fn new() -> (p: Self)
        ensures
            p.page == 1,
            !p.left_shown,
            !p.right_shown,
            p.usable(),
    {
        TrackPages { page: 1, left_shown: false, right_shown: false }
    }

    /// Shows the arrows that lead somewhere from the current page; arrows
    /// already visible stay visible.
    pub fn redraw(&mut self)
        ensures
            final(self).page == old(self).page,
            final(self).left_shown == (old(self).left_shown || old(self).page > 1),
            final(self).right_shown == (old(self).right_shown || old(self).page * TRACKS_PER_PAGE
                < MUSIC_TRACK_COUNT),
            old(self).usable() ==> final(self).usable(),
    {
        let (left, right) = arrows_shown(self.page);
        self.left_shown = self.left_shown || left;
        self.right_shown = self.right_shown || right;
    }

    /// Hides both arrows.
    pub fn hide_arrows(&mut self)
        ensures
            final(self).page == old(self).page,
            !final(self).left_shown,
            !final(self).right_shown,
            old(self).usable() ==> final(self).usable(),
    {
        self.left_shown = false;
        self.right_shown = false;
    }

    /// The player is shown again: both arrows are hidden, the list goes to
    /// the page of track position `current`, and the arrows that lead
    /// somewhere from there show.
    pub fn show(&mut self, current: usize)
        requires
            current < MUSIC_TRACK_COUNT,
        ensures
            final(self).page == current / TRACKS_PER_PAGE + 1,
            final(self).left_shown == (final(self).page > 1),
            final(self).right_shown == (final(self).page * TRACKS_PER_PAGE < MUSIC_TRACK_COUNT),
            final(self).usable(),
    {
        self.hide_arrows();
        self.page = page_of(current);
        self.redraw();
    }

    /// A click on the arrow to the next (`forward`) or previous page: a
    /// hidden arrow does nothing; a visible one turns the page and hides
    /// itself when it would lead nowhere from the new page. Returns whether
    /// the page turned.
    pub fn press(&mut self, forward: bool) -> (turned: bool)
        requires
            old(self).usable(),
        ensures
            turned == (if forward {
                old(self).right_shown
            } else {
                old(self).left_shown
            }),
            !turned ==> *final(self) == *old(self),
            turned && forward ==> *final(self) == (TrackPages {
                page: (old(self).page + 1) as usize,
                right_shown: !((old(self).page + 1) * TRACKS_PER_PAGE >= MUSIC_TRACK_COUNT),
                ..*old(self)
            }),
            turned && !forward ==> *final(self) == (TrackPages {
                page: (old(self).page - 1) as usize,
                left_shown: !(old(self).page - 1 <= 1),
                ..*old(self)
            }),
            final(self).usable(),
    {
        if forward {
            if !self.right_shown {
                return false;
            }
            let (page, stays) = turn_page(self.page, true);
            self.page = page;
            self.right_shown = stays;
            true
        } else {
            if !self.left_shown {
                return false;
            }
            let (page, stays) = turn_page(self.page, false);
            self.page = page;
            self.left_shown = stays;
            true
        }
    }
}

/// The track list never leaves its pages: starting from `new`, any run of
/// shows, redraws, hides and arrow clicks keeps the page among those that
/// show a track (the first and the second) and shows an arrow only where
/// it leads to such a page.
pub proof fn law_pages_stay_usable(p: TrackPages)
    requires
        p.usable(),
    ensures
        1 <= p.page <= 2,
        p.left_shown ==> p.page == 2,
        p.right_shown ==> p.page == 1,
{
}

/// The labels the player's three buttons cycle through.
#[derive(Clone, Copy, PartialEq, Eq, Structural)]
pub enum PlayerLabel {
    InOrder,
    Shuffled,
    Looped,
    Pause,
    Resume,
    Mute,
    Unmute,
}

/// What pressing a player button does besides changing its label.
#[derive(Clone, Copy, PartialEq, Eq, Structural)]
pub enum PlayerEffect {
    /// Set the music's volume to this many percent.
    SetVolume(u32),
    /// Pause or resume the music.
    TogglePause,
    /// Recompute the play order for the new mode.
    Reorder,
    /// Nothing besides the mode change.
    Nothing,
}

/// The label a button shows after it is pressed while labelled `l`.
pub open spec fn next_label(l: PlayerLabel) -> PlayerLabel {
    match l {
        PlayerLabel::InOrder => PlayerLabel::Shuffled,
        PlayerLabel::Shuffled => PlayerLabel::Looped,
        PlayerLabel::Looped => PlayerLabel::InOrder,
        PlayerLabel::Pause => PlayerLabel::Resume,
        PlayerLabel::Resume => PlayerLabel::Pause,
        PlayerLabel::Mute => PlayerLabel::Unmute,
        PlayerLabel::Unmute => PlayerLabel::Mute,
    }
}

/// Whether `l` is a label of the mode button.
pub open spec fn is_mode_label(l: PlayerLabel) -> bool {
    l == PlayerLabel::InOrder || l == PlayerLabel::Shuffled || l == PlayerLabel::Looped
}

/// Presses the button labelled `label`: the mode button cycles in order,
/// shuffled, looped; the pause button pauses and resumes; the mute button
/// mutes and restores the volume. Returns the new label.
pub fn press_player_button(label: PlayerLabel, player: &mut MusicPlayer) -> (r: (PlayerLabel, PlayerEffect))
    ensures
        r.0 == next_label(label),
        r == match label {
            PlayerLabel::Mute => (PlayerLabel::Unmute, PlayerEffect::SetVolume(0)),
            PlayerLabel::Unmute => (PlayerLabel::Mute, PlayerEffect::SetVolume(100)),
            PlayerLabel::Pause => (PlayerLabel::Resume, PlayerEffect::TogglePause),
            PlayerLabel::Resume => (PlayerLabel::Pause, PlayerEffect::TogglePause),
            PlayerLabel::InOrder => (PlayerLabel::Shuffled, PlayerEffect::Reorder),
            PlayerLabel::Shuffled => (PlayerLabel::Looped, PlayerEffect::Nothing),
            PlayerLabel::Looped => (PlayerLabel::InOrder, PlayerEffect::Reorder),
        },
        final(player).player_mode == match label {
            PlayerLabel::InOrder => PlayerMode::Shuffle,
            PlayerLabel::Shuffled => PlayerMode::SingleRepeat,
            PlayerLabel::Looped => PlayerMode::Straight,
            _ => old(player).player_mode,
        },
        final(player).order == old(player).order,
        final(player).current_composition == old(player).current_composition,
        final(player).current_state == old(player).current_state,
        final(player).sfx_playing == old(player).sfx_playing,
{
    match label {
        PlayerLabel::Mute => (PlayerLabel::Unmute, PlayerEffect::SetVolume(0)),
        PlayerLabel::Unmute => (PlayerLabel::Mute, PlayerEffect::SetVolume(100)),
        PlayerLabel::Pause => (PlayerLabel::Resume, PlayerEffect::TogglePause),
        PlayerLabel::Resume => (PlayerLabel::Pause, PlayerEffect::TogglePause),
        PlayerLabel::InOrder => {
            player.player_mode = PlayerMode::Shuffle;
            (PlayerLabel::Shuffled, PlayerEffect::Reorder)
        },
        PlayerLabel::Shuffled => {
            player.player_mode = PlayerMode::SingleRepeat;
            (PlayerLabel::Looped, PlayerEffect::Nothing)
        },
        PlayerLabel::Looped => {
            player.player_mode = PlayerMode::Straight;
            (PlayerLabel::InOrder, PlayerEffect::Reorder)
        },
    }
}

/// The player's buttons cycle: the mode button shows its first label
/// again after three presses and never leaves the mode labels; the pause
/// and mute buttons come back after two presses.
pub proof fn law_player_buttons_cycle(l: PlayerLabel)
    ensures
        is_mode_label(l) ==> is_mode_label(next_label(l)) && next_label(next_label(next_label(l)))
            == l,
        !is_mode_label(l) ==> !is_mode_label(next_label(l)) && next_label(next_label(l)) == l,
{
}

} // verus!
