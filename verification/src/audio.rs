//! The music player: the order in which tracks play, and which track comes
//! next when the player is asked to change it.
use crate::chance::random_below;
use vstd::prelude::*;

verus! {

broadcast use {vstd::seq_lib::group_to_multiset_ensures, vstd::multiset::group_multiset_axioms};

/// How many music tracks the game ships.
pub const MUSIC_TRACK_COUNT: usize = 8;

/// How many metro sound effects there are.
pub const SFX_METRO_COUNT: usize = 6;

/// Asking for this track means "the previous one".
pub const PREVIOUS_TRACK: usize = usize::MAX;

/// Asking for this track means "the next one".
pub const NEXT_TRACK: usize = usize::MAX - 1;

/// The least delay, in seconds, before the next metro sound effect.
pub const METRO_SFX_MIN_DELAY: usize = 14;

/// The delay before the next metro sound effect is below this many seconds.
pub const METRO_SFX_MAX_DELAY: usize = 60;

/// Volume of a game track, in percent.
pub const GAME_VOLUME: u32 = 100;

/// Volume of the menu track, in percent.
pub const MENU_VOLUME: u32 = 80;

/// How many interface sound effects there are.
pub const SFX_COUNT: usize = 2;

/// An interface sound effect.
#[derive(Clone, Copy, PartialEq, Eq, Structural)]
pub enum SFXType {
    ClickLKMSound,
    ErrorSound,
}

/// Which of the interface sound effects plays for `t`.
pub fn sfx_index(t: SFXType) -> (i: usize)
    ensures
        i == (if t == SFXType::ClickLKMSound {
            0int
        } else {
            1int
        }),
        i < SFX_COUNT,
{
    match t {
        SFXType::ClickLKMSound => 0,
        SFXType::ErrorSound => 1,
    }
}

/// Whether music is playing.
#[derive(Clone, Copy, PartialEq, Eq, Structural)]
pub enum PlayerState {
    Stopped,
    Ended,
    Playing,
}

/// How the next track is picked.
#[derive(Clone, Copy, PartialEq, Eq, Structural)]
pub enum PlayerMode {
    Straight,
    Shuffle,
    SingleRepeat,
}

/// The music player.
pub struct MusicPlayer {
    pub current_state: PlayerState,
    pub player_mode: PlayerMode,
    /// The current position in the play order.
    pub current_composition: usize,
    /// The play order: `order[i]` is the track played at position `i`.
    pub order: Vec<usize>,
    /// Whether a metro sound effect is playing over the music.
    pub sfx_playing: bool,
}

/// `s` lists each of `0 .. s.len()` exactly once.
pub open spec fn is_order(s: Seq<usize>) -> bool {
    &&& s.no_duplicates()
    &&& forall|i: int| 0 <= i < s.len() ==> #[trigger] s[i] < s.len()
}

/// How the track that was playing stops.
#[derive(Clone, Copy, PartialEq, Eq, Structural)]
pub enum TrackStop {
    /// It stops at once.
    Cut,
    /// It fades out.
    FadeOut,
}

/// What changing track does: how the old track stops, which track (an
/// index into the track list) starts, and at what volume.
#[derive(Clone, Copy, PartialEq, Eq, Structural)]
pub struct TrackChange {
    pub stop: TrackStop,
    pub play: usize,
    pub volume_percent: u32,
}

/// The music player as plain values.
pub struct PlayerView {
    pub current_state: PlayerState,
    pub player_mode: PlayerMode,
    pub current_composition: usize,
    pub order: Seq<usize>,
    pub sfx_playing: bool,
}

/// The first position in `order` that holds `track`.
pub open spec fn position_of(order: Seq<usize>, track: usize) -> Option<int>
    decreases order.len(),
{
    if order.len() == 0 {
        None
    } else {
        match position_of(order.drop_last(), track) {
            Some(i) => Some(i),
            None => if order.last() == track {
                Some(order.len() - 1)
            } else {
                None
            },
        }
    }
}

/// The position a request for `track` moves the player to. A request for
/// a real track goes to that position. `PREVIOUS_TRACK` and any other
/// out-of-range request look up where the current position's number sits
/// in the order, and go to the track number before it or after it there,
/// wrapping round at the ends.
pub open spec fn requested_position(order: Seq<usize>, current: usize, track: usize) -> usize {
    if track < MUSIC_TRACK_COUNT {
        track
    } else {
        match position_of(order, current) {
            None => current,
            Some(i) => if track == PREVIOUS_TRACK {
                if i == 0 {
                    order[order.len() - 1]
                } else {
                    order[i - 1]
                }
            } else {
                if i >= MUSIC_TRACK_COUNT - 1 {
                    order[0]
                } else {
                    order[i + 1]
                }
            },
        }
    }
}

/// What a request to change track does to player `p`: an explicit request
/// cuts the current track and plays the requested one; a request for "any
/// next track" fades the current one out and, in a game, plays the next
/// position (the same one when repeating a single track), or, in the
/// menus, the first track at menu volume.
pub open spec fn spec_change_track(p: PlayerView, track: Option<usize>, in_game: bool) -> (
    PlayerView,
    TrackChange,
) {
    match track {
        Some(t) => {
            let c = requested_position(p.order, p.current_composition, t);
            (
                PlayerView { current_composition: c, ..p },
                TrackChange { stop: TrackStop::Cut, play: p.order[c as int], volume_percent: GAME_VOLUME },
            )
        },
        None => if in_game {
            let c = if p.player_mode == PlayerMode::SingleRepeat {
                p.current_composition
            } else {
                ((p.current_composition + 1) % (p.order.len() as int)) as usize
            };
            (
                PlayerView { current_composition: c, current_state: PlayerState::Playing, ..p },
                TrackChange { stop: TrackStop::FadeOut, play: p.order[c as int], volume_percent: GAME_VOLUME },
            )
        } else {
            (
                PlayerView { current_state: PlayerState::Playing, ..p },
                TrackChange { stop: TrackStop::FadeOut, play: 0, volume_percent: MENU_VOLUME },
            )
        },
    }
}

proof fn lemma_position_of(order: Seq<usize>, track: usize)
    ensures
        match position_of(order, track) {
            Some(i) => 0 <= i < order.len() && order[i] == track && forall|j: int|
                0 <= j < i ==> order[j] != track,
            None => forall|j: int| 0 <= j < order.len() ==> order[j] != track,
        },
    decreases order.len(),
{
    if order.len() > 0 {
        let d = order.drop_last();
        lemma_position_of(d, track);
        assert forall|j: int| 0 <= j < d.len() implies d[j] == order[j] by {}
    }
}

/// Swapping two entries keeps a play order a play order, with the same
/// tracks.
proof fn lemma_swap_keeps_order(s: Seq<usize>, i: int, j: int)
    requires
        is_order(s),
        0 <= i < s.len(),
        0 <= j < s.len(),
    ensures
        is_order(s.update(i, s[j]).update(j, s[i])),
        s.update(i, s[j]).update(j, s[i]).to_multiset() == s.to_multiset(),
{
    let t = s.update(i, s[j]).update(j, s[i]);
    assert forall|a: int, b: int| 0 <= a < t.len() && 0 <= b < t.len() && a != b implies t[a]
        != t[b] by {
        let sa = if a == j {
            i
        } else if a == i {
            j
        } else {
            a
        };
        let sb = if b == j {
            i
        } else if b == i {
            j
        } else {
            b
        };
        assert(t[a] == s[sa]);
        assert(t[b] == s[sb]);
    }
    assert(t.to_multiset() == s.to_multiset().insert(s[j]).remove(s[i]).insert(s[i]).remove(
        s.update(i, s[j])[j],
    ));
}

/// `s` with the entries at `i` and `j` swapped.
pub open spec fn swap_at(s: Seq<usize>, i: int, j: int) -> Seq<usize> {
    s.update(i, s[j]).update(j, s[i])
}

/// `s` after swapping, for each position `i` from `lo` up to `hi`, in
/// turn, the entry at `i` with the entry at `draws[i]`.
pub open spec fn swaps(s: Seq<usize>, draws: Seq<usize>, lo: int, hi: int) -> Seq<usize>
    decreases hi - lo,
{
    if lo < hi {
        swaps(swap_at(s, lo, draws[lo] as int), draws, lo + 1, hi)
    } else {
        s
    }
}

/// The play order `order` shuffled round position `c` with the drawn
/// partners `draws`: first the positions after `c`, then those before it.
pub open spec fn shuffled(order: Seq<usize>, c: int, draws: Seq<usize>) -> Seq<usize> {
    swaps(swaps(order, draws, c + 1, order.len() as int), draws, 0, c)
}

impl MusicPlayer {
    pub open spec fn view(&self) -> PlayerView {
        PlayerView {
            current_state: self.current_state,
            player_mode: self.player_mode,
            current_composition: self.current_composition,
            order: self.order@,
            sfx_playing: self.sfx_playing,
        }
    }

    /// The play order lists each track once and the current position is
    /// one of its positions.
    pub open spec fn wf(&self) -> bool {
        &&& is_order(self.order@)
        &&& self.current_composition < self.order@.len()
    }

    /// A player for `track_count` tracks, playing the first, in order.
    pub fn new(track_count: usize) -> (p: Self)
        ensures
            p.current_state == PlayerState::Playing,
            p.player_mode == PlayerMode::Straight,
            p.current_composition == 0,
            p.order@ == Seq::new(track_count as nat, |i: int| i as usize),
            !p.sfx_playing,
            track_count > 0 ==> p.wf(),
    {
        let mut order: Vec<usize> = Vec::new();
        for i in 0..track_count
            invariant
                order@ == Seq::new(i as nat, |j: int| j as usize),
        {
            order.push(i);
            assert(order@ =~= Seq::new((i + 1) as nat, |j: int| j as usize));
        }
        MusicPlayer {
            current_state: PlayerState::Playing,
            player_mode: PlayerMode::Straight,
            current_composition: 0,
            order,
            sfx_playing: false,
        }
    }

    /// Reorders the tracks after the play mode changed: in order mode the
    /// order becomes `0, 1, 2, ...`; in shuffle mode the positions after
    /// the current one are shuffled among themselves, and so are the
    /// positions before it, leaving the current track where it is; when
    /// repeating a single track nothing changes.
    pub fn change_order(&mut self)
        requires
            old(self).wf(),
        ensures
            final(self).wf(),
            final(self).current_composition == old(self).current_composition,
            final(self).player_mode == old(self).player_mode,
            final(self).current_state == old(self).current_state,
            final(self).sfx_playing == old(self).sfx_playing,
            final(self).order@.len() == old(self).order@.len(),
            old(self).player_mode == PlayerMode::Straight ==> final(self).order@ == Seq::new(
                old(self).order@.len(),
                |i: int| i as usize,
            ),
            old(self).player_mode == PlayerMode::SingleRepeat ==> final(self).order@ == old(
                self,
            ).order@,
            old(self).player_mode == PlayerMode::Shuffle ==> {
                let c = old(self).current_composition as int;
                &&& final(self).order@[c] == old(self).order@[c]
                &&& final(self).order@.take(c).to_multiset() == old(self).order@.take(
                    c,
                ).to_multiset()
                &&& final(self).order@.skip(c + 1).to_multiset() == old(self).order@.skip(
                    c + 1,
                ).to_multiset()
            },
    {
        let len = self.order.len();
        match self.player_mode {
            PlayerMode::Straight => {
                for i in 0..len
                    invariant
                        len == self.order@.len(),
                        self.current_composition == old(self).current_composition,
                        self.current_composition < len,
                        self.player_mode == old(self).player_mode,
                        self.current_state == old(self).current_state,
                        self.sfx_playing == old(self).sfx_playing,
                        forall|j: int| 0 <= j < i ==> #[trigger] self.order@[j] == j,
                {
                    self.order[i] = i;
                }
                assert(self.order@ =~= Seq::new(len as nat, |i: int| i as usize));
                assert(self.order@.no_duplicates());
            },
            PlayerMode::SingleRepeat => {},
            PlayerMode::Shuffle => {
                let c = self.current_composition;
                let mut draws: Vec<usize> = Vec::new();
                for i in 0..c + 1
                    invariant
                        draws@.len() == i,
                {
                    draws.push(i);
                }
                for i in c + 1..len
                    invariant
                        c < len,
                        draws@.len() == i,
                        forall|k: int| c < k < i ==> k <= #[trigger] draws@[k] < len,
                {
                    draws.push(random_below(i, len));
                }
                for i in 0..c
                    invariant
                        c < len,
                        draws@.len() == len,
                        forall|k: int| c < k < len ==> k <= #[trigger] draws@[k] < len,
                        forall|k: int| 0 <= k < i ==> k <= #[trigger] draws@[k] < c,
                {
                    let j = random_below(i, c);
                    draws.set(i, j);
                }
                self.shuffle_with(&draws);
            },
        }
    }

    /// Shuffles the play order round the current position with the drawn
    /// partners `draws`: each position `i` after the current one, in turn,
    /// swaps with position `draws[i]` (at `i` or later), then each position
    /// `i` before the current one swaps with `draws[i]` (at `i` or later,
    /// before the current one). The current track stays where it is.
    pub fn shuffle_with(&mut self, draws: &Vec<usize>)
        requires
            old(self).wf(),
            draws@.len() == old(self).order@.len(),
            forall|i: int|
                old(self).current_composition < i < draws@.len() ==> i <= #[trigger] draws@[i]
                    < draws@.len(),
            forall|i: int|
                0 <= i < old(self).current_composition ==> i <= #[trigger] draws@[i]
                    < old(self).current_composition,
        ensures
            final(self).order@ == shuffled(old(self).order@, old(self).current_composition as int, draws@),
            final(self).order@.len() == old(self).order@.len(),
            final(self).wf(),
            final(self).current_composition == old(self).current_composition,
            final(self).player_mode == old(self).player_mode,
            final(self).current_state == old(self).current_state,
            final(self).sfx_playing == old(self).sfx_playing,
            ({
                let c = old(self).current_composition as int;
                &&& final(self).order@[c] == old(self).order@[c]
                &&& final(self).order@.take(c).to_multiset() == old(self).order@.take(
                    c,
                ).to_multiset()
                &&& final(self).order@.skip(c + 1).to_multiset() == old(self).order@.skip(
                    c + 1,
                ).to_multiset()
            }),
    {
        let len = self.order.len();
        let c = self.current_composition;
        let ghost o = self.order@;
        let ghost d = draws@;
        for i in c + 1..len
            invariant
                len == self.order@.len(),
                d == draws@,
                d.len() == len,
                forall|k: int| c < k < len ==> k <= #[trigger] d[k] < len,
                c == self.current_composition,
                c < len,
                self.current_composition == old(self).current_composition,
                self.player_mode == old(self).player_mode,
                self.current_state == old(self).current_state,
                self.sfx_playing == old(self).sfx_playing,
                o == old(self).order@,
                is_order(self.order@),
                self.order@.take(c + 1) == o.take(c + 1),
                self.order@.skip(c + 1).to_multiset() == o.skip(c + 1).to_multiset(),
                swaps(self.order@, d, i as int, len as int) == swaps(o, d, c + 1, len as int),
        {
            let j = draws[i];
            assert(i <= d[i as int] < len);
            let ghost before = self.order@;
            let a = self.order[i];
            let b = self.order[j];
            self.order[i] = b;
            self.order[j] = a;
            proof {
                lemma_swap_keeps_order(before, i as int, j as int);
                assert(self.order@ == swap_at(before, i as int, j as int));
                assert(self.order@.take(c + 1) =~= before.take(c + 1));
                let bs = before.skip(c + 1);
                let k1 = i - (c + 1);
                let k2 = j - (c + 1);
                lemma_swap_keeps_order_multiset(bs, k1, k2);
                assert(self.order@.skip(c + 1) =~= bs.update(k1, bs[k2]).update(k2, bs[k1]));
            }
        }
        let ghost mid = self.order@;
        assert(mid == swaps(o, d, c + 1, len as int));
        for i in 0..c
            invariant
                len == self.order@.len(),
                d == draws@,
                d.len() == len,
                forall|k: int| 0 <= k < c ==> k <= #[trigger] d[k] < c,
                c == self.current_composition,
                c < len,
                self.current_composition == old(self).current_composition,
                self.player_mode == old(self).player_mode,
                self.current_state == old(self).current_state,
                self.sfx_playing == old(self).sfx_playing,
                o == old(self).order@,
                is_order(self.order@),
                self.order@.skip(c as int) == mid.skip(c as int),
                self.order@.take(c as int).to_multiset() == mid.take(c as int).to_multiset(),
                swaps(self.order@, d, i as int, c as int) == swaps(mid, d, 0, c as int),
        {
            let j = draws[i];
            assert(i <= d[i as int] < c);
            let ghost before = self.order@;
            let a = self.order[i];
            let b = self.order[j];
            self.order[i] = b;
            self.order[j] = a;
            proof {
                lemma_swap_keeps_order(before, i as int, j as int);
                assert(self.order@ == swap_at(before, i as int, j as int));
                assert(self.order@.skip(c as int) =~= before.skip(c as int));
                let bt = before.take(c as int);
                lemma_swap_keeps_order_multiset(bt, i as int, j as int);
                assert(self.order@.take(c as int) =~= bt.update(i as int, bt[j as int]).update(
                    j as int,
                    bt[i as int],
                ));
            }
        }
        proof {
            assert(self.order@ == swaps(self.order@, d, c as int, c as int));
            assert(mid.take(c as int) == o.take(c as int)) by {
                assert(mid.take(c + 1).take(c as int) == mid.take(c as int));
                assert(o.take(c + 1).take(c as int) == o.take(c as int));
            }
            assert(self.order@[c as int] == self.order@.skip(c as int)[0]);
            assert(mid[c as int] == mid.skip(c as int)[0]);
            assert(mid[c as int] == mid.take(c + 1)[c as int]);
            assert(o[c as int] == o.take(c + 1)[c as int]);
            assert(self.order@.skip(c + 1) == self.order@.skip(c as int).skip(1));
            assert(mid.skip(c + 1) == mid.skip(c as int).skip(1));
        }
    }

    /// Changes track on request: `Some(track)` when the player's buttons
    /// ask for a track (or for the previous or next one), `None` when the
    /// current track has ended or the game state changed. `in_game` tells
    /// whether a game is running. Says how to stop the old track and what
    /// to play.
    pub fn change_track(&mut self, track: Option<usize>, in_game: bool) -> (change: TrackChange)
        requires
            old(self).wf(),
            track.is_some() ==> old(self).order@.len() == MUSIC_TRACK_COUNT,
        ensures
            (final(self)@, change) == spec_change_track(old(self)@, track, in_game),
            final(self).wf(),
    {
        proof {
            lemma_position_of(self.order@, self.current_composition);
        }
        match track {
            Some(t) => {
                if t >= MUSIC_TRACK_COUNT {
                    let n = self.order.len();
                    let ghost cur = self.current_composition;
                    let ghost before = self@;
                    let mut i: usize = 0;
                    while i < n
                        invariant_except_break
                            self.current_composition == cur,
                            forall|j: int| 0 <= j < i ==> self.order@[j] != cur,
                        invariant
                            i <= n,
                            t >= MUSIC_TRACK_COUNT,
                            n == self.order@.len(),
                            n == MUSIC_TRACK_COUNT,
                            is_order(self.order@),
                            self@ == (PlayerView { current_composition: self.current_composition, ..before }),
                            before.current_composition == cur,
                            before.order == self.order@,
                            match position_of(self.order@, cur) {
                                Some(k) => 0 <= k < n && self.order@[k] == cur && forall|j: int|
                                    0 <= j < k ==> self.order@[j] != cur,
                                None => forall|j: int| 0 <= j < n ==> self.order@[j] != cur,
                            },
                        ensures
                            self@ == (PlayerView { current_composition: self.current_composition, ..before }),
                            self.current_composition == requested_position(self.order@, cur, t),
                        decreases n - i,
                    {
                        if self.order[i] == self.current_composition {
                            if t == PREVIOUS_TRACK {
                                if i == 0 {
                                    self.current_composition = self.order[n - 1];
                                } else {
                                    self.current_composition = self.order[i - 1];
                                }
                            } else {
                                if i >= MUSIC_TRACK_COUNT - 1 {
                                    self.current_composition = self.order[0];
                                } else {
                                    self.current_composition = self.order[i + 1];
                                }
                            }
                            break;
                        }
                        i = i + 1;
                    }
                } else {
                    self.current_composition = t;
                }
                TrackChange {
                    stop: TrackStop::Cut,
                    play: self.order[self.current_composition],
                    volume_percent: GAME_VOLUME,
                }
            },
            None => {
                self.current_state = PlayerState::Playing;
                if in_game {
                    if self.player_mode != PlayerMode::SingleRepeat {
                        let len = self.order.len();
                        self.current_composition = (self.current_composition + 1) % len;
                    }
                    TrackChange {
                        stop: TrackStop::FadeOut,
                        play: self.order[self.current_composition],
                        volume_percent: GAME_VOLUME,
                    }
                } else {
                    TrackChange { stop: TrackStop::FadeOut, play: 0, volume_percent: MENU_VOLUME }
                }
            },
        }
    }
}

/// Swapping two entries of any sequence keeps its multiset of entries.
proof fn lemma_swap_keeps_order_multiset(s: Seq<usize>, i: int, j: int)
    requires
        0 <= i < s.len(),
        0 <= j < s.len(),
    ensures
        s.update(i, s[j]).update(j, s[i]).to_multiset() == s.to_multiset(),
{
    assert(s.update(i, s[j]).update(j, s[i]).to_multiset() == s.update(i, s[j]).to_multiset().insert(
        s[i],
    ).remove(s.update(i, s[j])[j]));
}

impl MusicPlayer {
    /// Checks, while music should be playing, whether the soundtrack has
    /// run out; if so the player is marked as ended and asks for the next
    /// track.
    pub fn check_soundtrack(&mut self, soundtrack_present: bool) -> (ask_next: bool)
        ensures
            ask_next == (old(self).current_state == PlayerState::Playing && !soundtrack_present),
            ask_next ==> *final(self) == (MusicPlayer { current_state: PlayerState::Ended, ..*old(self) }),
            !ask_next ==> *final(self) == *old(self),
    {
        if self.current_state == PlayerState::Playing && !soundtrack_present {
            self.current_state = PlayerState::Ended;
            return true;
        }
        false
    }

    /// Checks whether a metro sound effect that was playing has ended; if
    /// so the flag is cleared and the music is to fade back in.
    pub fn check_metro_sfx(&mut self, metro_sfx_present: bool) -> (fade_in: bool)
        ensures
            fade_in == (old(self).sfx_playing && !metro_sfx_present),
            fade_in ==> *final(self) == (MusicPlayer { sfx_playing: false, ..*old(self) }),
            !fade_in ==> *final(self) == *old(self),
    {
        if !metro_sfx_present && self.sfx_playing {
            self.sfx_playing = false;
            return true;
        }
        false
    }

    /// Starts a metro sound effect over the music: which effect plays, and
    /// how many seconds until the next one, both drawn at random.
    pub fn start_metro_sfx(&mut self) -> (r: (usize, usize))
        ensures
            *final(self) == (MusicPlayer { sfx_playing: true, ..*old(self) }),
            r.0 < SFX_METRO_COUNT,
            METRO_SFX_MIN_DELAY <= r.1 < METRO_SFX_MAX_DELAY,
    {
        let delay = random_below(METRO_SFX_MIN_DELAY, METRO_SFX_MAX_DELAY);
        self.sfx_playing = true;
        let effect = random_below(0, SFX_METRO_COUNT);
        (effect, delay)
    }
}

/// The previous-track and next-track buttons undo each other: asking for
/// the previous track and then the next one (or the other way round)
/// comes back to the position the player was at.
pub proof fn law_previous_next_undo(order: Seq<usize>, current: usize)
    requires
        is_order(order),
        order.len() == MUSIC_TRACK_COUNT,
        current < order.len(),
    ensures
        requested_position(order, requested_position(order, current, PREVIOUS_TRACK), NEXT_TRACK)
            == current,
        requested_position(order, requested_position(order, current, NEXT_TRACK), PREVIOUS_TRACK)
            == current,
{
    let n = order.len() as int;
    assert(exists|i: int| 0 <= i < n && order[i] == current) by {
        lemma_order_is_onto(order, current);
    }
    lemma_position_of(order, current);
    let i = position_of(order, current).unwrap();
    let prev = requested_position(order, current, PREVIOUS_TRACK);
    let next = requested_position(order, current, NEXT_TRACK);
    let ip = if i == 0 { n - 1 } else { i - 1 };
    let inx = if i >= n - 1 { 0 } else { i + 1 };
    assert(prev == order[ip]);
    assert(next == order[inx]);
    lemma_position_of(order, prev);
    lemma_position_of(order, next);
    lemma_position_unique(order, prev, ip);
    lemma_position_unique(order, next, inx);
}

proof fn lemma_position_unique(order: Seq<usize>, track: usize, i: int)
    requires
        order.no_duplicates(),
        0 <= i < order.len(),
        order[i] == track,
    ensures
        position_of(order, track) == Some(i),
{
    lemma_position_of(order, track);
    match position_of(order, track) {
        Some(j) => {
            assert(order[j] == order[i]);
        },
        None => {
            assert(order[i] != track);
        },
    }
}

/// A play order lists every track.
proof fn lemma_order_is_onto(order: Seq<usize>, t: usize)
    requires
        is_order(order),
        order.len() == MUSIC_TRACK_COUNT,
        t < order.len(),
    ensures
        exists|i: int| 0 <= i < order.len() && order[i] == t,
{
    let n = order.len() as usize;
    let s = order.to_set();
    let full = Set::new(|x: usize| x < n);
    order.unique_seq_to_set();
    assert forall|x: usize| s.contains(x) implies full.contains(x) by {
        let i = choose|i: int| 0 <= i < order.len() && order[i] == x;
        assert(order[i] < order.len());
    }
    assert(s.subset_of(full));
    lemma_bounded_usize_set_len(n);
    vstd::set_lib::lemma_len_subset(s, full);
    if !s.contains(t) {
        assert(s.subset_of(full.remove(t)));
        vstd::set_lib::lemma_len_subset(s, full.remove(t));
    }
    assert(s.contains(t));
}

/// The set of numbers below `n` has `n` elements.
proof fn lemma_bounded_usize_set_len(n: usize)
    ensures
        Set::new(|x: usize| x < n).finite(),
        Set::new(|x: usize| x < n).len() == n,
    decreases n,
{
    if n == 0 {
        assert(Set::new(|x: usize| x < n) =~= Set::<usize>::empty());
    } else {
        let m = (n - 1) as usize;
        lemma_bounded_usize_set_len(m);
        assert(Set::new(|x: usize| x < n) =~= Set::new(|x: usize| x < m).insert(m));
    }
}

/// When a track ends during a game the player moves on one position,
/// wrapping round at the end of the order, in every mode but repeating a
/// single track, which stays on the same position; either way the track at
/// the new position fades in at game volume. In the menus the position
/// stays and the menu track plays. A request for a real track goes to that
/// position and cuts the old one.
pub proof fn law_track_end_moves_on(p: PlayerView, t: usize)
    requires
        0 < p.order.len() <= usize::MAX,
        p.current_composition < p.order.len(),
    ensures
        ({
            let (q, c) = spec_change_track(p, None, true);
            &&& p.player_mode != PlayerMode::SingleRepeat ==> q.current_composition == (
            p.current_composition + 1) % (p.order.len() as int)
            &&& p.player_mode == PlayerMode::SingleRepeat ==> q.current_composition
                == p.current_composition
            &&& c.play == p.order[q.current_composition as int]
            &&& c.stop == TrackStop::FadeOut
            &&& c.volume_percent == GAME_VOLUME
            &&& q.order == p.order
            &&& q.player_mode == p.player_mode
        }),
        ({
            let (q, c) = spec_change_track(p, None, false);
            &&& q.current_composition == p.current_composition
            &&& c.play == 0
            &&& c.volume_percent == MENU_VOLUME
        }),
        t < MUSIC_TRACK_COUNT ==> ({
            let (q, c) = spec_change_track(p, Some(t), true);
            &&& q.current_composition == t
            &&& c.stop == TrackStop::Cut
        }),
{
}

/// The previous-track and next-track buttons step through the play order:
/// from the track at place `i` of the order, "next" goes to the track at
/// the following place and "previous" to the one at the place before,
/// wrapping round at the ends; a request for a real track goes to it.
pub proof fn law_previous_next_step(order: Seq<usize>, current: usize, i: int, t: usize)
    requires
        is_order(order),
        order.len() == MUSIC_TRACK_COUNT,
        0 <= i < order.len(),
        order[i] == current,
    ensures
        requested_position(order, current, NEXT_TRACK) == order[(i + 1) % 8],
        requested_position(order, current, PREVIOUS_TRACK) == order[(i + 7) % 8],
        t < MUSIC_TRACK_COUNT ==> requested_position(order, current, t) == t,
{
    lemma_position_of(order, current);
    match position_of(order, current) {
        Some(p) => {
            if p < i {
                assert(order[p] == order[i]);
            } else if p > i {
                assert(order[i] != current);
            }
        },
        None => {
            assert(order[i] != current);
        },
    }
}

} // verus!
