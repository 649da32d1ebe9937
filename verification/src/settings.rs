//! The sound settings: what each line of the settings file holds.
use vstd::prelude::*;

verus! {

/// How many settings there are, and so how many lines the settings file
/// has at most.
pub const SETTINGS_LEN: usize = 5;

/// The settings, in the order of the lines of the settings file.
#[derive(Clone, Copy, PartialEq, Eq, Structural)]
pub enum SettingsType {
    TurnOfSFX,
    TurnOfMetroSFX,
    MusicVolume,
    SFXVolume,
    SFXMetroVolume,
}

/// The setting on line `value` of the settings file.
pub open spec fn spec_settings_type(value: int) -> SettingsType {
    if value == 0 {
        SettingsType::TurnOfSFX
    } else if value == 1 {
        SettingsType::TurnOfMetroSFX
    } else if value == 2 {
        SettingsType::MusicVolume
    } else if value == 3 {
        SettingsType::SFXVolume
    } else {
        SettingsType::SFXMetroVolume
    }
}

impl SettingsType {
    /// The setting on line `value` of the settings file; there are
    /// `SETTINGS_LEN` of them.
    pub fn from_index(value: usize) -> (t: Self)
        requires
            value < SETTINGS_LEN,
        ensures
            t == spec_settings_type(value as int),
    {
        if value == 0 {
            SettingsType::TurnOfSFX
        } else if value == 1 {
            SettingsType::TurnOfMetroSFX
        } else if value == 2 {
            SettingsType::MusicVolume
        } else if value == 3 {
            SettingsType::SFXVolume
        } else {
            SettingsType::SFXMetroVolume
        }
    }

    /// Whether the setting is a volume, shown as a slider, rather than a
    /// switch, shown as a check box.
    pub fn is_volume(&self) -> (b: bool)
        ensures
            b == !(*self == SettingsType::TurnOfSFX || *self == SettingsType::TurnOfMetroSFX),
    {
        match self {
            SettingsType::TurnOfSFX => false,
            SettingsType::TurnOfMetroSFX => false,
            _ => true,
        }
    }
}

/// Whether a check box for `setting_type` shows as ticked: the metro sound
/// box follows the metro sound switch, any other box the sound effects
/// switch.
pub fn checkbox_ticked(setting_type: SettingsType, turn_on_sfx: bool, turn_on_metro_sfx: bool) -> (b: bool)
    ensures
        b == if setting_type == SettingsType::TurnOfMetroSFX {
            turn_on_metro_sfx
        } else {
            turn_on_sfx
        },
{
    if setting_type == SettingsType::TurnOfMetroSFX {
        turn_on_metro_sfx
    } else {
        turn_on_sfx
    }
}

/// The two sound switches after a frame in which the key that flips the
/// sound effects (K) and the one that flips the metro sounds (L) were
/// pressed or not.
pub fn toggled_switches(turn_on_sfx: bool, turn_on_metro_sfx: bool, sfx_key: bool, metro_key: bool) -> (r: (bool, bool))
    ensures
        r == ((if sfx_key { !turn_on_sfx } else { turn_on_sfx }), (if metro_key {
            !turn_on_metro_sfx
        } else {
            turn_on_metro_sfx
        })),
{
    let sfx = if sfx_key {
        !turn_on_sfx
    } else {
        turn_on_sfx
    };
    let metro = if metro_key {
        !turn_on_metro_sfx
    } else {
        turn_on_metro_sfx
    };
    (sfx, metro)
}

/// What the lines of a settings file say: the two switches, and the three
/// volumes as written (in percent).
pub struct SettingsText {
    pub turn_on_sfx: Option<bool>,
    pub turn_on_metro_sfx: Option<bool>,
    pub music_volume: Option<String>,
    pub sfx_volume: Option<String>,
    pub metro_sfx_volume: Option<String>,
}

/// Reads the lines of a settings file: a switch line turns its switch on
/// exactly when it reads `true`; a volume line is kept as written. A file
/// has at most `SETTINGS_LEN` lines.
pub fn read_settings(lines: &Vec<String>) -> (r: SettingsText)
    requires
        lines@.len() <= SETTINGS_LEN,
    ensures
        r.turn_on_sfx == if lines@.len() > 0 {
            Some(lines@[0]@ == "true"@)
        } else {
            None::<bool>
        },
        r.turn_on_metro_sfx == if lines@.len() > 1 {
            Some(lines@[1]@ == "true"@)
        } else {
            None::<bool>
        },
        r.music_volume == if lines@.len() > 2 {
            Some(lines@[2])
        } else {
            None::<String>
        },
        r.sfx_volume == if lines@.len() > 3 {
            Some(lines@[3])
        } else {
            None::<String>
        },
        r.metro_sfx_volume == if lines@.len() > 4 {
            Some(lines@[4])
        } else {
            None::<String>
        },
{
    let truth = "true".to_owned();
    let mut r = SettingsText {
        turn_on_sfx: None,
        turn_on_metro_sfx: None,
        music_volume: None,
        sfx_volume: None,
        metro_sfx_volume: None,
    };
    let n = lines.len();
    for counter in 0..n
        invariant
            n == lines@.len(),
            n <= SETTINGS_LEN,
            truth@ == "true"@,
            r.turn_on_sfx == if counter > 0 {
                Some(lines@[0]@ == "true"@)
            } else {
                None::<bool>
            },
            r.turn_on_metro_sfx == if counter > 1 {
                Some(lines@[1]@ == "true"@)
            } else {
                None::<bool>
            },
            r.music_volume == if counter > 2 {
                Some(lines@[2])
            } else {
                None::<String>
            },
            r.sfx_volume == if counter > 3 {
                Some(lines@[3])
            } else {
                None::<String>
            },
            r.metro_sfx_volume == if counter > 4 {
                Some(lines@[4])
            } else {
                None::<String>
            },
    {
        let line = &lines[counter];
        match SettingsType::from_index(counter) {
            SettingsType::TurnOfSFX => {
                r.turn_on_sfx = Some(*line == truth);
            },
            SettingsType::TurnOfMetroSFX => {
                r.turn_on_metro_sfx = Some(*line == truth);
            },
            SettingsType::MusicVolume => {
                r.music_volume = Some(line.clone());
            },
            SettingsType::SFXVolume => {
                r.sfx_volume = Some(line.clone());
            },
            SettingsType::SFXMetroVolume => {
                r.metro_sfx_volume = Some(line.clone());
            },
        }
    }
    r
}

} // verus!
