//! The registers of the HDMV navigation machine: names and access classes.
//!
//! Navigation commands work on two banks of 32-bit registers:
//!
//! - 4096 general purpose registers (GPR), free to read and write;
//! - 128 player status registers (PSR). Each is a *playback status*, which
//!   tracks what is being played, or a *player setting*, which holds a
//!   capability or a preference and is read-only to navigation commands.
use vstd::prelude::*;

verus! {

/// Number of general purpose registers.
pub const GPR_COUNT: u16 = 4096;

/// Number of player status registers, reserved ones counted.
pub const PSR_COUNT: u8 = 128;

/// Access class of a player status register.
#[derive(Debug, Clone, Copy, PartialEq, Eq, Hash, Structural)]
pub enum PsrClass {
    /// Tracks the current playback state.
    PlaybackStatus {
        /// Whether it is read-only to navigation commands even so, as the
        /// presentation time and the timer are.
        read_only: bool,
    },
    /// A capability of the player or a preference of the user.
    PlayerSetting,
    /// No public name.
    Reserved,
}

impl PsrClass {
    pub open spec fn read_only_to_nav(self) -> bool {
        match self {
            PsrClass::PlaybackStatus { read_only } => read_only,
            PsrClass::PlayerSetting => true,
            PsrClass::Reserved => true,
        }
    }

    /// Whether navigation commands may not change such a register.
    pub fn is_read_only_to_nav(self) -> (r: bool)
        ensures
            r == self.read_only_to_nav(),
    {
        match self {
            PsrClass::PlaybackStatus { read_only } => read_only,
            PsrClass::PlayerSetting => true,
            PsrClass::Reserved => true,
        }
    }
}

/// A player status register: its number, its name, its class.
#[derive(Debug, Clone, Copy, PartialEq, Eq)]
pub struct PsrInfo {
    pub index: u8,
    /// `"reserved"` where the register has no public name.
    pub name: &'static str,
    pub class: PsrClass,
}

/// The name of a player status register.
pub open spec fn psr_name(index: u8) -> Seq<char> {
    if index == 0 {
        "InteractiveGraphics"@
    } else if index == 1 {
        "PrimaryAudio"@
    } else if index == 2 {
        "PGPiPPGTextST"@
    } else if index == 3 {
        "Angle"@
    } else if index == 4 {
        "Title"@
    } else if index == 5 {
        "Chapter"@
    } else if index == 6 {
        "PlayList"@
    } else if index == 7 {
        "PlayItem"@
    } else if index == 8 {
        "PresentationTime"@
    } else if index == 9 {
        "Timer"@
    } else if index == 10 {
        "SelectedButton"@
    } else if index == 11 {
        "MenuPage"@
    } else if index == 12 {
        "SelectedStyle"@
    } else if index == 13 {
        "Parental"@
    } else if index == 14 {
        "SecondaryAudioVideo"@
    } else if index == 15 {
        "AudioCapability"@
    } else if index == 16 {
        "AudioLanguage"@
    } else if index == 17 {
        "PGTSLanguage"@
    } else if index == 18 {
        "MenuLanguage"@
    } else if index == 19 {
        "Country"@
    } else if index == 20 {
        "Region"@
    } else if index == 29 {
        "VideoCapability"@
    } else if index == 30 {
        "TextCapability"@
    } else if index == 31 {
        "PlayerProfileVersion"@
    } else if index == 36 {
        "BackupTitle"@
    } else if index == 37 {
        "BackupChapter"@
    } else if index == 38 {
        "BackupPlayList"@
    } else if index == 39 {
        "BackupPlayItem"@
    } else if index == 40 {
        "BackupPresentationTime"@
    } else if index == 42 {
        "BackupSelectedButton"@
    } else if index == 43 {
        "BackupMenuPage"@
    } else if index == 44 {
        "BackupSelectedStyle"@
    } else if 48 <= index <= 61 {
        "CharacteristicTextCapability"@
    } else {
        "reserved"@
    }
}

/// The class of a player status register, by number. The two presentation
/// times and the timer are read-only; capabilities, languages and the other
/// preferences are settings.
pub open spec fn psr_class(index: u8) -> PsrClass {
    if index == 8 || index == 9 || index == 40 {
        PsrClass::PlaybackStatus { read_only: true }
    } else if index <= 12 || index == 14 || 36 <= index <= 39 || 42 <= index <= 44 {
        PsrClass::PlaybackStatus { read_only: false }
    } else if index <= 20 || 29 <= index <= 31 || 48 <= index <= 61 {
        PsrClass::PlayerSetting
    } else {
        PsrClass::Reserved
    }
}

/// What is known of player status register `index`, or `None` where there is
/// no such register.
pub fn psr_info(index: u8) -> (r: Option<PsrInfo>)
    ensures
        r is Some <==> index < PSR_COUNT,
        r matches Some(x) ==> x.index == index && x.name@ == psr_name(index) && x.class
            == psr_class(index),
{
    let playback: PsrClass = PsrClass::PlaybackStatus { read_only: false };
    let playback_ro: PsrClass = PsrClass::PlaybackStatus { read_only: true };
    let setting: PsrClass = PsrClass::PlayerSetting;
    if index >= PSR_COUNT {
        return None;
    }
    let (name, class) = match index {
        0 => ("InteractiveGraphics", playback),
        1 => ("PrimaryAudio", playback),
        2 => ("PGPiPPGTextST", playback),
        3 => ("Angle", playback),
        4 => ("Title", playback),
        5 => ("Chapter", playback),
        6 => ("PlayList", playback),
        7 => ("PlayItem", playback),
        8 => ("PresentationTime", playback_ro),
        9 => ("Timer", playback_ro),
        10 => ("SelectedButton", playback),
        11 => ("MenuPage", playback),
        12 => ("SelectedStyle", playback),
        13 => ("Parental", setting),
        14 => ("SecondaryAudioVideo", playback),
        15 => ("AudioCapability", setting),
        16 => ("AudioLanguage", setting),
        17 => ("PGTSLanguage", setting),
        18 => ("MenuLanguage", setting),
        19 => ("Country", setting),
        20 => ("Region", setting),
        29 => ("VideoCapability", setting),
        30 => ("TextCapability", setting),
        31 => ("PlayerProfileVersion", setting),
        36 => ("BackupTitle", playback),
        37 => ("BackupChapter", playback),
        38 => ("BackupPlayList", playback),
        39 => ("BackupPlayItem", playback),
        40 => ("BackupPresentationTime", playback_ro),
        42 => ("BackupSelectedButton", playback),
        43 => ("BackupMenuPage", playback),
        44 => ("BackupSelectedStyle", playback),
        48..=61 => ("CharacteristicTextCapability", setting),
        _ => ("reserved", PsrClass::Reserved),
    };
    Some(PsrInfo { index, name, class })
}

/// How authoring tools use a general purpose register. Nothing enforces it.
#[derive(Debug, Clone, Copy, PartialEq, Eq)]
pub struct GprConvention {
    pub conventional_use: &'static str,
    /// Whether BD-J code reaches the register too.
    pub bd_j_reachable: bool,
}

/// The conventional use of a general purpose register.
pub open spec fn gpr_use(index: u16) -> Seq<char> {
    if index <= 999 || 4006 <= index <= 4090 {
        "free for title programming"@
    } else if index <= 1999 {
        "per-playlist current audio / subtitle / chapter"@
    } else if index <= 3999 {
        "per-playlist resume play-time"@
    } else if index == 4001 {
        "sound-FX on/off flag"@
    } else if index == 4003 {
        "3D-mode flag"@
    } else if index == 4005 {
        "Top Menu pressed flag"@
    } else if index >= 4091 {
        "reserved for BD-J interop"@
    } else {
        "free"@
    }
}

/// The conventional use of general purpose register `index`, or `None` where
/// there is no such register.
pub fn gpr_convention(index: u16) -> (r: Option<GprConvention>)
    ensures
        r is Some <==> index < GPR_COUNT,
        r matches Some(x) ==> x.conventional_use@ == gpr_use(index) && x.bd_j_reachable == (1000
            <= index <= 4005),
{
    if index >= GPR_COUNT {
        return None;
    }
    let bd_j_reachable = 1000 <= index && index <= 4005;
    let conventional_use = match index {
        0..=999 => "free for title programming",
        1000..=1999 => "per-playlist current audio / subtitle / chapter",
        2000..=3999 => "per-playlist resume play-time",
        4000 => "free",
        4001 => "sound-FX on/off flag",
        4002 => "free",
        4003 => "3D-mode flag",
        4004 => "free",
        4005 => "Top Menu pressed flag",
        4006..=4090 => "free for title programming",
        _ => "reserved for BD-J interop",
    };
    Some(GprConvention { conventional_use, bd_j_reachable })
}

} // verus!
