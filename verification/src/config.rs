//! Saved defaults and their resolution against command-line options.
use vstd::prelude::*;

verus! {

/// The sound an alarm plays.
#[derive(Clone, Debug, PartialEq, Eq)]
pub enum SoundSetting {
    /// An installed system sound, by its logical name.
    System(String),
    /// A sound file, by its path.
    File(String),
    /// The terminal bell.
    TerminalBell,
}

/// What a sound setting names.
pub enum SoundChoice {
    System(Seq<char>),
    File(Seq<char>),
    TerminalBell,
}

impl View for SoundSetting {
    type V = SoundChoice;

    open spec fn view(&self) -> SoundChoice {
        match self {
            SoundSetting::System(name) => SoundChoice::System(name@),
            SoundSetting::File(path) => SoundChoice::File(path@),
            SoundSetting::TerminalBell => SoundChoice::TerminalBell,
        }
    }
}

impl SoundSetting {
    /// A copy of the setting.
    pub fn duplicate(&self) -> (r: SoundSetting)
        ensures
            r@ == self@,
    {
        match self {
            SoundSetting::System(name) => SoundSetting::System(name.clone()),
            SoundSetting::File(path) => SoundSetting::File(path.clone()),
            SoundSetting::TerminalBell => SoundSetting::TerminalBell,
        }
    }
}

/// The saved defaults.
#[derive(Clone, Debug, PartialEq, Eq)]
pub struct Config {
    pub font: String,
    pub notification: bool,
    pub sound: SoundSetting,
}

/// What a configuration holds.
pub struct ConfigView {
    pub font: Seq<char>,
    pub notification: bool,
    pub sound: SoundChoice,
}

impl View for Config {
    type V = ConfigView;

    open spec fn view(&self) -> ConfigView {
        ConfigView { font: self.font@, notification: self.notification, sound: self.sound@ }
    }
}

/// The built-in defaults: the `standard` font, notifications on, and the
/// system sound `Glass`.
pub open spec fn default_config() -> ConfigView {
    ConfigView {
        font: "standard"@,
        notification: true,
        sound: SoundChoice::System("Glass"@),
    }
}

impl Default for Config {
    fn default() -> (r: Config)
        ensures
            r@ == default_config(),
    {
        Config {
            font: "standard".to_owned(),
            notification: true,
            sound: SoundSetting::System("Glass".to_owned()),
        }
    }
}

/// Values given on the command line, which win over saved ones.
#[derive(Clone, Debug, Default)]
pub struct Overrides {
    pub font: Option<String>,
    pub notification: Option<bool>,
    pub sound: Option<SoundSetting>,
}

/// What overrides hold.
pub struct OverridesView {
    pub font: Option<Seq<char>>,
    pub notification: Option<bool>,
    pub sound: Option<SoundChoice>,
}

impl View for Overrides {
    type V = OverridesView;

    open spec fn view(&self) -> OverridesView {
        OverridesView {
            font: match self.font {
                Some(f) => Some(f@),
                None => None,
            },
            notification: self.notification,
            sound: match self.sound {
                Some(s) => Some(s@),
                None => None,
            },
        }
    }
}

impl Overrides {
    /// The overrides given by the command-line options: `--font`, `--sound`
    /// (a sound file), and `--no-notification`, which turns notifications off
    /// (its absence leaves the saved setting).
    pub fn from_options(font: Option<String>, no_notification: bool, sound: Option<String>) -> (r:
        Overrides)
        ensures
            r@.font == text_option(font),
            r@.notification == (if no_notification {
                Some(false)
            } else {
                None::<bool>
            }),
            r@.sound == match sound {
                Some(path) => Some(SoundChoice::File(path@)),
                None => None::<SoundChoice>,
            },
    {
        Overrides {
            font,
            notification: if no_notification {
                Some(false)
            } else {
                None
            },
            sound: match sound {
                Some(path) => Some(SoundSetting::File(path)),
                None => None,
            },
        }
    }
}

pub open spec fn text_option(o: Option<String>) -> Option<Seq<char>> {
    match o {
        Some(s) => Some(s@),
        None => None,
    }
}

/// Each value from the overrides where given, otherwise the saved one.
pub open spec fn resolved(saved: ConfigView, overrides: OverridesView) -> ConfigView {
    ConfigView {
        font: match overrides.font {
            Some(f) => f,
            None => saved.font,
        },
        notification: match overrides.notification {
            Some(n) => n,
            None => saved.notification,
        },
        sound: match overrides.sound {
            Some(s) => s,
            None => saved.sound,
        },
    }
}

impl Config {
    /// This configuration with the given overrides applied.
    pub fn resolve(&self, overrides: Overrides) -> (r: Config)
        ensures
            r@ == resolved(self@, overrides@),
    {
        let font = match overrides.font {
            Some(f) => f,
            None => self.font.clone(),
        };
        let notification = match overrides.notification {
            Some(n) => n,
            None => self.notification,
        };
        let sound = match overrides.sound {
            Some(s) => s,
            None => self.sound.duplicate(),
        };
        Config { font, notification, sound }
    }
}

} // verus!

verus! {

/// Options given on the command line override the saved defaults: each
/// value given wins, and each value not given is the saved one.
pub proof fn law_command_line_overrides_saved(saved: ConfigView, overrides: OverridesView)
    ensures
        resolved(saved, overrides).font == (match overrides.font {
            Some(f) => f,
            None => saved.font,
        }),
        resolved(saved, overrides).notification == (match overrides.notification {
            Some(n) => n,
            None => saved.notification,
        }),
        resolved(saved, overrides).sound == (match overrides.sound {
            Some(s) => s,
            None => saved.sound,
        }),
{
}

/// With no options given, the saved defaults are used unchanged.
pub proof fn law_no_overrides_keep_saved(saved: ConfigView)
    ensures
        resolved(saved, OverridesView { font: None, notification: None, sound: None }) == saved,
{
}

} // verus!
