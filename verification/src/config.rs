//! The settings that outlive a run of the program.

use vstd::prelude::*;

verus! {

/// A colour as red, green and blue.
pub type Rgb = [u8; 3];

/// The persisted settings: the twelve colours of a custom theme, or `None`
/// where the stock colours are in use.
pub struct Config {
    pub color_theme: Option<[Rgb; 12]>,
}

impl Default for Config {
    /// The settings of a first run: no custom theme.
    fn default() -> (cfg: Config)
        ensures
            cfg.color_theme is None,
    {
        Config { color_theme: None }
    }
}

impl Config {
    /// The settings to start with, given what loading them produced: the
    /// loaded settings, or the defaults where there were none to load or
    /// they could not be read.
    pub fn load_or_default(loaded: Option<Config>) -> (cfg: Config)
        ensures
            match loaded {
                Some(stored) => cfg == stored,
                None => cfg.color_theme is None,
            },
    {
        match loaded {
            Some(stored) => stored,
            None => Config::default(),
        }
    }

    /// Takes over the theme currently in use.
    pub fn set_color_theme(&mut self, theme: Option<[Rgb; 12]>)
        ensures
            final(self).color_theme == theme,
    {
        self.color_theme = theme;
    }
}

} // verus!
