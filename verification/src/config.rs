//! Daemon configuration: thresholds, popup settings and the active
//! locale, with the defaults the daemon starts from. Reading the
//! configuration file is the caller's business; the library works on
//! the parsed values.

use crate::charmap::LocaleMap;
use crate::text::str_eq;
use vstd::prelude::*;
use vstd::string::StringExecFns;

verus! {

/// General settings: the hold threshold and the master switch.
pub struct GeneralConfig {
    pub threshold_ms: u64,
    pub enabled: bool,
}

impl Default for GeneralConfig {
    /// 300 ms threshold, enabled.
    fn default() -> (r: GeneralConfig)
        ensures
            r.threshold_ms == 300,
            r.enabled,
    {
        GeneralConfig { threshold_ms: 300, enabled: true }
    }
}

/// Popup settings: font size, auto-dismiss timeout, and whether the
/// popup window stays mapped between uses.
pub struct PopupConfig {
    pub font_size: u32,
    pub timeout_ms: u64,
    pub keep_open: bool,
}

impl Default for PopupConfig {
    /// 24 pt font, 5000 ms timeout, window kept open.
    fn default() -> (r: PopupConfig)
        ensures
            r.font_size == 24,
            r.timeout_ms == 5000,
            r.keep_open,
    {
        PopupConfig { font_size: 24, timeout_ms: 5000, keep_open: true }
    }
}

/// Locale settings: the active locale name and any inline locale
/// tables carried in the configuration itself.
pub struct LocaleConfig {
    pub active: String,
    pub locales: Vec<(String, LocaleMap)>,
}

impl Default for LocaleConfig {
    /// Italian active, no inline tables.
    fn default() -> (r: LocaleConfig)
        ensures
            r.active@ == "it"@,
            r.locales@.len() == 0,
    {
        LocaleConfig { active: String::from_str("it"), locales: Vec::new() }
    }
}

/// The whole daemon configuration.
pub struct Config {
    pub general: GeneralConfig,
    pub popup: PopupConfig,
    pub locale: LocaleConfig,
}

impl Default for Config {
    /// All sections at their defaults.
    fn default() -> (r: Config)
        ensures
            r.general.threshold_ms == 300,
            r.general.enabled,
            r.popup.font_size == 24,
            r.popup.timeout_ms == 5000,
            r.popup.keep_open,
            r.locale.active@ == "it"@,
            r.locale.locales@.len() == 0,
    {
        Config {
            general: GeneralConfig::default(),
            popup: PopupConfig::default(),
            locale: LocaleConfig::default(),
        }
    }
}

/// The first inline locale table for `name` that is not empty, if any.
pub open spec fn spec_inline_locale(ls: Seq<(String, LocaleMap)>, name: Seq<char>) -> Option<
    Map<char, Seq<Seq<char>>>,
>
    decreases ls.len(),
{
    if ls.len() == 0 {
        None
    } else if ls[0].0@ == name && ls[0].1@.dom() != Set::<char>::empty() {
        Some(ls[0].1@)
    } else {
        spec_inline_locale(ls.drop_first(), name)
    }
}

impl Config {
    /// The inline locale table for the active locale, when the
    /// configuration carries a non-empty one. Looking for runtime
    /// locale files and falling back to the built-in tables is the
    /// caller's business.
    pub fn inline_locale(&self) -> (r: Option<&LocaleMap>)
        ensures
            match r {
                Some(m) => spec_inline_locale(self.locale.locales@, self.locale.active@) == Some(
                    m@,
                ),
                None => spec_inline_locale(self.locale.locales@, self.locale.active@) is None,
            },
    {
        let ls = &self.locale.locales;
        let n = ls.len();
        let mut i: usize = 0;
        proof {
            assert(ls@.skip(0) =~= ls@);
        }
        while i < n
            invariant
                ls@ == self.locale.locales@,
                n == ls@.len(),
                i <= n,
                spec_inline_locale(ls@, self.locale.active@) == spec_inline_locale(
                    ls@.skip(i as int),
                    self.locale.active@,
                ),
            decreases n - i,
        {
            proof {
                assert(ls@.skip(i as int)[0] == ls@[i as int]);
                assert(ls@.skip(i as int).drop_first() =~= ls@.skip(i as int + 1));
            }
            if str_eq(ls[i].0.as_str(), self.locale.active.as_str()) && !ls[i].1.is_empty() {
                proof {
                    assert(spec_inline_locale(ls@.skip(i as int), self.locale.active@) == Some(
                        ls@[i as int].1@,
                    ));
                }
                return Some(&ls[i].1);
            }
            i = i + 1;
        }
        None
    }
}

} // verus!
