//! The active locale of the message catalogs.
use vstd::prelude::*;

use crate::desktop::opt_text;
use self::stored::{store, Stored};

mod stored;

verus! {

/// The locale that was activated, if any was. Nothing but
/// [`ActiveLocale::activate`] changes it.
#[derive(Debug)]
pub struct ActiveLocale {
    stored: Option<Stored>,
}

impl ActiveLocale {
    /// The locale that was activated last.
    pub closed spec fn active(self) -> Option<Seq<char>> {
        match self.stored {
            Some(stored) => Some(stored.locale()),
            None => None,
        }
    }

    /// Before any locale is activated: the catalogs serve the fallback.
    pub fn new() -> (r: Self)
        ensures
            r.active() is None,
    {
        ActiveLocale { stored: None }
    }

    /// The locale that was activated last.
    pub fn get(&self) -> (r: Option<&str>)
        ensures
            opt_text(r) == self.active(),
    {
        match &self.stored {
            Some(stored) => Some(stored.as_str()),
            None => None,
        }
    }

    /// Make `locale` the active locale of the catalogs.
    pub(crate) fn activate(&mut self, locale: &str)
        ensures
            final(self).active() == Some(locale@),
    {
        self.stored = Some(store(locale));
    }
}

} // verus!
