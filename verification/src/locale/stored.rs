//! The locale that the message catalogs were told to use.
use vstd::prelude::*;

verus! {

/// A text that was handed to the catalogs as their locale. Nothing but [`store`]
/// makes one.
#[derive(Debug)]
pub(super) struct Stored {
    text: String,
}

impl Stored {
    /// The text.
    pub(super) closed spec fn locale(self) -> Seq<char> {
        self.text@
    }

    /// The text.
    pub(super) fn as_str(&self) -> (r: &str)
        ensures
            r@ == self.locale(),
    {
        self.text.as_str()
    }
}

/// Hand `locale` to the catalogs.
///
/// `rust_i18n::set_locale` stores the text it is given as the locale of the
/// whole process. The contract says that what comes back is the text that was
/// handed to it.
#[verifier::external_body]
pub(super) fn store(locale: &str) -> (r: Stored)
    ensures
        r.locale() == locale@,
{
    rust_i18n::set_locale(locale);
    Stored { text: String::from(locale) }
}

} // verus!
