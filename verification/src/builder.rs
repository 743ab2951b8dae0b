//! Kalid strings with an optional prefix and separator.
use vstd::prelude::*;
use vstd::string::StringExecFns;
use crate::kalid::{kalid_chars, lemma_kalid_chars_utf8, Kalid};

verus! {

/// A builder's settings: the prefix, if any, and the separator, if any.
pub type BuilderConfig = (Option<Seq<char>>, Option<char>);

/// A fresh builder: no prefix, separator `_`.
pub open spec fn default_config() -> BuilderConfig {
    (None, Some('_'))
}

/// The text a builder with settings `config` makes of the kalid text `base`:
/// the prefix, then the separator, then `base`; with no prefix, `base` alone.
pub open spec fn formatted(config: BuilderConfig, base: Seq<char>) -> Seq<char> {
    match config.0 {
        None => base,
        Some(p) => match config.1 {
            Some(c) => p + seq![c] + base,
            None => p + base,
        },
    }
}

/// A builder's text is the whole prefix as given, then the separator, then
/// the kalid: whatever the prefix's length, it appears unchanged in front,
/// the separator right after it (none with `no_separator`), and the 16
/// kalid characters at the end. Without a prefix the text is the kalid alone.
pub proof fn lemma_formatted_keeps_prefix(p: Seq<char>, sep: Option<char>, ms: i64)
    ensures
        ({
            let out = formatted((Some(p), sep), kalid_chars(ms));
            let n = p.len() + if sep is Some { 1int } else { 0int };
            &&& out.len() == n + 16
            &&& out.subrange(0, p.len() as int) == p
            &&& (sep matches Some(c) ==> out[p.len() as int] == c)
            &&& out.subrange(n, out.len() as int) == kalid_chars(ms)
        }),
        formatted((None, sep), kalid_chars(ms)) == kalid_chars(ms),
{
    lemma_kalid_chars_utf8(ms);
    let out = formatted((Some(p), sep), kalid_chars(ms));
    let n = p.len() + if sep is Some { 1int } else { 0int };
    assert(out.subrange(0, p.len() as int) =~= p);
    assert(out.subrange(n, out.len() as int) =~= kalid_chars(ms));
}

/// `String::push`: appends the character `c`.
#[verifier::external_body]
fn push_char(s: &mut String, c: char)
    ensures
        final(s)@ == old(s)@.push(c),
{
    s.push(c);
}

/// Configurable builder for kalid strings with an optional prefix.
///
/// Default separator is `_` (URL-safe). Use [`no_separator`](KalidBuilder::no_separator)
/// to remove it, or [`separator`](KalidBuilder::separator) to customise.
#[derive(Debug, Clone)]
pub struct KalidBuilder {
    prefix: Option<String>,
    separator: Option<char>,
}

impl View for KalidBuilder {
    type V = BuilderConfig;

    closed spec fn view(&self) -> BuilderConfig {
        (
            match self.prefix {
                Some(p) => Some(p@),
                None => None,
            },
            self.separator,
        )
    }
}

impl KalidBuilder {
    pub(crate) fn new() -> (b: Self)
        ensures
            b@ == default_config(),
    {
        KalidBuilder { prefix: None, separator: Some('_') }
    }

    /// Set the prefix string.
    pub fn prefix(self, s: &str) -> (b: Self)
        ensures
            b@ == (Some(s@), self@.1),
    {
        let mut b = self;
        b.prefix = Some(s.to_owned());
        b
    }

    /// Set a custom separator (default `_`). Recommended: URL-safe chars `- . _ ~`.
    pub fn separator(self, c: char) -> (b: Self)
        ensures
            b@ == (self@.0, Some(c)),
    {
        let mut b = self;
        b.separator = Some(c);
        b
    }

    /// Remove separator: the prefix is prepended directly.
    pub fn no_separator(self) -> (b: Self)
        ensures
            b@ == (self@.0, None::<char>),
    {
        let mut b = self;
        b.separator = None;
        b
    }

    /// Generate a kalid from the current system time with this config.
    pub fn build(&self) -> (s: String)
        ensures
            exists|ms: i64| s@ == formatted(self@, kalid_chars(ms)),
    {
        let k = Kalid::new();
        self.format(&k)
    }

    /// Format an existing `Kalid` with this config.
    pub fn build_from(&self, kalid: &Kalid) -> (s: String)
        ensures
            s@ == formatted(self@, kalid_chars(kalid@)),
    {
        self.format(kalid)
    }

    fn format(&self, kalid: &Kalid) -> (s: String)
        ensures
            s@ == formatted(self@, kalid_chars(kalid@)),
    {
        let base = kalid.as_string();
        match (&self.prefix, &self.separator) {
            (Some(p), Some(c)) => {
                let mut out = p.clone();
                push_char(&mut out, *c);
                out.append(base.as_str());
                out
            },
            (Some(p), None) => {
                let mut out = p.clone();
                out.append(base.as_str());
                out
            },
            (None, _) => base,
        }
    }
}

impl Default for KalidBuilder {
    /// A builder with no prefix and separator `_`.
    fn default() -> (b: Self)
        ensures
            b@ == default_config(),
    {
        Self::new()
    }
}

} // verus!
