//! The formats that a configuration is kept in.
use vstd::prelude::*;
use crate::text::str_eq;

verus! {

/// The format of a configuration: one JSON document, or a directory with
/// one document for each top-level key.
#[derive(Clone, Copy, Debug, PartialEq, Eq, Structural)]
pub enum ConfigFormat {
    Json,
    CosmicRon,
}

/// A word that names no format.
#[derive(Debug)]
pub struct UnknownFormat {
    /// The word that was given.
    pub word: String,
}

/// The format that a word names.
pub open spec fn format_of(s: Seq<char>) -> Option<ConfigFormat> {
    if s == "json"@ {
        Some(ConfigFormat::Json)
    } else if s == "cosmic_ron"@ {
        Some(ConfigFormat::CosmicRon)
    } else {
        None
    }
}

/// The word that names a format.
pub open spec fn format_word(f: ConfigFormat) -> Seq<char> {
    match f {
        ConfigFormat::Json => "json"@,
        ConfigFormat::CosmicRon => "cosmic_ron"@,
    }
}

impl ConfigFormat {
    /// The format that a word names: `json` or `cosmic_ron`.
    pub fn try_from(value: &str) -> (r: Result<ConfigFormat, UnknownFormat>)
        ensures
            match r {
                Ok(f) => format_of(value@) == Some(f),
                Err(e) => format_of(value@) is None && e.word@ == value@,
            },
    {
        if str_eq(value, "json") {
            Ok(ConfigFormat::Json)
        } else if str_eq(value, "cosmic_ron") {
            Ok(ConfigFormat::CosmicRon)
        } else {
            Err(UnknownFormat { word: value.to_owned() })
        }
    }

    /// The word that names the format.
    pub fn to_text(&self) -> (r: String)
        ensures
            r@ == format_word(*self),
    {
        match self {
            ConfigFormat::Json => "json".to_owned(),
            ConfigFormat::CosmicRon => "cosmic_ron".to_owned(),
        }
    }
}

/// Every format is named by its own word.
pub proof fn lemma_format_word_round_trip(f: ConfigFormat)
    ensures
        format_of(format_word(f)) == Some(f),
{
    reveal_strlit("json");
    reveal_strlit("cosmic_ron");
    if f == ConfigFormat::CosmicRon {
        assert("cosmic_ron"@.len() != "json"@.len());
    }
}

} // verus!
