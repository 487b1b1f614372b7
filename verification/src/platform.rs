//! The closed set of source platforms and of output formats.

use vstd::prelude::*;

verus! {

/// The four supported chat export sources.
///
/// Each owns its sniffing and extraction rules: a nested-JSON export, a
/// line-oriented text export, a flatter JSON export with different field
/// names, and a hybrid export whose concrete sub-format (JSON, line-oriented
/// text, or delimited text) is sniffed from content.
#[derive(Clone, Copy, Debug, PartialEq, Eq, Structural)]
pub enum Platform {
    Telegram,
    WhatsApp,
    Instagram,
    Discord,
}

impl Platform {
    /// The platform's display name.
    pub fn name(&self) -> (r: &'static str)
        ensures
            match *self {
                Platform::Telegram => r@ == "Telegram"@,
                Platform::WhatsApp => r@ == "WhatsApp"@,
                Platform::Instagram => r@ == "Instagram"@,
                Platform::Discord => r@ == "Discord"@,
            },
    {
        match self {
            Platform::Telegram => "Telegram",
            Platform::WhatsApp => "WhatsApp",
            Platform::Instagram => "Instagram",
            Platform::Discord => "Discord",
        }
    }
}

/// The three output serializers.
#[derive(Clone, Copy, Debug, PartialEq, Eq, Structural)]
pub enum Format {
    Csv,
    Json,
    Jsonl,
}

impl Format {
    /// The format's display name.
    pub fn name(&self) -> (r: &'static str)
        ensures
            match *self {
                Format::Csv => r@ == "CSV"@,
                Format::Json => r@ == "JSON"@,
                Format::Jsonl => r@ == "JSONL"@,
            },
    {
        match self {
            Format::Csv => "CSV",
            Format::Json => "JSON",
            Format::Jsonl => "JSONL",
        }
    }
}

} // verus!
