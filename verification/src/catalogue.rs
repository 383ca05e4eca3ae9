//! The catalogue entries this plugin advertises when it is initialised.
use vstd::prelude::*;

verus! {

/// The content type this plugin owns, as the pattern the plugin driver
/// matches incoming content types against. The driver anchors the value as a
/// regular expression at both ends, so the `+` of the `+json` suffix is
/// escaped to match literally.
pub const CONTENT_TYPE_PATTERN: &'static str = "application/mcp\\+json";

/// The kind of a catalogue entry.
#[derive(Debug, Clone, Copy, PartialEq, Eq, Structural)]
pub enum EntryType {
    ContentMatcher,
    ContentGenerator,
    Transport,
}

/// One catalogue entry: its kind, key and string values.
#[derive(Debug)]
pub struct CatalogueEntry {
    pub entry_type: EntryType,
    pub key: String,
    pub values: Vec<(String, String)>,
}

/// The model of a catalogue entry.
pub struct CatalogueEntryV {
    pub entry_type: EntryType,
    pub key: Seq<char>,
    pub values: Seq<(Seq<char>, Seq<char>)>,
}

impl View for CatalogueEntry {
    type V = CatalogueEntryV;

    open spec fn view(&self) -> CatalogueEntryV {
        CatalogueEntryV {
            entry_type: self.entry_type,
            key: self.key@,
            values: self.values@.map_values(|kv: (String, String)| (kv.0@, kv.1@)),
        }
    }
}

/// The content-type values of the `mcp` matcher and generator entries.
pub open spec fn content_values() -> Seq<(Seq<char>, Seq<char>)> {
    seq![("content-types"@, CONTENT_TYPE_PATTERN@)]
}

/// The advertised catalogue: a content matcher and a content generator keyed
/// `mcp` for the MCP content type, and the `mcp-stdio` transport.
pub open spec fn catalogue() -> Seq<CatalogueEntryV> {
    seq![
        CatalogueEntryV { entry_type: EntryType::ContentMatcher, key: "mcp"@, values: content_values() },
        CatalogueEntryV { entry_type: EntryType::ContentGenerator, key: "mcp"@, values: content_values() },
        CatalogueEntryV { entry_type: EntryType::Transport, key: "mcp-stdio"@, values: Seq::empty() },
    ]
}

fn content_values_exec() -> (r: Vec<(String, String)>)
    ensures
        r@.map_values(|kv: (String, String)| (kv.0@, kv.1@)) == content_values(),
{
    let mut v: Vec<(String, String)> = Vec::new();
    v.push((String::from_str("content-types"), String::from_str(CONTENT_TYPE_PATTERN)));
    assert(v@.map_values(|kv: (String, String)| (kv.0@, kv.1@)) =~= content_values());
    v
}

/// The catalogue entries advertised on initialisation (see `catalogue`).
pub fn entries() -> (r: Vec<CatalogueEntry>)
    ensures
        r@.map_values(|e: CatalogueEntry| e@) == catalogue(),
{
    let mut out: Vec<CatalogueEntry> = Vec::new();
    out.push(CatalogueEntry {
        entry_type: EntryType::ContentMatcher,
        key: String::from_str("mcp"),
        values: content_values_exec(),
    });
    out.push(CatalogueEntry {
        entry_type: EntryType::ContentGenerator,
        key: String::from_str("mcp"),
        values: content_values_exec(),
    });
    let no_values: Vec<(String, String)> = Vec::new();
    assert(no_values@.map_values(|kv: (String, String)| (kv.0@, kv.1@)) =~= Seq::<(Seq<char>, Seq<char>)>::empty());
    out.push(CatalogueEntry { entry_type: EntryType::Transport, key: String::from_str("mcp-stdio"), values: no_values });
    assert(out@.map_values(|e: CatalogueEntry| e@) =~= catalogue());
    out
}

} // verus!
