//! Pluggable sync destinations.
//!
//! One meeting fans out to every enabled destination after notes exist. The
//! pipeline derives what is pending from the sync records (for each enabled
//! destination with no sync record, sync it), so a failing destination never
//! blocks the others and retries only redo what's missing.

pub mod apple_notes;
pub mod markdown;
pub mod render;

use vstd::prelude::*;

use crate::config::Config;
use crate::notion::NotionClient;
use crate::text::{chars_of, spec_trim, string_of, trim_str};

use self::apple_notes::AppleNotesDestination;
use self::markdown::MarkdownDestination;

verus! {

/// One sync target, known by a stable id.
pub trait SyncDestination {
    /// The id stored in the sync records.
    spec fn spec_id(&self) -> Seq<char>;

    /// Stable id stored in the sync records, e.g. "notion".
    fn id(&self) -> (r: &'static str)
        ensures
            r@ == self.spec_id(),
    ;

    /// Human-readable name for progress messages.
    fn display_name(&self) -> (r: &'static str);
}

impl SyncDestination for NotionClient {
    open spec fn spec_id(&self) -> Seq<char> {
        "notion"@
    }

    fn id(&self) -> (r: &'static str) {
        "notion"
    }

    fn display_name(&self) -> (r: &'static str)
        ensures
            r@ == "Notion"@,
    {
        "Notion"
    }
}

impl SyncDestination for MarkdownDestination {
    open spec fn spec_id(&self) -> Seq<char> {
        "markdown"@
    }

    fn id(&self) -> (r: &'static str) {
        "markdown"
    }

    fn display_name(&self) -> (r: &'static str)
        ensures
            r@ == "Markdown folder"@,
    {
        "Markdown folder"
    }
}

impl SyncDestination for AppleNotesDestination {
    open spec fn spec_id(&self) -> Seq<char> {
        "apple_notes"@
    }

    fn id(&self) -> (r: &'static str) {
        "apple_notes"
    }

    fn display_name(&self) -> (r: &'static str)
        ensures
            r@ == "Apple Notes"@,
    {
        "Apple Notes"
    }
}

/// An enabled destination with what it needs to sync.
#[derive(Debug, Clone)]
pub enum Destination {
    Notion(NotionClient),
    Markdown(MarkdownDestination),
    AppleNotes(AppleNotesDestination),
}

impl SyncDestination for Destination {
    open spec fn spec_id(&self) -> Seq<char> {
        match self {
            Destination::Notion(d) => d.spec_id(),
            Destination::Markdown(d) => d.spec_id(),
            Destination::AppleNotes(d) => d.spec_id(),
        }
    }

    fn id(&self) -> (r: &'static str) {
        match self {
            Destination::Notion(d) => d.id(),
            Destination::Markdown(d) => d.id(),
            Destination::AppleNotes(d) => d.id(),
        }
    }

    fn display_name(&self) -> (r: &'static str)
        ensures
            r@ == match self {
                Destination::Notion(_) => "Notion"@,
                Destination::Markdown(_) => "Markdown folder"@,
                Destination::AppleNotes(_) => "Apple Notes"@,
            },
    {
        match self {
            Destination::Notion(d) => d.display_name(),
            Destination::Markdown(d) => d.display_name(),
            Destination::AppleNotes(d) => d.display_name(),
        }
    }
}

/// What a destination is, as plain values.
pub ghost enum DestinationView {
    Notion { token: Seq<char>, database_id: Seq<char> },
    Markdown { dir: Seq<char> },
    AppleNotes,
}

impl View for Destination {
    type V = DestinationView;

    open spec fn view(&self) -> DestinationView {
        match self {
            Destination::Notion(d) => DestinationView::Notion {
                token: d.token@,
                database_id: d.database_id@,
            },
            Destination::Markdown(d) => DestinationView::Markdown { dir: d.dir@ },
            Destination::AppleNotes(_) => DestinationView::AppleNotes,
        }
    }
}

pub open spec fn destination_views(ds: Seq<Destination>) -> Seq<DestinationView> {
    ds.map_values(|d: Destination| d@)
}

/// The destinations a configuration turns on, in sync order: Notion (the
/// canonical cross-device store) when both its key and its database are
/// set, the Markdown folder (trimmed) when its directory is not blank, and
/// Apple Notes when enabled and available on this platform.
pub open spec fn spec_enabled(c: Config, apple_notes_available: bool) -> Seq<DestinationView> {
    (if c.notion_api_key@.len() > 0 && c.notion_database_id@.len() > 0 {
        seq![
            DestinationView::Notion {
                token: c.notion_api_key@,
                database_id: c.notion_database_id@,
            },
        ]
    } else {
        Seq::empty()
    }) + (if spec_trim(c.markdown_dir@).len() > 0 {
        seq![DestinationView::Markdown { dir: spec_trim(c.markdown_dir@) }]
    } else {
        Seq::empty()
    }) + (if c.apple_notes_enabled && apple_notes_available {
        seq![DestinationView::AppleNotes]
    } else {
        Seq::empty()
    })
}

/// The destinations the configuration turns on, in sync order, given
/// whether this platform has Apple Notes (macOS only; the caller knows its
/// platform).
pub fn enabled_destinations(config: &Config, apple_notes_available: bool) -> (r: Vec<
    Destination,
>)
    ensures
        destination_views(r@) == spec_enabled(*config, apple_notes_available),
{
    let mut out: Vec<Destination> = Vec::new();
    if !config.notion_api_key.as_str().is_empty() && !config.notion_database_id.as_str().is_empty() {
        out.push(
            Destination::Notion(
                NotionClient::new(config.notion_api_key.clone(), config.notion_database_id.clone()),
            ),
        );
    }
    let ghost first = destination_views(out@);
    let dir = trim_str(config.markdown_dir.as_str());
    if dir.len() > 0 {
        let d = string_of(dir.as_slice());
        out.push(Destination::Markdown(MarkdownDestination::new(d.as_str())));
    }
    let ghost second = destination_views(out@);
    if config.apple_notes_enabled && apple_notes_available {
        out.push(Destination::AppleNotes(AppleNotesDestination));
    }
    assert(destination_views(out@) =~= spec_enabled(*config, apple_notes_available));
    out
}

} // verus!
