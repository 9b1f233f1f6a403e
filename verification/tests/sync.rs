use ogma_core::config::Config;
use ogma_core::sync::{enabled_destinations, Destination, SyncDestination};

/// Apple Notes exists on macOS only; these cases run as on any other
/// platform unless they say otherwise.
const NO_APPLE_NOTES: bool = false;

fn ids(ds: &[Destination]) -> Vec<&'static str> {
    ds.iter().map(|d| d.id()).collect()
}

#[test]
fn enabled_destinations_follow_config() {
    let mut config = Config::default();
    assert!(enabled_destinations(&config, NO_APPLE_NOTES).is_empty());

    config.markdown_dir = "/vault/meetings".into();
    assert_eq!(ids(&enabled_destinations(&config, NO_APPLE_NOTES)), vec!["markdown"]);

    config.notion_api_key = "secret".into();
    config.notion_database_id = "db".into();
    assert_eq!(ids(&enabled_destinations(&config, NO_APPLE_NOTES)), vec!["notion", "markdown"]);
}

#[test]
fn apple_notes_follows_toggle() {
    let config = Config {
        apple_notes_enabled: true,
        ..Config::default()
    };
    // As on macOS, where Apple Notes exists.
    assert_eq!(ids(&enabled_destinations(&config, true)), vec!["apple_notes"]);
}

#[test]
fn notion_needs_both_key_and_database() {
    let config = Config {
        notion_api_key: "secret".into(),
        ..Config::default()
    };
    assert!(enabled_destinations(&config, NO_APPLE_NOTES).is_empty());
}

#[test]
fn blank_markdown_dir_is_off_and_dir_is_trimmed() {
    let config = Config {
        markdown_dir: "   ".into(),
        ..Config::default()
    };
    assert!(enabled_destinations(&config, NO_APPLE_NOTES).is_empty());
    let config = Config {
        markdown_dir: "  /vault  ".into(),
        ..Config::default()
    };
    match &enabled_destinations(&config, NO_APPLE_NOTES)[..] {
        [Destination::Markdown(m)] => assert_eq!(m.dir, "/vault"),
        other => panic!("unexpected {other:?}"),
    }
}

#[test]
fn apple_notes_needs_the_platform() {
    let config = Config {
        apple_notes_enabled: true,
        ..Config::default()
    };
    assert!(enabled_destinations(&config, false).is_empty());
    let names: Vec<&str> = enabled_destinations(&config, true)
        .iter()
        .map(|d| d.display_name())
        .collect();
    assert_eq!(names, vec!["Apple Notes"]);
}
