//! User settings, persisted as JSON in the app data dir.
//!
//! The three API secrets (OpenAI / Anthropic / Notion) are kept out of the
//! JSON where the platform has a native keystore; elsewhere they stay in the
//! JSON so keys are never lost. See the `secrets` module.

pub mod keychain;
pub mod secrets;

use vstd::prelude::*;

use crate::text::{chars_of, push_str, string_of, ends_with, ends_with_exec};

verus! {

/// User settings.
#[derive(Debug, Clone)]
pub struct Config {
    pub openai_api_key: String,
    pub anthropic_api_key: String,
    pub notion_api_key: String,
    /// Data-source/database that meeting pages get created in.
    pub notion_database_id: String,
    /// Folder the Markdown destination writes one `.md` per meeting into
    /// (e.g. an Obsidian vault folder). Empty = destination disabled.
    pub markdown_dir: String,
    /// Create a note per meeting in Apple Notes (only macOS builds act on it).
    pub apple_notes_enabled: bool,
    pub notes_model: String,
    pub whisper_model: String,
    /// Optional language hint for speech-to-text (e.g. "en"). Empty = auto.
    pub language: String,
    /// Name of the microphone to record from. Empty = host default.
    pub input_device: String,
}

/// Every text field empty and Apple Notes off.
pub open spec fn is_blank_config(c: Config) -> bool {
    &&& c.openai_api_key@.len() == 0
    &&& c.anthropic_api_key@.len() == 0
    &&& c.notion_api_key@.len() == 0
    &&& c.notion_database_id@.len() == 0
    &&& c.markdown_dir@.len() == 0
    &&& !c.apple_notes_enabled
    &&& c.notes_model@.len() == 0
    &&& c.whisper_model@.len() == 0
    &&& c.language@.len() == 0
    &&& c.input_device@.len() == 0
}

impl Default for Config {
    fn default() -> (r: Config)
        ensures
            is_blank_config(r),
    {
        Config {
            openai_api_key: String::new(),
            anthropic_api_key: String::new(),
            notion_api_key: String::new(),
            notion_database_id: String::new(),
            markdown_dir: String::new(),
            apple_notes_enabled: false,
            notes_model: String::new(),
            whisper_model: String::new(),
            language: String::new(),
            input_device: String::new(),
        }
    }
}

/// A field-by-field copy of a configuration.
pub fn copy_config(c: &Config) -> (r: Config)
    ensures
        r == *c,
{
    Config {
        openai_api_key: c.openai_api_key.clone(),
        anthropic_api_key: c.anthropic_api_key.clone(),
        notion_api_key: c.notion_api_key.clone(),
        notion_database_id: c.notion_database_id.clone(),
        markdown_dir: c.markdown_dir.clone(),
        apple_notes_enabled: c.apple_notes_enabled,
        notes_model: c.notes_model.clone(),
        whisper_model: c.whisper_model.clone(),
        language: c.language.clone(),
        input_device: c.input_device.clone(),
    }
}

/// The speech-to-text model used when none is configured.
pub const DEFAULT_WHISPER_MODEL: &'static str = "whisper-1";

/// `Path::join` of a relative name onto a directory: the name alone under
/// an empty directory, else the two joined by exactly one `/`.
pub open spec fn spec_join_path(dir: Seq<char>, name: Seq<char>) -> Seq<char> {
    if dir.len() == 0 {
        name
    } else if ends_with(dir, "/"@) {
        dir + name
    } else {
        dir + "/"@ + name
    }
}

/// A relative `name` joined onto `dir`.
pub fn join_path(dir: &str, name: &str) -> (r: String)
    ensures
        r@ == spec_join_path(dir@, name@),
{
    let mut out = chars_of(dir);
    if out.len() == 0 {
        return string_of(chars_of(name).as_slice());
    }
    let slash = ['/'];
    proof {
        reveal_strlit("/");
    }
    assert(slash@ =~= "/"@);
    if !ends_with_exec(out.as_slice(), &slash) {
        out.push('/');
    }
    push_str(&mut out, name);
    assert(out@ =~= spec_join_path(dir@, name@));
    string_of(out.as_slice())
}

impl Config {
    /// `config.json` inside the data dir.
    pub fn config_path(data_dir: &str) -> (r: String)
        ensures
            r@ == spec_join_path(data_dir@, "config.json"@),
    {
        join_path(data_dir, "config.json")
    }

    /// Fill in the default notes and speech-to-text models where empty; the
    /// default notes model is the caller's to name.
    pub fn with_defaults(cfg: Config, default_notes_model: &str) -> (r: Config)
        ensures
            r.notes_model@ == (if cfg.notes_model@.len() == 0 {
                default_notes_model@
            } else {
                cfg.notes_model@
            }),
            r.whisper_model@ == (if cfg.whisper_model@.len() == 0 {
                DEFAULT_WHISPER_MODEL@
            } else {
                cfg.whisper_model@
            }),
            r.openai_api_key == cfg.openai_api_key,
            r.anthropic_api_key == cfg.anthropic_api_key,
            r.notion_api_key == cfg.notion_api_key,
            r.notion_database_id == cfg.notion_database_id,
            r.markdown_dir == cfg.markdown_dir,
            r.apple_notes_enabled == cfg.apple_notes_enabled,
            r.language == cfg.language,
            r.input_device == cfg.input_device,
    {
        let mut cfg = cfg;
        if cfg.notes_model.as_str().is_empty() {
            cfg.notes_model = string_of(chars_of(default_notes_model).as_slice());
        }
        if cfg.whisper_model.as_str().is_empty() {
            cfg.whisper_model = string_of(chars_of(DEFAULT_WHISPER_MODEL).as_slice());
        }
        cfg
    }
}

} // verus!
