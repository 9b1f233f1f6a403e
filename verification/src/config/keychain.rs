//! Secret storage for the three API keys where the platform has a native
//! keystore (Windows Credential Manager, macOS Keychain): the rules that
//! decide, from what each keystore call answered, which secrets stay in
//! `config.json`. The keystore calls themselves are left to the caller.
//! A key is never lost: a secret is blanked on disk only once the keystore
//! holds it (or it was empty and its entry is gone).

use vstd::prelude::*;

use crate::config::secrets::spec_has_plaintext_secret;
use crate::config::{copy_config, Config};
use crate::error::{Error, Result};
use crate::text::{chars_of, push_str, string_of};

verus! {

/// This build has a native keystore, so loading may migrate legacy
/// plaintext secrets into it.
pub const ENABLED: bool = true;

/// The keystore service the secrets are filed under.
pub const SERVICE: &'static str = "com.davidruiz.ogma";

/// The keystore accounts of the three secrets.
pub const OPENAI_ACCOUNT: &'static str = "openai_api_key";
pub const ANTHROPIC_ACCOUNT: &'static str = "anthropic_api_key";
pub const NOTION_ACCOUNT: &'static str = "notion_api_key";

/// A secret field after hydration: a non-empty value wins (legacy plaintext
/// configs); an empty one takes what the keystore holds, if anything.
pub fn fill_secret(current: String, stored: Option<String>) -> (r: String)
    ensures
        current@.len() > 0 ==> r == current,
        current@.len() == 0 ==> r == match stored {
            Some(v) => v,
            None => current,
        },
{
    if current.as_str().is_empty() {
        match stored {
            Some(v) => v,
            None => current,
        }
    } else {
        current
    }
}

/// Whether a field needs the keystore read at all: only an empty one does.
pub fn needs_keychain_read(current: &str) -> (b: bool)
    ensures
        b == (current@.len() == 0),
{
    current.is_empty()
}

/// Fill the empty secret fields from what the keystore holds.
pub fn hydrate(cfg: &mut Config, openai: Option<String>, anthropic: Option<String>, notion: Option<String>)
    ensures
        old(cfg).openai_api_key@.len() > 0 ==> final(cfg).openai_api_key == old(cfg).openai_api_key,
        old(cfg).anthropic_api_key@.len() > 0 ==> final(cfg).anthropic_api_key == old(
            cfg,
        ).anthropic_api_key,
        old(cfg).notion_api_key@.len() > 0 ==> final(cfg).notion_api_key == old(cfg).notion_api_key,
        old(cfg).openai_api_key@.len() == 0 && openai is Some ==> final(cfg).openai_api_key
            == openai->Some_0,
        old(cfg).anthropic_api_key@.len() == 0 && anthropic is Some ==> final(cfg).anthropic_api_key
            == anthropic->Some_0,
        old(cfg).notion_api_key@.len() == 0 && notion is Some ==> final(cfg).notion_api_key
            == notion->Some_0,
        old(cfg).openai_api_key@.len() == 0 && openai is None ==> final(cfg).openai_api_key
            == old(cfg).openai_api_key,
        old(cfg).anthropic_api_key@.len() == 0 && anthropic is None
            ==> final(cfg).anthropic_api_key == old(cfg).anthropic_api_key,
        old(cfg).notion_api_key@.len() == 0 && notion is None ==> final(cfg).notion_api_key
            == old(cfg).notion_api_key,
        final(cfg).notion_database_id == old(cfg).notion_database_id,
        final(cfg).markdown_dir == old(cfg).markdown_dir,
        final(cfg).apple_notes_enabled == old(cfg).apple_notes_enabled,
        final(cfg).notes_model == old(cfg).notes_model,
        final(cfg).whisper_model == old(cfg).whisper_model,
        final(cfg).language == old(cfg).language,
        final(cfg).input_device == old(cfg).input_device,
{
    let o = fill_secret(cfg.openai_api_key.clone(), openai);
    let a = fill_secret(cfg.anthropic_api_key.clone(), anthropic);
    let n = fill_secret(cfg.notion_api_key.clone(), notion);
    cfg.openai_api_key = o;
    cfg.anthropic_api_key = a;
    cfg.notion_api_key = n;
}

/// What a keystore call to store or remove one secret answered.
#[derive(Debug, Clone)]
pub enum KeychainWrite {
    /// The keystore could not be opened for this account.
    Unavailable,
    /// The call succeeded.
    Done,
    /// A removal found nothing to remove.
    NoEntry,
    /// The call failed, with the keystore's message.
    Failed(String),
}

/// Whether a secret may be blanked in `config.json` after storing (or, for
/// an empty value, removing) it: yes once the keystore holds it or its entry
/// is gone; no when a store failed (the value is kept in the file as a
/// fallback) or when no keystore was there for a non-empty value; and an
/// error when a removal failed, since the secret would otherwise survive in
/// the keystore and come back at the next hydration.
pub fn put_outcome(account: &str, value_empty: bool, answer: KeychainWrite) -> (r: Result<bool>)
    ensures
        match answer {
            KeychainWrite::Unavailable => r == Ok::<bool, Error>(value_empty),
            KeychainWrite::Done => r == Ok::<bool, Error>(true),
            KeychainWrite::NoEntry => r == Ok::<bool, Error>(value_empty),
            KeychainWrite::Failed(e) => if value_empty {
                r matches Err(Error::Config(m)) && m@ == "failed to remove "@ + account@
                    + " from the keychain: "@ + e@
            } else {
                r == Ok::<bool, Error>(false)
            },
        },
{
    match answer {
        KeychainWrite::Unavailable => Ok(value_empty),
        KeychainWrite::Done => Ok(true),
        KeychainWrite::NoEntry => Ok(value_empty),
        KeychainWrite::Failed(e) => {
            if value_empty {
                let mut m = chars_of("failed to remove ");
                push_str(&mut m, account);
                push_str(&mut m, " from the keychain: ");
                push_str(&mut m, e.as_str());
                Err(Error::Config(string_of(m.as_slice())))
            } else {
                Ok(false)
            }
        },
    }
}

/// The copy of the configuration safe to write to `config.json`: each
/// secret the keystore now holds blanked, every other field kept.
pub fn externalize(cfg: &Config, openai_stored: bool, anthropic_stored: bool, notion_stored: bool) -> (r: Config)
    ensures
        r.openai_api_key@ == (if openai_stored {
            Seq::empty()
        } else {
            cfg.openai_api_key@
        }),
        r.anthropic_api_key@ == (if anthropic_stored {
            Seq::empty()
        } else {
            cfg.anthropic_api_key@
        }),
        r.notion_api_key@ == (if notion_stored {
            Seq::empty()
        } else {
            cfg.notion_api_key@
        }),
        r.notion_database_id == cfg.notion_database_id,
        r.markdown_dir == cfg.markdown_dir,
        r.apple_notes_enabled == cfg.apple_notes_enabled,
        r.notes_model == cfg.notes_model,
        r.whisper_model == cfg.whisper_model,
        r.language == cfg.language,
        r.input_device == cfg.input_device,
{
    let mut out = copy_config(cfg);
    if openai_stored {
        out.openai_api_key = String::new();
    }
    if anthropic_stored {
        out.anthropic_api_key = String::new();
    }
    if notion_stored {
        out.notion_api_key = String::new();
    }
    out
}

/// Whether loading should move plaintext secrets into the keystore right
/// away: with a keystore here, whenever the file still carries one.
pub fn should_migrate(on_disk: &Config) -> (b: bool)
    ensures
        b == (ENABLED && spec_has_plaintext_secret(*on_disk)),
{
    let has_plaintext = !on_disk.openai_api_key.as_str().is_empty()
        || !on_disk.anthropic_api_key.as_str().is_empty()
        || !on_disk.notion_api_key.as_str().is_empty();
    has_plaintext && ENABLED
}

} // verus!
