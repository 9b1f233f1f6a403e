//! Secret storage for the three API keys on a target with no native
//! keystore: the secrets stay in `config.json`, so no key is ever lost.

use vstd::prelude::*;

use crate::config::{copy_config, Config};
use crate::error::Result;

verus! {

/// No native keystore on this target, so there is nothing to migrate into.
pub const ENABLED: bool = false;

/// Fill empty secret fields from the keystore: with none, nothing changes.
pub fn hydrate(cfg: &mut Config)
    ensures
        *final(cfg) == *old(cfg),
{
}

/// The copy of the configuration that is safe to write to `config.json`:
/// with no keystore to move secrets into, every secret stays in it.
pub fn externalize(cfg: &Config) -> (r: Result<Config>)
    ensures
        r matches Ok(c) && c == *cfg,
{
    Ok(copy_config(cfg))
}

/// A configuration read from `config.json` still carries a secret in plain
/// text (written before the keystore took them).
pub open spec fn spec_has_plaintext_secret(c: Config) -> bool {
    c.openai_api_key@.len() > 0 || c.anthropic_api_key@.len() > 0 || c.notion_api_key@.len() > 0
}

/// Whether loading should move plaintext secrets into the keystore right
/// away: only when there is plaintext to move and a keystore to move it into.
pub fn should_migrate(on_disk: &Config) -> (b: bool)
    ensures
        b == (ENABLED && spec_has_plaintext_secret(*on_disk)),
{
    let has_plaintext = !on_disk.openai_api_key.as_str().is_empty()
        || !on_disk.anthropic_api_key.as_str().is_empty()
        || !on_disk.notion_api_key.as_str().is_empty();
    has_plaintext && ENABLED
}

} // verus!
