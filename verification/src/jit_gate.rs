use crate::text::{chars_of, same_text, starts_with};
use vstd::prelude::*;

verus! {

/// What decides whether the accelerated path may run. It is built once, when
/// the process starts, and handed to whoever asks.
pub struct JitConfig {
    /// Whether the accelerated path was compiled into this build.
    pub compiled: bool,
    /// The operator's switch, if one was set; the text `1` turns the path off.
    pub disable_flag: Option<String>,
    /// The license key, if one was supplied.
    pub license_key: Option<String>,
}

/// A character that may stand in a license key after its prefix.
pub open spec fn key_body_char(c: char) -> bool {
    ('A' <= c && c <= 'Z') || ('0' <= c && c <= '9') || c == '-'
}

/// A key is valid when it is one of the two development keys, or the prefix
/// `EROCK-PRO-` followed by 12 to 64 characters out of `A`-`Z`, `0`-`9`, `-`.
pub open spec fn valid_key(k: Seq<char>) -> bool {
    ||| k == "EROCK-PRO-DEV"@
    ||| k == "EROCK-PRO-TEST"@
    ||| {
        &&& "EROCK-PRO-"@.is_prefix_of(k)
        &&& 12 <= k.len() - "EROCK-PRO-"@.len() <= 64
        &&& forall|i: int| "EROCK-PRO-"@.len() <= i < k.len() ==> key_body_char(#[trigger] k[i])
    }
}

impl JitConfig {
    /// The switch is set to `1`.
    pub open spec fn disabled(&self) -> bool {
        self.disable_flag matches Some(flag) && flag@ == "1"@
    }

    /// A key is present and valid.
    pub open spec fn licensed(&self) -> bool {
        self.license_key matches Some(key) && valid_key(key@)
    }

    /// The path is compiled in, not switched off, and licensed.
    pub open spec fn enabled(&self) -> bool {
        self.compiled && !self.disabled() && self.licensed()
    }

    /// Why the path is in the state it is in; the first obstacle wins.
    pub open spec fn reason(&self) -> Seq<char> {
        if !self.compiled {
            "not-compiled"@
        } else if self.disabled() {
            "disabled-by-env"@
        } else if !self.licensed() {
            "no-or-invalid-license"@
        } else {
            "enabled"@
        }
    }
}

/// Whether the accelerated path was compiled into this build.
pub fn jit_available(config: &JitConfig) -> (available: bool)
    ensures
        available == config.compiled,
{
    config.compiled
}

/// Whether `k` is a valid license key.
pub fn is_valid_key(k: &str) -> (valid: bool)
    ensures
        valid == valid_key(k@),
{
    let key = chars_of(k);
    if same_text(&key, &chars_of("EROCK-PRO-DEV")) || same_text(&key, &chars_of("EROCK-PRO-TEST")) {
        return true;
    }
    let prefix = chars_of("EROCK-PRO-");
    if !starts_with(&key, &prefix) {
        return false;
    }
    let body_len = key.len() - prefix.len();
    if body_len < 12 || body_len > 64 {
        return false;
    }
    let mut i: usize = prefix.len();
    while i < key.len()
        invariant
            prefix.len() <= i <= key.len(),
            key@ == k@,
            prefix@ == "EROCK-PRO-"@,
            key@ != "EROCK-PRO-DEV"@,
            key@ != "EROCK-PRO-TEST"@,
            prefix@.is_prefix_of(key@),
            12 <= key.len() - prefix.len() <= 64,
            forall|j: int| prefix.len() <= j < i ==> key_body_char(#[trigger] key@[j]),
        decreases key.len() - i,
    {
        let c = key[i];
        let fits = ('A' <= c && c <= 'Z') || ('0' <= c && c <= '9') || c == '-';
        if !fits {
            assert(!key_body_char(key@[i as int]));
            return false;
        }
        i += 1;
    }
    true
}

/// Whether the configuration carries a valid license key.
pub fn license_valid(config: &JitConfig) -> (valid: bool)
    ensures
        valid == config.licensed(),
{
    match &config.license_key {
        Some(key) => is_valid_key(key.as_str()),
        None => false,
    }
}

/// Whether the operator switched the path off.
fn switched_off(config: &JitConfig) -> (off: bool)
    ensures
        off == config.disabled(),
{
    match &config.disable_flag {
        Some(flag) => same_text(&chars_of(flag.as_str()), &chars_of("1")),
        None => false,
    }
}

/// Whether the accelerated path may run now.
pub fn jit_enabled(config: &JitConfig) -> (enabled: bool)
    ensures
        enabled == config.enabled(),
{
    if !jit_available(config) {
        return false;
    }
    if switched_off(config) {
        return false;
    }
    license_valid(config)
}

/// The reason for the current state, as a short word.
pub fn jit_reason(config: &JitConfig) -> (reason: String)
    ensures
        reason@ == config.reason(),
{
    if !jit_available(config) {
        return "not-compiled".to_owned();
    }
    if switched_off(config) {
        return "disabled-by-env".to_owned();
    }
    if !license_valid(config) {
        return "no-or-invalid-license".to_owned();
    }
    "enabled".to_owned()
}

/// The three answers together, for a health report.
pub fn health_fields(config: &JitConfig) -> (fields: (bool, bool, String))
    ensures
        fields.0 == config.compiled,
        fields.1 == config.enabled(),
        fields.2@ == config.reason(),
{
    (jit_available(config), jit_enabled(config), jit_reason(config))
}

} // verus!
