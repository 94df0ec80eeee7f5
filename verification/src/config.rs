//! Bot-wide settings, per-server settings, and the sanctions they choose from.
use vstd::prelude::*;

use crate::text;

verus! {

/// Bot-wide settings, as `config.toml` holds them.
#[derive(Debug, Clone)]
pub struct Config {
    pub bot: BotConfig,
    pub moderation: ModerationConfig,
    pub detection: DetectionConfig,
    pub flood: FloodConfig,
    pub links: LinksConfig,
    pub ocr: OcrConfig,
    pub storage: StorageConfig,
}

/// The command prefix, and the bot-wide log channel and moderator roles that a
/// file may still name. Each server's own settings decide in their place.
#[derive(Debug, Clone)]
pub struct BotConfig {
    pub prefix: String,
    pub log_channel_id: u64,
    pub mod_role_ids: Vec<u64>,
}

/// What is done about a detected scam.
#[derive(Debug, Clone, Copy, PartialEq, Eq, Structural)]
pub enum Action {
    LogOnly,
    DeleteOnly,
    DeleteTimeout,
    DeleteKick,
    DeleteBan,
}

/// Bot-wide moderation defaults that a file may still name. Each server's own
/// settings decide in their place.
#[derive(Debug, Clone)]
pub struct ModerationConfig {
    pub action: Action,
    pub timeout_minutes: u64,
    pub exempt_role_ids: Vec<u64>,
    pub exempt_channel_ids: Vec<u64>,
}

#[derive(Debug, Clone)]
pub struct DetectionConfig {
    pub reference_dir: String,
    /// Hamming distance below which a posted image counts as a known reference.
    pub match_threshold: u32,
    /// How long an image that triggered nothing is remembered.
    pub retro_scan_minutes: u64,
}

#[derive(Debug, Clone)]
pub struct FloodConfig {
    pub enabled: bool,
    pub min_channels: usize,
    pub window_seconds: u64,
    pub same_image_threshold: u32,
}

#[derive(Debug, Clone)]
pub struct LinksConfig {
    pub enabled: bool,
    pub allowed_hosts: Vec<String>,
}

#[derive(Debug, Clone)]
pub struct StorageConfig {
    pub database_path: String,
}

/// A phrase and what finding it in an image's text adds to the score.
#[derive(Debug, Clone)]
pub struct OcrRule {
    pub pattern: String,
    pub weight: u32,
}

#[derive(Debug, Clone)]
pub struct OcrConfig {
    pub enabled: bool,
    pub tesseract_path: String,
    pub languages: String,
    pub timeout_seconds: u64,
    pub max_dimension: u32,
    pub score_threshold: u32,
    pub max_concurrent: usize,
    /// Empty means the built-in phrases.
    pub rules: Vec<OcrRule>,
}

/// One server's own settings.
#[derive(Debug, Clone, PartialEq, Eq)]
pub struct GuildConfig {
    /// Where detections are logged; 0 means nowhere.
    pub log_channel_id: u64,
    pub action: Action,
    pub timeout_minutes: u64,
    pub mod_role_ids: Vec<u64>,
    pub exempt_role_ids: Vec<u64>,
    pub exempt_channel_ids: Vec<u64>,
}

/// What a [`GuildConfig`] says.
#[verifier::ext_equal]
pub struct GuildSettings {
    pub log_channel_id: u64,
    pub action: Action,
    pub timeout_minutes: u64,
    pub mod_role_ids: Seq<u64>,
    pub exempt_role_ids: Seq<u64>,
    pub exempt_channel_ids: Seq<u64>,
}

impl View for GuildConfig {
    type V = GuildSettings;

    open spec fn view(&self) -> GuildSettings {
        GuildSettings {
            log_channel_id: self.log_channel_id,
            action: self.action,
            timeout_minutes: self.timeout_minutes,
            mod_role_ids: self.mod_role_ids@,
            exempt_role_ids: self.exempt_role_ids@,
            exempt_channel_ids: self.exempt_channel_ids@,
        }
    }
}

/// The timeout that applies until a server sets its own.
pub const DEFAULT_TIMEOUT_MINUTES: u64 = 60;

/// The settings of a server that never changed any.
pub open spec fn default_settings() -> GuildSettings {
    GuildSettings {
        log_channel_id: 0,
        action: Action::DeleteTimeout,
        timeout_minutes: DEFAULT_TIMEOUT_MINUTES,
        mod_role_ids: Seq::empty(),
        exempt_role_ids: Seq::empty(),
        exempt_channel_ids: Seq::empty(),
    }
}

impl Default for GuildConfig {
    fn default() -> (r: Self)
        ensures
            r@ == default_settings(),
    {
        let r = GuildConfig {
            log_channel_id: 0,
            action: Action::DeleteTimeout,
            timeout_minutes: DEFAULT_TIMEOUT_MINUTES,
            mod_role_ids: Vec::new(),
            exempt_role_ids: Vec::new(),
            exempt_channel_ids: Vec::new(),
        };
        assert(r@ =~= default_settings());
        r
    }
}

/// The score that makes a detection until a file names another.
pub const DEFAULT_SCORE_THRESHOLD: u32 = 6;

impl Default for OcrConfig {
    fn default() -> (r: Self)
        ensures
            r.enabled,
            r.tesseract_path@ == "tesseract"@,
            r.languages@ == "eng+rus"@,
            r.timeout_seconds == 15,
            r.max_dimension == 2000,
            r.score_threshold == DEFAULT_SCORE_THRESHOLD,
            r.max_concurrent == 2,
            r.rules@.len() == 0,
    {
        OcrConfig {
            enabled: true,
            tesseract_path: "tesseract".to_owned(),
            languages: "eng+rus".to_owned(),
            timeout_seconds: 15,
            max_dimension: 2000,
            score_threshold: DEFAULT_SCORE_THRESHOLD,
            max_concurrent: 2,
            rules: Vec::new(),
        }
    }
}

/// The name of an action in settings and in `/config`.
pub open spec fn action_name(action: Action) -> Seq<char> {
    match action {
        Action::LogOnly => "log_only"@,
        Action::DeleteOnly => "delete_only"@,
        Action::DeleteTimeout => "delete_timeout"@,
        Action::DeleteKick => "delete_kick"@,
        Action::DeleteBan => "delete_ban"@,
    }
}

/// The action with this name.
pub open spec fn action_named(name: Seq<char>) -> Option<Action> {
    if name == action_name(Action::LogOnly) {
        Some(Action::LogOnly)
    } else if name == action_name(Action::DeleteOnly) {
        Some(Action::DeleteOnly)
    } else if name == action_name(Action::DeleteTimeout) {
        Some(Action::DeleteTimeout)
    } else if name == action_name(Action::DeleteKick) {
        Some(Action::DeleteKick)
    } else if name == action_name(Action::DeleteBan) {
        Some(Action::DeleteBan)
    } else {
        None
    }
}

impl Action {
    /// The action's name in `config.toml`, in the database and in `/config`.
    pub fn as_toml_str(&self) -> (r: &'static str)
        ensures
            r@ == action_name(*self),
    {
        match self {
            Action::LogOnly => "log_only",
            Action::DeleteOnly => "delete_only",
            Action::DeleteTimeout => "delete_timeout",
            Action::DeleteKick => "delete_kick",
            Action::DeleteBan => "delete_ban",
        }
    }

    /// The action with this name, if there is one.
    pub fn from_toml_str(s: &str) -> (r: Option<Action>)
        ensures
            r == action_named(s@),
    {
        if text::same_text(s, Action::LogOnly.as_toml_str()) {
            Some(Action::LogOnly)
        } else if text::same_text(s, Action::DeleteOnly.as_toml_str()) {
            Some(Action::DeleteOnly)
        } else if text::same_text(s, Action::DeleteTimeout.as_toml_str()) {
            Some(Action::DeleteTimeout)
        } else if text::same_text(s, Action::DeleteKick.as_toml_str()) {
            Some(Action::DeleteKick)
        } else if text::same_text(s, Action::DeleteBan.as_toml_str()) {
            Some(Action::DeleteBan)
        } else {
            None
        }
    }
}

/// Every action is found again under its own name.
pub proof fn action_names_read_back(action: Action)
    ensures
        action_named(action_name(action)) == Some(action),
{
    reveal_strlit("log_only");
    reveal_strlit("delete_only");
    reveal_strlit("delete_timeout");
    reveal_strlit("delete_kick");
    reveal_strlit("delete_ban");
    assert("delete_only"@[7] != "delete_timeout"@[7]);
    assert("delete_only"@[7] != "delete_kick"@[7]);
    assert("delete_only"@.len() != "delete_ban"@.len());
}

/// A server that never set anything has detections deleted and their authors timed out
/// for an hour, and logs nowhere. No role and no channel is special there.
pub proof fn servers_start_with_these_settings()
    ensures
        default_settings().action is DeleteTimeout,
        default_settings().timeout_minutes == 60,
        default_settings().log_channel_id == 0,
        default_settings().mod_role_ids.len() == 0,
        default_settings().exempt_role_ids.len() == 0,
        default_settings().exempt_channel_ids.len() == 0,
        DEFAULT_SCORE_THRESHOLD == 6,
{
}

/// Actions are told apart by their names, and a name that no action has stands for none.
pub proof fn names_stand_for_their_action(name: Seq<char>, action: Action)
    ensures
        action_named(name) == Some(action) ==> name == action_name(action),
        action_name(Action::LogOnly) == "log_only"@,
        action_name(Action::DeleteOnly) == "delete_only"@,
        action_name(Action::DeleteTimeout) == "delete_timeout"@,
        action_name(Action::DeleteKick) == "delete_kick"@,
        action_name(Action::DeleteBan) == "delete_ban"@,
        name != "log_only"@ && name != "delete_only"@ && name != "delete_timeout"@ && name
            != "delete_kick"@ && name != "delete_ban"@ ==> action_named(name) is None,
{
}

} // verus!
