//! Each server's settings, as rows of text.
use vstd::prelude::*;

use crate::config::{
    action_name, action_named, action_names_read_back, default_settings, Action, GuildConfig,
    GuildSettings,
};
use crate::lists::has_value;
use crate::rows::{signed, signed_value};
use crate::text::{
    decimal, decimal_is_digits, decimal_reads_back, decimal_text, is_digit, join, joined,
    numerals_differ, parse_u64, parsed_u64, same_text, split, split_on, split_undoes_join, texts,
};

verus! {

/// A server's settings as they are stored. Ids are decimal text, lists of ids are
/// joined by commas, and the action is held by its name.
#[derive(Debug)]
pub struct SettingsRow {
    pub guild_id: String,
    pub log_channel_id: String,
    pub action: String,
    pub timeout_minutes: i64,
    pub mod_role_ids: String,
    pub exempt_role_ids: String,
    pub exempt_channel_ids: String,
}

/// The contents of a [`SettingsRow`].
#[verifier::ext_equal]
pub struct StoredSettings {
    pub guild_id: Seq<char>,
    pub log_channel_id: Seq<char>,
    pub action: Seq<char>,
    pub timeout_minutes: i64,
    pub mod_role_ids: Seq<char>,
    pub exempt_role_ids: Seq<char>,
    pub exempt_channel_ids: Seq<char>,
}

impl View for SettingsRow {
    type V = StoredSettings;

    open spec fn view(&self) -> StoredSettings {
        StoredSettings {
            guild_id: self.guild_id@,
            log_channel_id: self.log_channel_id@,
            action: self.action@,
            timeout_minutes: self.timeout_minutes,
            mod_role_ids: self.mod_role_ids@,
            exempt_role_ids: self.exempt_role_ids@,
            exempt_channel_ids: self.exempt_channel_ids@,
        }
    }
}

/// The decimal numerals of a list of ids.
pub open spec fn numerals(ids: Seq<u64>) -> Seq<Seq<char>> {
    ids.map_values(|id: u64| decimal(id as nat))
}

/// A list of ids as text.
pub open spec fn ids_text(ids: Seq<u64>) -> Seq<char> {
    joined(numerals(ids), seq![','])
}

/// The numbers among a list of texts.
pub open spec fn numbers_among(parts: Seq<Seq<char>>) -> Seq<u64>
    decreases parts.len(),
{
    if parts.len() == 0 {
        Seq::empty()
    } else {
        let init = numbers_among(parts.drop_last());
        match parsed_u64(parts.last()) {
            Some(id) => init.push(id),
            None => init,
        }
    }
}

/// The ids in a text: the pieces between its commas that are numbers.
pub open spec fn ids_in(text: Seq<char>) -> Seq<u64> {
    numbers_among(split_on(text, ','))
}

/// A list without a value.
pub open spec fn without_value(ids: Seq<u64>, value: u64) -> Seq<u64>
    decreases ids.len(),
{
    if ids.len() == 0 {
        ids
    } else {
        let init = without_value(ids.drop_last(), value);
        if ids.last() == value {
            init
        } else {
            init.push(ids.last())
        }
    }
}

/// A list with a value at its end, unless it is there already.
pub open spec fn with_value(ids: Seq<u64>, value: u64) -> Seq<u64> {
    if ids.contains(value) {
        ids
    } else {
        ids.push(value)
    }
}

/// What a row says. A field that says nothing readable counts as its default.
pub open spec fn read_settings(row: StoredSettings) -> GuildSettings {
    GuildSettings {
        log_channel_id: match parsed_u64(row.log_channel_id) {
            Some(id) => id,
            None => default_settings().log_channel_id,
        },
        action: match action_named(row.action) {
            Some(action) => action,
            None => default_settings().action,
        },
        timeout_minutes: if row.timeout_minutes >= 0 {
            row.timeout_minutes as u64
        } else {
            default_settings().timeout_minutes
        },
        mod_role_ids: ids_in(row.mod_role_ids),
        exempt_role_ids: ids_in(row.exempt_role_ids),
        exempt_channel_ids: ids_in(row.exempt_channel_ids),
    }
}

/// The row that holds a server's settings.
pub open spec fn written_settings(guild: u64, cfg: GuildSettings) -> StoredSettings {
    StoredSettings {
        guild_id: decimal(guild as nat),
        log_channel_id: decimal(cfg.log_channel_id as nat),
        action: action_name(cfg.action),
        timeout_minutes: signed_value(cfg.timeout_minutes) as i64,
        mod_role_ids: ids_text(cfg.mod_role_ids),
        exempt_role_ids: ids_text(cfg.exempt_role_ids),
        exempt_channel_ids: ids_text(cfg.exempt_channel_ids),
    }
}

/// The position of the first row of a server, or the number of rows.
pub open spec fn row_index(rows: Seq<StoredSettings>, key: Seq<char>) -> int
    decreases rows.len(),
{
    if rows.len() == 0 || rows[0].guild_id == key {
        0
    } else {
        1 + row_index(rows.drop_first(), key)
    }
}

/// A server's settings, or the defaults where it has no row.
pub open spec fn settings_of(rows: Seq<StoredSettings>, guild: u64) -> GuildSettings {
    let at = row_index(rows, decimal(guild as nat));
    if at < rows.len() {
        read_settings(rows[at])
    } else {
        default_settings()
    }
}

/// The rows with a server's settings written over its row, or added.
pub open spec fn with_settings(rows: Seq<StoredSettings>, guild: u64, cfg: GuildSettings) -> Seq<
    StoredSettings,
> {
    let at = row_index(rows, decimal(guild as nat));
    if at < rows.len() {
        rows.update(at, written_settings(guild, cfg))
    } else {
        rows.push(written_settings(guild, cfg))
    }
}

/// A list of ids as text.
pub fn format_ids(ids: &[u64]) -> (r: String)
    ensures
        r@ == ids_text(ids@),
{
    let mut parts: Vec<String> = Vec::new();
    assert(texts(parts@) =~= numerals(ids@.take(0)));
    for i in 0..ids.len()
        invariant
            texts(parts@) == numerals(ids@.take(i as int)),
    {
        let ghost before = texts(parts@);
        let text = decimal_text(ids[i]);
        parts.push(text);
        assert(texts(parts@) =~= before.push(text@));
        assert(numerals(ids@.take(i + 1)) =~= numerals(ids@.take(i as int)).push(text@));
    }
    assert(ids@.take(ids@.len() as int) =~= ids@);
    proof {
        reveal_strlit(",");
        assert(","@ =~= seq![',']);
    }
    join(parts.as_slice(), ",")
}

/// The ids in a text: the pieces between its commas that are numbers.
pub fn parse_ids(s: &str) -> (r: Vec<u64>)
    ensures
        r@ == ids_in(s@),
{
    let parts = split(s, ',');
    let mut ids: Vec<u64> = Vec::new();
    assert(ids@ =~= numbers_among(texts(parts@).take(0)));
    for i in 0..parts.len()
        invariant
            ids@ == numbers_among(texts(parts@).take(i as int)),
    {
        assert(texts(parts@).take(i + 1).drop_last() =~= texts(parts@).take(i as int));
        if let Some(id) = parse_u64(parts[i].as_str()) {
            ids.push(id);
        }
    }
    assert(texts(parts@).take(parts@.len() as int) =~= texts(parts@));
    ids
}

/// Adds a value to a list unless it is there already. Says whether it was added.
pub fn push_unique(vec: &mut Vec<u64>, value: u64) -> (r: bool)
    ensures
        r == !old(vec)@.contains(value),
        final(vec)@ == with_value(old(vec)@, value),
{
    if has_value(vec.as_slice(), value) {
        false
    } else {
        vec.push(value);
        true
    }
}

/// Takes every occurrence of a value out of a list. Says whether there was one.
pub fn remove_value(vec: &mut Vec<u64>, value: u64) -> (r: bool)
    ensures
        r == old(vec)@.contains(value),
        final(vec)@ == without_value(old(vec)@, value),
{
    let ghost all = vec@;
    let mut kept: Vec<u64> = Vec::new();
    let mut found: bool = false;
    for i in 0..vec.len()
        invariant
            vec@ == all,
            found == all.take(i as int).contains(value),
            kept@ == without_value(all.take(i as int), value),
    {
        assert(all.take(i + 1).drop_last() =~= all.take(i as int));
        assert(all.take(i + 1)[i as int] == all[i as int]);
        assert forall|k: int| 0 <= k < i implies all.take(i as int)[k] == #[trigger] all.take(
            i + 1,
        )[k] by {}
        if vec[i] == value {
            found = true;
        } else {
            kept.push(vec[i]);
        }
    }
    assert(all.take(all.len() as int) =~= all);
    *vec = kept;
    found
}

/// What a row says. A field that says nothing readable counts as its default.
pub fn read_row(row: &SettingsRow) -> (r: GuildConfig)
    ensures
        r@ == read_settings(row@),
{
    let fallback = GuildConfig::default();
    GuildConfig {
        log_channel_id: match parse_u64(row.log_channel_id.as_str()) {
            Some(id) => id,
            None => fallback.log_channel_id,
        },
        action: match Action::from_toml_str(row.action.as_str()) {
            Some(action) => action,
            None => fallback.action,
        },
        timeout_minutes: if row.timeout_minutes >= 0 {
            row.timeout_minutes as u64
        } else {
            fallback.timeout_minutes
        },
        mod_role_ids: parse_ids(row.mod_role_ids.as_str()),
        exempt_role_ids: parse_ids(row.exempt_role_ids.as_str()),
        exempt_channel_ids: parse_ids(row.exempt_channel_ids.as_str()),
    }
}

/// The row that holds a server's settings.
pub fn write_row(guild_id: u64, cfg: &GuildConfig) -> (r: SettingsRow)
    ensures
        r@ == written_settings(guild_id, cfg@),
{
    SettingsRow {
        guild_id: decimal_text(guild_id),
        log_channel_id: decimal_text(cfg.log_channel_id),
        action: cfg.action.as_toml_str().to_owned(),
        timeout_minutes: signed(cfg.timeout_minutes),
        mod_role_ids: format_ids(cfg.mod_role_ids.as_slice()),
        exempt_role_ids: format_ids(cfg.exempt_role_ids.as_slice()),
        exempt_channel_ids: format_ids(cfg.exempt_channel_ids.as_slice()),
    }
}

/// The contents of a table of settings.
pub open spec fn settings_rows(rows: Seq<SettingsRow>) -> Seq<StoredSettings> {
    rows.map_values(|r: SettingsRow| r@)
}

/// The servers' settings, held by server.
#[derive(Debug)]
pub struct GuildSettingsStore {
    rows: Vec<SettingsRow>,
}

impl View for GuildSettingsStore {
    type V = Seq<StoredSettings>;

    closed spec fn view(&self) -> Seq<StoredSettings> {
        settings_rows(self.rows@)
    }
}

impl GuildSettingsStore {
    /// A store over these rows.
    pub fn open(rows: Vec<SettingsRow>) -> (r: GuildSettingsStore)
        ensures
            r@ == settings_rows(rows@),
    {
        GuildSettingsStore { rows }
    }

    fn find(&self, guild_id: u64) -> (r: usize)
        ensures
            r == row_index(self@, decimal(guild_id as nat)),
            r <= self@.len(),
            self@.len() == self.rows@.len(),
    {
        let key = decimal_text(guild_id);
        let mut i: usize = 0;
        assert(self@.skip(0) =~= self@);
        while i < self.rows.len()
            invariant
                i <= self.rows@.len(),
                key@ == decimal(guild_id as nat),
                row_index(self@, key@) == i + row_index(self@.skip(i as int), key@),
            decreases self.rows@.len() - i,
        {
            let ghost left = self@.skip(i as int);
            assert(left[0] == self.rows@[i as int]@);
            if same_text(self.rows[i].guild_id.as_str(), key.as_str()) {
                return i;
            }
            assert(left.drop_first() =~= self@.skip(i + 1));
            i += 1;
        }
        assert(self@.skip(i as int).len() == 0);
        i
    }

    /// The row of a server, if it has one.
    pub fn row(&self, guild_id: u64) -> (r: Option<&SettingsRow>)
        ensures
            match r {
                Some(row) => {
                    &&& row_index(self@, decimal(guild_id as nat)) < self@.len()
                    &&& row@ == self@[row_index(self@, decimal(guild_id as nat))]
                },
                None => row_index(self@, decimal(guild_id as nat)) >= self@.len(),
            },
    {
        let at = self.find(guild_id);
        if at < self.rows.len() {
            Some(&self.rows[at])
        } else {
            None
        }
    }

    /// A server's settings, or the defaults where it never changed any.
    pub fn get(&self, guild_id: u64) -> (r: GuildConfig)
        ensures
            r@ == settings_of(self@, guild_id),
    {
        match self.row(guild_id) {
            Some(row) => read_row(row),
            None => GuildConfig::default(),
        }
    }

    fn put(&mut self, guild_id: u64, cfg: &GuildConfig)
        ensures
            final(self)@ == with_settings(old(self)@, guild_id, cfg@),
    {
        let ghost before = self@;
        let at = self.find(guild_id);
        let row = write_row(guild_id, cfg);
        if at < self.rows.len() {
            self.rows.set(at, row);
            assert(self@ =~= before.update(at as int, row@));
        } else {
            self.rows.push(row);
            assert(self@ =~= before.push(row@));
        }
    }

    pub fn set_log_channel(&mut self, guild_id: u64, channel_id: u64)
        ensures
            final(self)@ == with_settings(
                old(self)@,
                guild_id,
                (GuildSettings {
                    log_channel_id: channel_id,
                    ..settings_of(old(self)@, guild_id)
                }),
            ),
    {
        let mut cfg = self.get(guild_id);
        cfg.log_channel_id = channel_id;
        self.put(guild_id, &cfg);
    }

    pub fn set_action(&mut self, guild_id: u64, action: Action)
        ensures
            final(self)@ == with_settings(
                old(self)@,
                guild_id,
                (GuildSettings { action, ..settings_of(old(self)@, guild_id) }),
            ),
    {
        let mut cfg = self.get(guild_id);
        cfg.action = action;
        self.put(guild_id, &cfg);
    }

    pub fn set_timeout_minutes(&mut self, guild_id: u64, minutes: u64)
        ensures
            final(self)@ == with_settings(
                old(self)@,
                guild_id,
                (GuildSettings { timeout_minutes: minutes, ..settings_of(old(self)@, guild_id) }),
            ),
    {
        let mut cfg = self.get(guild_id);
        cfg.timeout_minutes = minutes;
        self.put(guild_id, &cfg);
    }

    /// Adds a moderator role. Says whether it was new.
    pub fn add_mod_role(&mut self, guild_id: u64, role_id: u64) -> (r: bool)
        ensures
            r == !settings_of(old(self)@, guild_id).mod_role_ids.contains(role_id),
            final(self)@ == with_settings(
                old(self)@,
                guild_id,
                (GuildSettings {
                    mod_role_ids: with_value(
                        settings_of(old(self)@, guild_id).mod_role_ids,
                        role_id,
                    ),
                    ..settings_of(old(self)@, guild_id)
                }),
            ),
    {
        let mut cfg = self.get(guild_id);
        let changed = push_unique(&mut cfg.mod_role_ids, role_id);
        self.put(guild_id, &cfg);
        changed
    }

    /// Removes a moderator role. Says whether it was there.
    pub fn remove_mod_role(&mut self, guild_id: u64, role_id: u64) -> (r: bool)
        ensures
            r == settings_of(old(self)@, guild_id).mod_role_ids.contains(role_id),
            final(self)@ == with_settings(
                old(self)@,
                guild_id,
                (GuildSettings {
                    mod_role_ids: without_value(
                        settings_of(old(self)@, guild_id).mod_role_ids,
                        role_id,
                    ),
                    ..settings_of(old(self)@, guild_id)
                }),
            ),
    {
        let mut cfg = self.get(guild_id);
        let changed = remove_value(&mut cfg.mod_role_ids, role_id);
        self.put(guild_id, &cfg);
        changed
    }

    /// Exempts a role from detection. Says whether it was new.
    pub fn add_exempt_role(&mut self, guild_id: u64, role_id: u64) -> (r: bool)
        ensures
            r == !settings_of(old(self)@, guild_id).exempt_role_ids.contains(role_id),
            final(self)@ == with_settings(
                old(self)@,
                guild_id,
                (GuildSettings {
                    exempt_role_ids: with_value(
                        settings_of(old(self)@, guild_id).exempt_role_ids,
                        role_id,
                    ),
                    ..settings_of(old(self)@, guild_id)
                }),
            ),
    {
        let mut cfg = self.get(guild_id);
        let changed = push_unique(&mut cfg.exempt_role_ids, role_id);
        self.put(guild_id, &cfg);
        changed
    }

    /// Ends a role's exemption. Says whether it was exempt.
    pub fn remove_exempt_role(&mut self, guild_id: u64, role_id: u64) -> (r: bool)
        ensures
            r == settings_of(old(self)@, guild_id).exempt_role_ids.contains(role_id),
            final(self)@ == with_settings(
                old(self)@,
                guild_id,
                (GuildSettings {
                    exempt_role_ids: without_value(
                        settings_of(old(self)@, guild_id).exempt_role_ids,
                        role_id,
                    ),
                    ..settings_of(old(self)@, guild_id)
                }),
            ),
    {
        let mut cfg = self.get(guild_id);
        let changed = remove_value(&mut cfg.exempt_role_ids, role_id);
        self.put(guild_id, &cfg);
        changed
    }

    /// Exempts a channel from detection. Says whether it was new.
    pub fn add_exempt_channel(&mut self, guild_id: u64, channel_id: u64) -> (r: bool)
        ensures
            r == !settings_of(old(self)@, guild_id).exempt_channel_ids.contains(channel_id),
            final(self)@ == with_settings(
                old(self)@,
                guild_id,
                (GuildSettings {
                    exempt_channel_ids: with_value(
                        settings_of(old(self)@, guild_id).exempt_channel_ids,
                        channel_id,
                    ),
                    ..settings_of(old(self)@, guild_id)
                }),
            ),
    {
        let mut cfg = self.get(guild_id);
        let changed = push_unique(&mut cfg.exempt_channel_ids, channel_id);
        self.put(guild_id, &cfg);
        changed
    }

    /// Ends a channel's exemption. Says whether it was exempt.
    pub fn remove_exempt_channel(&mut self, guild_id: u64, channel_id: u64) -> (r: bool)
        ensures
            r == settings_of(old(self)@, guild_id).exempt_channel_ids.contains(channel_id),
            final(self)@ == with_settings(
                old(self)@,
                guild_id,
                (GuildSettings {
                    exempt_channel_ids: without_value(
                        settings_of(old(self)@, guild_id).exempt_channel_ids,
                        channel_id,
                    ),
                    ..settings_of(old(self)@, guild_id)
                }),
            ),
    {
        let mut cfg = self.get(guild_id);
        let changed = remove_value(&mut cfg.exempt_channel_ids, channel_id);
        self.put(guild_id, &cfg);
        changed
    }
}

proof fn numbers_read_back(ids: Seq<u64>)
    ensures
        numbers_among(numerals(ids)) == ids,
    decreases ids.len(),
{
    if ids.len() > 0 {
        numbers_read_back(ids.drop_last());
        assert(numerals(ids).drop_last() =~= numerals(ids.drop_last()));
        decimal_reads_back(ids.last());
        assert(ids.drop_last().push(ids.last()) =~= ids);
    }
}

/// A list of ids is read back from its text.
pub proof fn ids_read_back(ids: Seq<u64>)
    ensures
        ids_in(ids_text(ids)) == ids,
{
    let parts = numerals(ids);
    if ids.len() == 0 {
        assert(ids_text(ids) =~= Seq::<char>::empty());
        let only = split_on(ids_text(ids), ',');
        assert(only.drop_last() =~= Seq::<Seq<char>>::empty());
        assert(numbers_among(only.drop_last()) =~= Seq::<u64>::empty());
        assert(numbers_among(only) =~= ids);
    } else {
        assert forall|i: int| 0 <= i < parts.len() implies !(#[trigger] parts[i]).contains(',') by {
            decimal_is_digits(ids[i] as nat);
            assert forall|k: int| 0 <= k < parts[i].len() implies parts[i][k] != ',' by {
                assert(is_digit(parts[i][k]));
            }
        }
        split_undoes_join(parts, ',');
        numbers_read_back(ids);
    }
}

/// Settings are read back as they were written. Only a timeout above `i64::MAX`
/// minutes is not: it comes back as the default.
pub proof fn settings_read_back(guild: u64, cfg: GuildSettings)
    ensures
        read_settings(written_settings(guild, cfg)) == (GuildSettings {
            timeout_minutes: if cfg.timeout_minutes <= i64::MAX {
                cfg.timeout_minutes
            } else {
                default_settings().timeout_minutes
            },
            ..cfg
        }),
{
    decimal_reads_back(cfg.log_channel_id);
    action_names_read_back(cfg.action);
    ids_read_back(cfg.mod_role_ids);
    ids_read_back(cfg.exempt_role_ids);
    ids_read_back(cfg.exempt_channel_ids);
}

proof fn index_is_of_the_row(rows: Seq<StoredSettings>, key: Seq<char>)
    ensures
        0 <= row_index(rows, key) <= rows.len(),
        row_index(rows, key) < rows.len() ==> rows[row_index(rows, key)].guild_id == key,
        forall|i: int|
            0 <= i < row_index(rows, key) ==> (#[trigger] rows[i]).guild_id != key,
    decreases rows.len(),
{
    if rows.len() > 0 && rows[0].guild_id != key {
        index_is_of_the_row(rows.drop_first(), key);
        assert forall|i: int| 0 <= i < row_index(rows, key) implies (
        #[trigger] rows[i]).guild_id != key by {
            if i > 0 {
                assert(rows[i] == rows.drop_first()[i - 1]);
            }
        }
    }
}

proof fn index_found(rows: Seq<StoredSettings>, key: Seq<char>, at: int)
    requires
        0 <= at <= rows.len(),
        at < rows.len() ==> rows[at].guild_id == key,
        forall|i: int| 0 <= i < at ==> (#[trigger] rows[i]).guild_id != key,
    ensures
        row_index(rows, key) == at,
    decreases rows.len(),
{
    if rows.len() > 0 && at > 0 {
        assert(rows[0].guild_id != key);
        index_found(rows.drop_first(), key, at - 1);
    }
}

/// A server reads back the settings that were written for it.
pub proof fn written_settings_apply(rows: Seq<StoredSettings>, guild: u64, cfg: GuildSettings)
    requires
        cfg.timeout_minutes <= i64::MAX,
    ensures
        settings_of(with_settings(rows, guild, cfg), guild) == cfg,
{
    let key = decimal(guild as nat);
    let at = row_index(rows, key);
    let after = with_settings(rows, guild, cfg);
    index_is_of_the_row(rows, key);
    assert forall|i: int| 0 <= i < at implies (#[trigger] after[i]).guild_id != key by {
        assert(after[i] == rows[i]);
    }
    index_found(after, key, at);
    settings_read_back(guild, cfg);
}

/// Writing one server's settings leaves every other server's as they were.
pub proof fn servers_do_not_share_settings(
    rows: Seq<StoredSettings>,
    guild: u64,
    cfg: GuildSettings,
    other: u64,
)
    requires
        other != guild,
    ensures
        settings_of(with_settings(rows, guild, cfg), other) == settings_of(rows, other),
{
    let key = decimal(guild as nat);
    let other_key = decimal(other as nat);
    let at = row_index(rows, key);
    let found = row_index(rows, other_key);
    let after = with_settings(rows, guild, cfg);
    numerals_differ(guild as nat, other as nat, 10);
    index_is_of_the_row(rows, key);
    index_is_of_the_row(rows, other_key);
    if found < rows.len() {
        assert forall|i: int| 0 <= i < found implies (#[trigger] after[i]).guild_id
            != other_key by {
            if i != at {
                assert(after[i] == rows[i]);
            }
        }
        assert(found != at);
        assert(after[found] == rows[found]);
        index_found(after, other_key, found);
    } else {
        assert forall|i: int| 0 <= i < after.len() implies (#[trigger] after[i]).guild_id
            != other_key by {
            if i != at {
                assert(after[i] == rows[i]);
            }
        }
        index_found(after, other_key, after.len() as int);
    }
}

/// A server that has no row has the default settings.
pub proof fn unknown_servers_have_defaults(rows: Seq<StoredSettings>, guild: u64)
    requires
        forall|i: int|
            0 <= i < rows.len() ==> (#[trigger] rows[i]).guild_id != decimal(guild as nat),
    ensures
        settings_of(rows, guild) == default_settings(),
{
    index_found(rows, decimal(guild as nat), rows.len() as int);
}

/// A list without a value holds everything but the value.
pub proof fn removing_takes_only_the_value(ids: Seq<u64>, value: u64)
    ensures
        forall|id: u64| #[trigger]
            without_value(ids, value).contains(id) <==> ids.contains(id) && id != value,
    decreases ids.len(),
{
    if ids.len() > 0 {
        let init = ids.drop_last();
        let before = without_value(init, value);
        let after = without_value(ids, value);
        removing_takes_only_the_value(init, value);
        assert forall|id: u64| #[trigger] after.contains(id) <==> ids.contains(id) && id
            != value by {
            if ids.contains(id) && id != value {
                let i = choose|i: int| 0 <= i < ids.len() && ids[i] == id;
                if i < init.len() {
                    assert(init[i] == id);
                    assert(before.contains(id));
                    let k = choose|k: int| 0 <= k < before.len() && before[k] == id;
                    assert(after[k] == id);
                } else {
                    assert(after[after.len() - 1] == id);
                }
            }
            if after.contains(id) {
                let k = choose|k: int| 0 <= k < after.len() && after[k] == id;
                if k < before.len() {
                    assert(before[k] == id);
                    assert(before.contains(id));
                    let i = choose|i: int| 0 <= i < init.len() && init[i] == id;
                    assert(ids[i] == id);
                } else {
                    assert(ids[ids.len() - 1] == id);
                }
            }
        }
    }
}

/// Adding a value twice is adding it once, and it is there afterwards.
pub proof fn adding_twice_is_adding_once(ids: Seq<u64>, value: u64)
    ensures
        with_value(ids, value).contains(value),
        with_value(with_value(ids, value), value) == with_value(ids, value),
{
    if !ids.contains(value) {
        assert(ids.push(value)[ids.len() as int] == value);
    }
}

/// Adding a value to a list that lacks it and taking it out again changes nothing.
pub proof fn removing_undoes_adding(ids: Seq<u64>, value: u64)
    requires
        !ids.contains(value),
    ensures
        without_value(with_value(ids, value), value) == ids,
{
    assert(ids.push(value).drop_last() =~= ids);
    nothing_to_remove(ids, value);
}

proof fn nothing_to_remove(ids: Seq<u64>, value: u64)
    requires
        !ids.contains(value),
    ensures
        without_value(ids, value) == ids,
    decreases ids.len(),
{
    if ids.len() > 0 {
        let init = ids.drop_last();
        assert forall|i: int| 0 <= i < init.len() implies init[i] != value by {
            assert(ids[i] != value);
        }
        nothing_to_remove(init, value);
        assert(ids.last() == ids[ids.len() - 1]);
        assert(init.push(ids.last()) =~= ids);
    }
}

/// A field that cannot be read counts as never set, and the others of the row still hold.
pub proof fn unreadable_fields_have_defaults(row: StoredSettings)
    ensures
        match parsed_u64(row.log_channel_id) {
            Some(id) => read_settings(row).log_channel_id == id,
            None => read_settings(row).log_channel_id == 0,
        },
        match action_named(row.action) {
            Some(action) => read_settings(row).action == action,
            None => read_settings(row).action is DeleteTimeout,
        },
        row.timeout_minutes >= 0 ==> read_settings(row).timeout_minutes == row.timeout_minutes,
        row.timeout_minutes < 0 ==> read_settings(row).timeout_minutes == 60,
        read_settings(row).mod_role_ids == ids_in(row.mod_role_ids),
        read_settings(row).exempt_role_ids == ids_in(row.exempt_role_ids),
        read_settings(row).exempt_channel_ids == ids_in(row.exempt_channel_ids),
{
}

/// The ids in a list are the numbers among its parts, in their order: a part that is no
/// number does not spoil the others.
pub proof fn numbers_are_picked_from_lists(parts: Seq<Seq<char>>, part: Seq<char>)
    ensures
        match parsed_u64(part) {
            Some(id) => numbers_among(parts.push(part)) == numbers_among(parts).push(id),
            None => numbers_among(parts.push(part)) == numbers_among(parts),
        },
        numbers_among(Seq::empty()).len() == 0,
{
    assert(parts.push(part).drop_last() =~= parts);
}

/// Adding a value keeps the others where they are, and puts it last where it is new.
pub proof fn adding_keeps_the_others(ids: Seq<u64>, value: u64, id: u64)
    ensures
        with_value(ids, value).contains(id) <==> ids.contains(id) || id == value,
        ids.contains(value) ==> with_value(ids, value) == ids,
        !ids.contains(value) ==> with_value(ids, value) == ids.push(value),
{
    let after = ids.push(value);
    if ids.contains(id) {
        let k = choose|k: int| 0 <= k < ids.len() && ids[k] == id;
        assert(after[k] == id);
    }
    assert(after[ids.len() as int] == value);
    if after.contains(id) {
        let k = choose|k: int| 0 <= k < after.len() && after[k] == id;
        if k < ids.len() {
            assert(ids[k] == id);
        }
    }
}

/// Removing a value keeps the order of the others: it goes part by part.
pub proof fn removing_keeps_the_order(a: Seq<u64>, b: Seq<u64>, value: u64)
    ensures
        without_value(a + b, value) == without_value(a, value) + without_value(b, value),
        !a.contains(value) ==> without_value(a, value) == a,
    decreases b.len(), a.len(),
{
    if b.len() == 0 {
        assert(a + b =~= a);
        assert(without_value(a, value) + without_value(b, value) =~= without_value(a, value));
        if a.len() > 0 && !a.contains(value) {
            assert forall|i: int| 0 <= i < a.drop_last().len() implies a.drop_last()[i] != value by {
                assert(a[i] != value);
            }
            removing_keeps_the_order(a.drop_last(), b, value);
            assert(a[a.len() - 1] != value);
            assert(a.drop_last().push(a.last()) =~= a);
        }
    } else {
        removing_keeps_the_order(a, b.drop_last(), value);
        assert((a + b).drop_last() =~= a + b.drop_last());
        assert((a + b).last() == b.last());
        assert(without_value(a + b, value) =~= without_value(a, value) + without_value(b, value));
    }
}

/// A server's settings are those of its own row, wherever that stands, and the first of
/// several.
pub proof fn settings_come_from_the_servers_row(rows: Seq<StoredSettings>, guild: u64, at: int)
    requires
        0 <= at < rows.len(),
        rows[at].guild_id == decimal(guild as nat),
        forall|i: int| 0 <= i < at ==> (#[trigger] rows[i]).guild_id != decimal(guild as nat),
    ensures
        settings_of(rows, guild) == read_settings(rows[at]),
{
    index_found(rows, decimal(guild as nat), at);
}

/// Writing a server's settings leaves the rows of other servers as they are, each in its
/// place, and adds a row only where the server had none.
pub proof fn writing_leaves_other_rows_alone(
    rows: Seq<StoredSettings>,
    guild: u64,
    cfg: GuildSettings,
    i: int,
)
    requires
        0 <= i < rows.len(),
        rows[i].guild_id != decimal(guild as nat),
    ensures
        with_settings(rows, guild, cfg).len() >= rows.len(),
        with_settings(rows, guild, cfg)[i] == rows[i],
        with_settings(rows, guild, cfg).len() > rows.len() <==> forall|k: int|
            0 <= k < rows.len() ==> (#[trigger] rows[k]).guild_id != decimal(guild as nat),
{
    index_is_of_the_row(rows, decimal(guild as nat));
}

} // verus!
