//! The settings that the proxy runs with, and the rows they are kept in.

use vstd::prelude::*;

use crate::config::{AppConfig, ConfigModel};
use crate::decimal::{
    decimal, decimal_text, lemma_decimal_reads_back, parse_positive_or, positive_or, read_decimal,
};
use crate::text::same_text;

verus! {

pub const KEY_POLICY_ENABLED: &'static str = "policy_enabled";

pub const KEY_REQUEST_RECORD_ENABLED: &'static str = "request_record_enabled";

pub const KEY_RESPONSE_HEADER_TIMEOUT_MS: &'static str = "response_header_timeout_ms";

pub const KEY_FIRST_TOKEN_TIMEOUT_MS: &'static str = "first_token_timeout_ms";

pub const KEY_MAX_ATTEMPTS: &'static str = "max_attempts";

pub const KEY_AUTO_RETRY_ENABLED: &'static str = "auto_retry_enabled";

/// The settings that the proxy runs with.
#[derive(Clone, Copy, Debug, PartialEq, Eq, Structural)]
pub struct RuntimeSettings {
    pub policy_enabled: bool,
    pub request_record_enabled: bool,
    pub response_header_timeout_ms: i64,
    pub first_token_timeout_ms: i64,
    pub max_attempts: i64,
    pub auto_retry_enabled: bool,
}

/// One stored setting.
#[derive(Clone, Debug)]
pub struct SettingRow {
    pub key: String,
    pub value: String,
}

impl View for SettingRow {
    type V = (Seq<char>, Seq<char>);

    open spec fn view(&self) -> (Seq<char>, Seq<char>) {
        (self.key@, self.value@)
    }
}

/// The stored settings: what each key is set to.
pub type Table = Map<Seq<char>, Seq<char>>;

/// What the rows set, a later row for a key replacing an earlier one.
pub open spec fn table_of(rows: Seq<SettingRow>) -> Table
    decreases rows.len(),
{
    if rows.len() == 0 {
        Map::empty()
    } else {
        table_of(rows.drop_last()).insert(rows.last().key@, rows.last().value@)
    }
}

/// What `key` is set to.
pub open spec fn stored(table: Table, key: Seq<char>) -> Option<Seq<char>> {
    if table.contains_key(key) {
        Some(table[key])
    } else {
        None
    }
}

/// The texts that switch something on.
pub open spec fn is_on(text: Seq<char>) -> bool {
    ||| text == "1"@
    ||| text == "true"@
    ||| text == "on"@
    ||| text == "yes"@
}

/// A switch: on or off as stored, or `default` where nothing is stored.
pub open spec fn switch_or(value: Option<Seq<char>>, default: bool) -> bool {
    match value {
        Some(text) => is_on(text),
        None => default,
    }
}

/// How a switch is stored.
pub open spec fn flag_text(flag: bool) -> Seq<char> {
    if flag {
        "true"@
    } else {
        "false"@
    }
}

/// The settings of a fresh installation.
pub open spec fn defaults_of(config: ConfigModel) -> RuntimeSettings {
    RuntimeSettings {
        policy_enabled: false,
        request_record_enabled: true,
        response_header_timeout_ms: config.response_header_timeout_ms as i64,
        first_token_timeout_ms: config.first_token_timeout_ms as i64,
        max_attempts: config.max_attempts as i64,
        auto_retry_enabled: true,
    }
}

/// The settings that a table holds. A number that is missing, malformed or not
/// positive falls back to the default.
pub open spec fn settings_of(table: Table, defaults: RuntimeSettings) -> RuntimeSettings {
    RuntimeSettings {
        policy_enabled: switch_or(stored(table, "policy_enabled"@), defaults.policy_enabled),
        request_record_enabled: switch_or(
            stored(table, "request_record_enabled"@),
            defaults.request_record_enabled,
        ),
        response_header_timeout_ms: positive_or(
            stored(table, "response_header_timeout_ms"@),
            defaults.response_header_timeout_ms as int,
        ) as i64,
        first_token_timeout_ms: positive_or(
            stored(table, "first_token_timeout_ms"@),
            defaults.first_token_timeout_ms as int,
        ) as i64,
        max_attempts: positive_or(
            stored(table, "max_attempts"@),
            defaults.max_attempts as int,
        ) as i64,
        auto_retry_enabled: switch_or(
            stored(table, "auto_retry_enabled"@),
            defaults.auto_retry_enabled,
        ),
    }
}

/// The rows that settings are stored in.
pub open spec fn rows_of(settings: RuntimeSettings) -> Seq<(Seq<char>, Seq<char>)> {
    seq![
        ("policy_enabled"@, flag_text(settings.policy_enabled)),
        ("request_record_enabled"@, flag_text(settings.request_record_enabled)),
        ("response_header_timeout_ms"@, decimal(settings.response_header_timeout_ms as int)),
        ("first_token_timeout_ms"@, decimal(settings.first_token_timeout_ms as int)),
        ("max_attempts"@, decimal(settings.max_attempts as int)),
        ("auto_retry_enabled"@, flag_text(settings.auto_retry_enabled)),
    ]
}

/// The views of `rows`.
pub open spec fn row_views(rows: Seq<SettingRow>) -> Seq<(Seq<char>, Seq<char>)> {
    rows.map_values(|row: SettingRow| row@)
}

/// A table after each of `rows` was stored, replacing what its key was set to.
pub open spec fn put_all(table: Table, rows: Seq<(Seq<char>, Seq<char>)>) -> Table
    decreases rows.len(),
{
    if rows.len() == 0 {
        table
    } else {
        put_all(table, rows.drop_last()).insert(rows.last().0, rows.last().1)
    }
}

/// The rows whose key is not set in `table`.
pub open spec fn missing(
    table: Table,
    rows: Seq<(Seq<char>, Seq<char>)>,
) -> Seq<(Seq<char>, Seq<char>)> {
    rows.filter(|row: (Seq<char>, Seq<char>)| !table.contains_key(row.0))
}

// ---------------------------------------------------------------------------
// Laws
// ---------------------------------------------------------------------------

/// What is stored switches something on if it is one of four texts, and off if it
/// is any other; where nothing is stored the default holds.
pub proof fn lemma_four_texts_switch_on(text: Seq<char>, default: bool)
    ensures
        switch_or(Some(text), default) <==> text == "1"@ || text == "true"@ || text == "on"@
            || text == "yes"@,
        switch_or(None, default) == default,
{
}

/// A fresh installation passes requests on directly, records them, and would
/// retry; its numbers are those of the configuration.
pub proof fn lemma_fresh_installation(config: ConfigModel)
    requires
        i64::MIN <= config.response_header_timeout_ms <= i64::MAX,
        i64::MIN <= config.first_token_timeout_ms <= i64::MAX,
        i64::MIN <= config.max_attempts <= i64::MAX,
    ensures
        !defaults_of(config).policy_enabled,
        defaults_of(config).request_record_enabled,
        defaults_of(config).auto_retry_enabled,
        defaults_of(config).response_header_timeout_ms == config.response_header_timeout_ms,
        defaults_of(config).first_token_timeout_ms == config.first_token_timeout_ms,
        defaults_of(config).max_attempts == config.max_attempts,
{
}

/// Each setting is read from the key of its own name: a switch is on if one of
/// the four texts is stored there, a number is the one stored there if that is
/// positive, and what is not stored, or is no positive number, is the default.
pub proof fn lemma_each_setting_is_read_from_its_key(
    table: Table,
    defaults: RuntimeSettings,
    number: int,
)
    requires
        1 <= number <= i64::MAX,
    ensures
        ({
            let loaded = settings_of(table, defaults);
            let on = |text: Seq<char>|
                text == "1"@ || text == "true"@ || text == "on"@ || text == "yes"@;
            &&& loaded.policy_enabled == if table.contains_key("policy_enabled"@) {
                on(table["policy_enabled"@])
            } else {
                defaults.policy_enabled
            }
            &&& loaded.request_record_enabled == if table.contains_key("request_record_enabled"@) {
                on(table["request_record_enabled"@])
            } else {
                defaults.request_record_enabled
            }
            &&& loaded.auto_retry_enabled == if table.contains_key("auto_retry_enabled"@) {
                on(table["auto_retry_enabled"@])
            } else {
                defaults.auto_retry_enabled
            }
            &&& table.contains_key("response_header_timeout_ms"@) && read_decimal(
                table["response_header_timeout_ms"@],
            ) == Some(number) ==> loaded.response_header_timeout_ms == number
            &&& table.contains_key("first_token_timeout_ms"@) && read_decimal(
                table["first_token_timeout_ms"@],
            ) == Some(number) ==> loaded.first_token_timeout_ms == number
            &&& table.contains_key("max_attempts"@) && read_decimal(table["max_attempts"@]) == Some(
                number,
            ) ==> loaded.max_attempts == number
            &&& !table.contains_key("response_header_timeout_ms"@) || !(read_decimal(
                table["response_header_timeout_ms"@],
            ) matches Some(n) && n >= 1) ==> loaded.response_header_timeout_ms
                == defaults.response_header_timeout_ms
            &&& !table.contains_key("first_token_timeout_ms"@) || !(read_decimal(
                table["first_token_timeout_ms"@],
            ) matches Some(n) && n >= 1) ==> loaded.first_token_timeout_ms
                == defaults.first_token_timeout_ms
            &&& !table.contains_key("max_attempts"@) || !(read_decimal(
                table["max_attempts"@],
            ) matches Some(n) && n >= 1) ==> loaded.max_attempts == defaults.max_attempts
        }),
{
}

/// Of several rows for one key the last one counts, and a key without a row is
/// not set.
pub proof fn lemma_the_last_row_counts(rows: Seq<SettingRow>, key: Seq<char>, at: int)
    requires
        -1 <= at < rows.len(),
        at >= 0 ==> rows[at].key@ == key,
        forall|i: int| at < i < rows.len() ==> (#[trigger] rows[i]).key@ != key,
    ensures
        stored(table_of(rows), key) == if at >= 0 {
            Some(rows[at].value@)
        } else {
            None
        },
    decreases rows.len(),
{
    if rows.len() > 0 && at < rows.len() - 1 {
        assert(rows[rows.len() - 1].key@ != key);
        lemma_the_last_row_counts(rows.drop_last(), key, at);
    }
}

/// With retrying on, a request may take as many attempts as are set, and at least
/// one; with retrying off it takes one.
pub proof fn lemma_attempts_are_as_set(settings: RuntimeSettings)
    ensures
        settings.auto_retry_enabled && 1 <= settings.max_attempts <= usize::MAX ==> attempt_limit(
            settings,
        ) == settings.max_attempts,
        !settings.auto_retry_enabled || settings.max_attempts < 1 ==> attempt_limit(settings) == 1,
{
}

proof fn lemma_put_last(table: Table, rows: Seq<(Seq<char>, Seq<char>)>, at: int)
    requires
        0 <= at < rows.len(),
        forall|i: int| at < i < rows.len() ==> (#[trigger] rows[i]).0 != rows[at].0,
    ensures
        stored(put_all(table, rows), rows[at].0) == Some(rows[at].1),
    decreases rows.len(),
{
    if at < rows.len() - 1 {
        assert(rows[rows.len() - 1].0 != rows[at].0);
        lemma_put_last(table, rows.drop_last(), at);
    }
}

/// Filling in defaults sets each key that was not set to its default.
pub proof fn lemma_missing_keys_get_their_defaults(
    table: Table,
    settings: RuntimeSettings,
    at: int,
)
    requires
        0 <= at < rows_of(settings).len(),
        !table.contains_key(rows_of(settings)[at].0),
    ensures
        stored(put_all(table, missing(table, rows_of(settings))), rows_of(settings)[at].0) == Some(
            rows_of(settings)[at].1,
        ),
{
    lemma_keys_differ();
    let rows = rows_of(settings);
    let unset = |row: (Seq<char>, Seq<char>)| !table.contains_key(row.0);
    let added = rows.filter(unset);
    rows.lemma_filter_contains(unset, at);
    let k = choose|k: int| 0 <= k < added.len() && added[k] == rows[at];
    lemma_filter_keeps_keys_apart(rows, unset);
    lemma_put_last(table, added, k);
}

proof fn lemma_filter_keeps_keys_apart(
    rows: Seq<(Seq<char>, Seq<char>)>,
    keep: spec_fn((Seq<char>, Seq<char>)) -> bool,
)
    requires
        forall|i: int, j: int|
            0 <= i < j < rows.len() ==> (#[trigger] rows[i]).0 != (#[trigger] rows[j]).0,
    ensures
        forall|i: int, j: int|
            0 <= i < j < rows.filter(keep).len() ==> (#[trigger] rows.filter(keep)[i]).0 != (
            #[trigger] rows.filter(keep)[j]).0,
    decreases rows.len(),
{
    reveal(Seq::filter);
    if rows.len() > 0 {
        let before = rows.drop_last();
        lemma_filter_keeps_keys_apart(before, keep);
        let kept = rows.filter(keep);
        assert forall|i: int, j: int| 0 <= i < j < kept.len() implies (#[trigger] kept[i]).0 != (
        #[trigger] kept[j]).0 by {
            if j == kept.len() - 1 && keep(rows.last()) {
                before.lemma_filter_contains_rev(keep, before.filter(keep)[i]);
                let k = choose|k: int| 0 <= k < before.len() && before[k] == kept[i];
                assert(rows[k].0 != rows[rows.len() - 1].0);
            }
        }
    }
}

/// A number of a loaded set of settings is never below one, given defaults that
/// are not.
pub proof fn lemma_loaded_numbers_are_positive(table: Table, defaults: RuntimeSettings)
    requires
        defaults.response_header_timeout_ms > 0,
        defaults.first_token_timeout_ms > 0,
        defaults.max_attempts > 0,
    ensures
        settings_of(table, defaults).response_header_timeout_ms > 0,
        settings_of(table, defaults).first_token_timeout_ms > 0,
        settings_of(table, defaults).max_attempts > 0,
{
}

proof fn lemma_keys_differ()
    ensures
        "policy_enabled"@ != "request_record_enabled"@,
        "policy_enabled"@ != "response_header_timeout_ms"@,
        "policy_enabled"@ != "first_token_timeout_ms"@,
        "policy_enabled"@ != "max_attempts"@,
        "policy_enabled"@ != "auto_retry_enabled"@,
        "request_record_enabled"@ != "response_header_timeout_ms"@,
        "request_record_enabled"@ != "first_token_timeout_ms"@,
        "request_record_enabled"@ != "max_attempts"@,
        "request_record_enabled"@ != "auto_retry_enabled"@,
        "response_header_timeout_ms"@ != "first_token_timeout_ms"@,
        "response_header_timeout_ms"@ != "max_attempts"@,
        "response_header_timeout_ms"@ != "auto_retry_enabled"@,
        "first_token_timeout_ms"@ != "max_attempts"@,
        "first_token_timeout_ms"@ != "auto_retry_enabled"@,
        "max_attempts"@ != "auto_retry_enabled"@,
{
    reveal_strlit("policy_enabled");
    reveal_strlit("request_record_enabled");
    reveal_strlit("response_header_timeout_ms");
    reveal_strlit("first_token_timeout_ms");
    reveal_strlit("max_attempts");
    reveal_strlit("auto_retry_enabled");
    assert("policy_enabled"@.len() == 14);
    assert("request_record_enabled"@.len() == 22);
    assert("response_header_timeout_ms"@.len() == 26);
    assert("first_token_timeout_ms"@.len() == 22);
    assert("max_attempts"@.len() == 12);
    assert("auto_retry_enabled"@.len() == 18);
    assert("request_record_enabled"@[2] == 'q' && "first_token_timeout_ms"@[2] == 'r');
}

proof fn lemma_flag_reads_back(flag: bool, default: bool)
    ensures
        switch_or(Some(flag_text(flag)), default) == flag,
{
    reveal_strlit("true");
    reveal_strlit("false");
    reveal_strlit("1");
    reveal_strlit("on");
    reveal_strlit("yes");
    assert("false"@.len() == 5);
}

/// Saved switches are stored as `true` or `false` and saved numbers in decimal,
/// each under its own key.
pub proof fn lemma_saved_settings_are_readable(table: Table, settings: RuntimeSettings)
    ensures
        ({
            let after = put_all(table, rows_of(settings));
            let flag = |on: bool|
                if on {
                    "true"@
                } else {
                    "false"@
                };
            &&& stored(after, "policy_enabled"@) == Some(flag(settings.policy_enabled))
            &&& stored(after, "request_record_enabled"@) == Some(
                flag(settings.request_record_enabled),
            )
            &&& stored(after, "auto_retry_enabled"@) == Some(flag(settings.auto_retry_enabled))
            &&& stored(after, "response_header_timeout_ms"@) == Some(
                decimal(settings.response_header_timeout_ms as int),
            )
            &&& stored(after, "first_token_timeout_ms"@) == Some(
                decimal(settings.first_token_timeout_ms as int),
            )
            &&& stored(after, "max_attempts"@) == Some(decimal(settings.max_attempts as int))
        }),
{
    lemma_put_settings(table, settings);
}

proof fn lemma_put_settings(table: Table, settings: RuntimeSettings)
    ensures
        ({
            let after = put_all(table, rows_of(settings));
            &&& stored(after, "policy_enabled"@) == Some(flag_text(settings.policy_enabled))
            &&& stored(after, "request_record_enabled"@) == Some(
                flag_text(settings.request_record_enabled),
            )
            &&& stored(after, "response_header_timeout_ms"@) == Some(
                decimal(settings.response_header_timeout_ms as int),
            )
            &&& stored(after, "first_token_timeout_ms"@) == Some(
                decimal(settings.first_token_timeout_ms as int),
            )
            &&& stored(after, "max_attempts"@) == Some(decimal(settings.max_attempts as int))
            &&& stored(after, "auto_retry_enabled"@) == Some(
                flag_text(settings.auto_retry_enabled),
            )
        }),
{
    lemma_keys_differ();
    let rows = rows_of(settings);
    let five = rows.drop_last();
    let four = five.drop_last();
    let three = four.drop_last();
    let two = three.drop_last();
    let one = two.drop_last();
    assert(one.drop_last().len() == 0);
    reveal_with_fuel(put_all, 7);
}

/// Loading what was saved gives the saved settings back, whatever was stored
/// before, for settings whose numbers are positive.
pub proof fn lemma_saved_settings_load_back(
    table: Table,
    settings: RuntimeSettings,
    defaults: RuntimeSettings,
)
    requires
        settings.response_header_timeout_ms > 0,
        settings.first_token_timeout_ms > 0,
        settings.max_attempts > 0,
    ensures
        settings_of(put_all(table, rows_of(settings)), defaults) == settings,
{
    lemma_put_settings(table, settings);
    lemma_flag_reads_back(settings.policy_enabled, defaults.policy_enabled);
    lemma_flag_reads_back(settings.request_record_enabled, defaults.request_record_enabled);
    lemma_flag_reads_back(settings.auto_retry_enabled, defaults.auto_retry_enabled);
    lemma_decimal_reads_back(settings.response_header_timeout_ms);
    lemma_decimal_reads_back(settings.first_token_timeout_ms);
    lemma_decimal_reads_back(settings.max_attempts);
}

/// Saving settings touches no other key.
pub proof fn lemma_saving_keeps_other_keys(
    table: Table,
    settings: RuntimeSettings,
    key: Seq<char>,
)
    requires
        forall|i: int| 0 <= i < rows_of(settings).len() ==> (#[trigger] rows_of(settings)[i]).0 != key,
    ensures
        stored(put_all(table, rows_of(settings)), key) == stored(table, key),
{
    lemma_put_keeps(table, rows_of(settings), key);
}

proof fn lemma_put_keeps(table: Table, rows: Seq<(Seq<char>, Seq<char>)>, key: Seq<char>)
    requires
        forall|i: int| 0 <= i < rows.len() ==> (#[trigger] rows[i]).0 != key,
    ensures
        stored(put_all(table, rows), key) == stored(table, key),
    decreases rows.len(),
{
    if rows.len() > 0 {
        assert(rows[rows.len() - 1].0 != key);
        lemma_put_keeps(table, rows.drop_last(), key);
    }
}

/// Filling in defaults never changes a key that is set already.
pub proof fn lemma_defaults_keep_what_is_set(
    table: Table,
    settings: RuntimeSettings,
    key: Seq<char>,
)
    requires
        table.contains_key(key),
    ensures
        stored(put_all(table, missing(table, rows_of(settings))), key) == stored(table, key),
{
    let rows = rows_of(settings);
    let unset = |row: (Seq<char>, Seq<char>)| !table.contains_key(row.0);
    let filled = rows.filter(unset);
    assert forall|i: int| 0 <= i < filled.len() implies (#[trigger] filled[i]).0 != key by {
        rows.lemma_filter_pred(unset, i);
    }
    lemma_put_keeps(table, filled, key);
}

/// Filling in defaults leaves nothing to fill in, whether the defaults are still
/// the same or others by then.
pub proof fn lemma_defaults_are_filled_in_once(
    table: Table,
    settings: RuntimeSettings,
    later: RuntimeSettings,
)
    ensures
        missing(put_all(table, missing(table, rows_of(settings))), rows_of(later))
            == Seq::<(Seq<char>, Seq<char>)>::empty(),
{
    let rows = rows_of(settings);
    let late = rows_of(later);
    let unset = |row: (Seq<char>, Seq<char>)| !table.contains_key(row.0);
    let added = rows.filter(unset);
    let after = put_all(table, added);
    let still = |row: (Seq<char>, Seq<char>)| !after.contains_key(row.0);
    assert forall|i: int| 0 <= i < late.len() implies !still(#[trigger] late[i]) by {
        lemma_put_holds(table, added);
        assert(late[i].0 == rows[i].0);
        if unset(rows[i]) {
            rows.lemma_filter_contains(unset, i);
            let k = choose|k: int| 0 <= k < added.len() && added[k] == rows[i];
            assert(after.contains_key(added[k].0));
        }
    }
    let left = late.filter(still);
    if left.len() > 0 {
        late.lemma_filter_pred(still, 0);
        late.lemma_filter_contains_rev(still, left[0]);
        let i = choose|i: int| 0 <= i < late.len() && late[i] == left[0];
        assert(!still(late[i]));
    }
    assert(left =~= Seq::empty());
}

proof fn lemma_put_holds(table: Table, rows: Seq<(Seq<char>, Seq<char>)>)
    ensures
        forall|key: Seq<char>| table.contains_key(key) ==> put_all(table, rows).contains_key(key),
        forall|i: int|
            0 <= i < rows.len() ==> put_all(table, rows).contains_key((#[trigger] rows[i]).0),
    decreases rows.len(),
{
    if rows.len() > 0 {
        let before = rows.drop_last();
        lemma_put_holds(table, before);
        assert forall|i: int| 0 <= i < rows.len() implies put_all(table, rows).contains_key(
            (#[trigger] rows[i]).0,
        ) by {
            if i < before.len() {
                assert(rows[i] == before[i]);
            }
        }
    }
}

/// A fresh installation loads the defaults.
pub proof fn lemma_fresh_installation_loads_defaults(settings: RuntimeSettings)
    requires
        settings.response_header_timeout_ms > 0,
        settings.first_token_timeout_ms > 0,
        settings.max_attempts > 0,
    ensures
        settings_of(
            put_all(Map::empty(), missing(Map::empty(), rows_of(settings))),
            settings,
        ) == settings,
{
    let rows = rows_of(settings);
    let unset = |row: (Seq<char>, Seq<char>)| !Map::<Seq<char>, Seq<char>>::empty().contains_key(row.0);
    lemma_filter_all(rows, unset);
    assert(missing(Map::empty(), rows) =~= rows);
    lemma_saved_settings_load_back(Map::empty(), settings, settings);
}

proof fn lemma_filter_all<A>(items: Seq<A>, keep: spec_fn(A) -> bool)
    requires
        forall|i: int| 0 <= i < items.len() ==> keep(#[trigger] items[i]),
    ensures
        items.filter(keep) == items,
    decreases items.len(),
{
    reveal(Seq::filter);
    if items.len() > 0 {
        lemma_filter_all(items.drop_last(), keep);
        assert(items =~= items.drop_last().push(items.last()));
    }
}

// ---------------------------------------------------------------------------
// Operations
// ---------------------------------------------------------------------------

impl RuntimeSettings {
    /// The settings of a fresh installation.
    pub fn from_config(config: &AppConfig) -> (settings: Self)
        ensures
            settings == defaults_of(config@),
    {
        RuntimeSettings {
            policy_enabled: false,
            request_record_enabled: true,
            response_header_timeout_ms: config.default_response_header_timeout_ms,
            first_token_timeout_ms: config.default_first_token_timeout_ms,
            max_attempts: config.default_max_attempts,
            auto_retry_enabled: true,
        }
    }

    /// How many attempts one request may take: at least one, and no more than
    /// one where retrying is switched off.
    pub fn max_attempts_for_request(&self) -> (limit: usize)
        ensures
            limit == attempt_limit(*self),
    {
        if self.auto_retry_enabled {
            if self.max_attempts < 1 {
                1
            } else {
                self.max_attempts as usize
            }
        } else {
            1
        }
    }
}

/// How many attempts one request may take.
pub open spec fn attempt_limit(settings: RuntimeSettings) -> usize {
    if settings.auto_retry_enabled && settings.max_attempts >= 1 {
        settings.max_attempts as usize
    } else {
        1
    }
}

/// What `key` is set to by the last of `rows` that sets it.
fn find_setting<'a>(rows: &'a [SettingRow], key: &str) -> (value: Option<&'a str>)
    ensures
        crate::text::opt_str(value) == stored(table_of(rows@), key@),
{
    let mut i: usize = rows.len();
    assert(rows@.take(i as int) =~= rows@);
    while i > 0
        invariant
            i <= rows@.len(),
            stored(table_of(rows@.take(i as int)), key@) == stored(table_of(rows@), key@),
        decreases i,
    {
        i = i - 1;
        assert(rows@.take(i + 1).drop_last() =~= rows@.take(i as int));
        assert(rows@.take(i + 1).last() == rows@[i as int]);
        if same_text(rows[i].key.as_str(), key) {
            return Some(rows[i].value.as_str());
        }
    }
    None
}

/// The number under `key`, or `default` where none is stored that is positive.
pub fn read_i64(values: &[SettingRow], key: &str, default: i64) -> (number: i64)
    ensures
        number == positive_or(stored(table_of(values@), key@), default as int),
{
    parse_positive_or(find_setting(values, key), default)
}

/// The switch under `key`, or `default` where none is stored.
pub fn read_bool(values: &[SettingRow], key: &str, default: bool) -> (flag: bool)
    ensures
        flag == switch_or(stored(table_of(values@), key@), default),
{
    match find_setting(values, key) {
        Some(text) => same_text(text, "1") || same_text(text, "true") || same_text(text, "on")
            || same_text(text, "yes"),
        None => default,
    }
}

/// The settings that the stored rows hold.
pub fn get_runtime_settings(rows: &[SettingRow], config: &AppConfig) -> (settings: RuntimeSettings)
    ensures
        settings == settings_of(table_of(rows@), defaults_of(config@)),
{
    let defaults = RuntimeSettings::from_config(config);
    RuntimeSettings {
        policy_enabled: read_bool(rows, KEY_POLICY_ENABLED, defaults.policy_enabled),
        request_record_enabled: read_bool(
            rows,
            KEY_REQUEST_RECORD_ENABLED,
            defaults.request_record_enabled,
        ),
        response_header_timeout_ms: read_i64(
            rows,
            KEY_RESPONSE_HEADER_TIMEOUT_MS,
            defaults.response_header_timeout_ms,
        ),
        first_token_timeout_ms: read_i64(
            rows,
            KEY_FIRST_TOKEN_TIMEOUT_MS,
            defaults.first_token_timeout_ms,
        ),
        max_attempts: read_i64(rows, KEY_MAX_ATTEMPTS, defaults.max_attempts),
        auto_retry_enabled: read_bool(rows, KEY_AUTO_RETRY_ENABLED, defaults.auto_retry_enabled),
    }
}

fn setting_row(key: &str, value: String) -> (row: SettingRow)
    ensures
        row@ == (key@, value@),
{
    SettingRow { key: key.to_string(), value }
}

fn flag_value(flag: bool) -> (text: String)
    ensures
        text@ == flag_text(flag),
{
    if flag {
        "true".to_string()
    } else {
        "false".to_string()
    }
}

/// The rows to store for `settings`, each replacing what its key was set to.
pub fn save_runtime_settings(settings: &RuntimeSettings) -> (rows: Vec<SettingRow>)
    ensures
        row_views(rows@) == rows_of(*settings),
{
    let mut rows: Vec<SettingRow> = Vec::new();
    rows.push(setting_row(KEY_POLICY_ENABLED, flag_value(settings.policy_enabled)));
    rows.push(setting_row(KEY_REQUEST_RECORD_ENABLED, flag_value(settings.request_record_enabled)));
    rows.push(
        setting_row(
            KEY_RESPONSE_HEADER_TIMEOUT_MS,
            decimal_text(settings.response_header_timeout_ms),
        ),
    );
    rows.push(
        setting_row(KEY_FIRST_TOKEN_TIMEOUT_MS, decimal_text(settings.first_token_timeout_ms)),
    );
    rows.push(setting_row(KEY_MAX_ATTEMPTS, decimal_text(settings.max_attempts)));
    rows.push(setting_row(KEY_AUTO_RETRY_ENABLED, flag_value(settings.auto_retry_enabled)));
    assert(row_views(rows@) =~= rows_of(*settings));
    rows
}

/// The rows to add so that every setting is stored: the defaults of `config`
/// for the keys that `rows` does not set.
pub fn ensure_defaults(rows: &[SettingRow], config: &AppConfig) -> (added: Vec<SettingRow>)
    ensures
        row_views(added@) == missing(table_of(rows@), rows_of(defaults_of(config@))),
{
    let defaults = save_runtime_settings(&RuntimeSettings::from_config(config));
    let ghost table = table_of(rows@);
    let ghost wanted = rows_of(defaults_of(config@));
    let ghost unset = |row: (Seq<char>, Seq<char>)| !table.contains_key(row.0);
    let mut added: Vec<SettingRow> = Vec::new();
    let mut i: usize = 0;
    proof {
        reveal(Seq::filter);
        assert(row_views(added@) =~= wanted.take(0).filter(unset));
    }
    while i < defaults.len()
        invariant
            i <= defaults@.len(),
            table == table_of(rows@),
            row_views(defaults@) == wanted,
            unset == (|row: (Seq<char>, Seq<char>)| !table.contains_key(row.0)),
            row_views(added@) == wanted.take(i as int).filter(unset),
        decreases defaults@.len() - i,
    {
        let ghost before = row_views(added@);
        proof {
            reveal(Seq::filter);
            assert(wanted.take(i + 1).drop_last() =~= wanted.take(i as int));
            assert(wanted.take(i + 1).last() == wanted[i as int]);
            assert(wanted[i as int] == defaults@[i as int]@);
        }
        if find_setting(rows, defaults[i].key.as_str()).is_none() {
            let row = setting_row(defaults[i].key.as_str(), defaults[i].value.clone());
            added.push(row);
            assert(row_views(added@) =~= before.push(wanted[i as int]));
        }
        i += 1;
    }
    assert(wanted.take(wanted.len() as int) =~= wanted);
    added
}

}
