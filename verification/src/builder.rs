//! What a ladder is signed with: settings and a manifest definition.

use vstd::prelude::*;

use crate::text::same_text;

verus! {

/// The value of a setting.
#[derive(Clone, Copy, Debug, PartialEq, Eq, Structural)]
pub enum SettingValue {
    Flag(bool),
    Number(u64),
}

/// A value that was given to a setting.
#[derive(Clone, Debug)]
pub struct SettingEntry {
    pub key: String,
    pub value: SettingValue,
}

/// The settings that differ from their defaults.
#[derive(Clone, Debug)]
pub struct Settings {
    /// The values in the order in which they were given.
    pub entries: Vec<SettingEntry>,
    /// Whether the default trust anchors are used.
    pub trust_anchors: bool,
}

/// The model of settings: the value of each setting that was given one.
pub ghost struct SettingsModel {
    pub values: Map<Seq<char>, SettingValue>,
    pub trust_anchors: bool,
}

/// The value that each setting has after the entries, of which a later one wins.
pub open spec fn values_of(entries: Seq<SettingEntry>) -> Map<Seq<char>, SettingValue>
    decreases entries.len(),
{
    if entries.len() == 0 {
        Map::empty()
    } else {
        values_of(entries.drop_last()).insert(entries.last().key@, entries.last().value)
    }
}

impl View for Settings {
    type V = SettingsModel;

    open spec fn view(&self) -> SettingsModel {
        SettingsModel { values: values_of(self.entries@), trust_anchors: self.trust_anchors }
    }
}

impl SettingsModel {
    /// The settings of which none differs from its default.
    pub open spec fn defaults() -> SettingsModel {
        SettingsModel { values: Map::empty(), trust_anchors: true }
    }

    /// The settings with one more value given.
    pub open spec fn with(self, key: Seq<char>, value: SettingValue) -> SettingsModel {
        SettingsModel { values: self.values.insert(key, value), ..self }
    }
}

impl Settings {
    /// The default settings.
    pub fn new() -> (settings: Settings)
        ensures
            settings@ == SettingsModel::defaults(),
    {
        Settings { entries: Vec::new(), trust_anchors: true }
    }

    /// Gives a value to a setting.
    pub fn with_value(self, key: &str, value: SettingValue) -> (settings: Settings)
        ensures
            settings@ == self@.with(key@, value),
    {
        let mut settings = self;
        settings.entries.push(SettingEntry { key: String::from_str(key), value });
        assert(settings.entries@.drop_last() =~= self.entries@);
        settings
    }

    /// Does without trust anchors.
    pub fn without_trust_anchors(self) -> (settings: Settings)
        ensures
            settings@ == (SettingsModel { trust_anchors: false, ..self@ }),
    {
        let mut settings = self;
        settings.trust_anchors = false;
        settings
    }

    /// The value that a setting was given, if any.
    pub fn value(&self, key: &str) -> (value: Option<SettingValue>)
        ensures
            value == if self@.values.dom().contains(key@) {
                Some(self@.values[key@])
            } else {
                None
            },
    {
        let mut left: usize = self.entries.len();
        assert(self.entries@.take(left as int) =~= self.entries@);
        while left > 0
            invariant
                left <= self.entries@.len(),
                values_of(self.entries@.take(left as int)).dom().contains(key@)
                    == self@.values.dom().contains(key@),
                self@.values.dom().contains(key@) ==> values_of(
                    self.entries@.take(left as int),
                )[key@] == self@.values[key@],
            decreases left,
        {
            left -= 1;
            assert(self.entries@.take(left + 1).drop_last() =~= self.entries@.take(left as int));
            if same_text(self.entries[left].key.as_str(), key) {
                return Some(self.entries[left].value);
            }
        }
        None
    }
}

/// A manifest builder: settings, a manifest definition, and where the manifest is to go.
#[derive(Clone, Debug)]
pub struct Builder {
    pub settings: Settings,
    pub definition: String,
    pub no_embed: bool,
    pub remote_url: Option<String>,
}

/// The model of a builder.
pub ghost struct BuilderModel {
    pub settings: SettingsModel,
    pub definition: Seq<char>,
    pub no_embed: bool,
    pub remote_url: Option<Seq<char>>,
}

impl View for Builder {
    type V = BuilderModel;

    open spec fn view(&self) -> BuilderModel {
        BuilderModel {
            settings: self.settings@,
            definition: self.definition@,
            no_embed: self.no_embed,
            remote_url: match self.remote_url {
                Some(url) => Some(url@),
                None => None,
            },
        }
    }
}

impl Builder {
    /// A builder with these settings, which embeds a manifest without a definition yet.
    pub fn from_settings(settings: Settings) -> (builder: Builder)
        ensures
            builder@ == (BuilderModel {
                settings: settings@,
                definition: Seq::empty(),
                no_embed: false,
                remote_url: None,
            }),
    {
        Builder { settings, definition: String::new(), no_embed: false, remote_url: None }
    }

    /// Gives the builder a manifest definition.
    pub fn with_definition(self, definition: &str) -> (builder: Builder)
        ensures
            builder@ == (BuilderModel { definition: definition@, ..self@ }),
    {
        let mut builder = self;
        builder.definition = String::from_str(definition);
        builder
    }

    /// Whether the manifest is kept out of the file.
    pub fn set_no_embed(&mut self, no_embed: bool)
        ensures
            final(self)@ == (BuilderModel { no_embed, ..old(self)@ }),
    {
        self.no_embed = no_embed;
    }

    /// Has the file refer to a remote manifest.
    pub fn set_remote_url(&mut self, url: &str)
        ensures
            final(self)@ == (BuilderModel { remote_url: Some(url@), ..old(self)@ }),
    {
        self.remote_url = Some(String::from_str(url));
    }
}

/// The definition of the manifests of a ladder: a title, and an action that says that the asset
/// was created digitally.
pub const DEFINITION: &'static str = r#"{"title":"ladder","assertions":[{"label":"c2pa.actions","data":{"actions":[{"action":"c2pa.created","digitalSourceType":"http://cv.iptc.org/newscodes/digitalsourcetype/digitalCreation"}]}}]}"#;

/// Whether a signed file is verified.
pub const VERIFY_AFTER_SIGN: &'static str = "verify.verify_after_sign";

/// Whether the verification of a signed file includes its hashes.
pub const VERIFY_AFTER_SIGN_HASH: &'static str = "verify.verify_after_sign_hash";

/// Whether manifests are compressed where they can be.
pub const PREFER_COMPRESS_MANIFESTS: &'static str = "core.prefer_compress_manifests";

/// How many leaves a Merkle tree may have.
pub const MERKLE_TREE_MAX_LEAVES: &'static str = "core.merkle_tree_max_leaves";

/// The builder of an ordinary ladder: it verifies what it has signed.
pub fn builder() -> (builder: Builder)
    ensures
        builder@ == (BuilderModel {
            settings: SettingsModel::defaults().with(VERIFY_AFTER_SIGN@, SettingValue::Flag(true)),
            definition: DEFINITION@,
            no_embed: false,
            remote_url: None,
        }),
        builder@.settings.values == map![
            "verify.verify_after_sign"@ => SettingValue::Flag(true),
        ],
        builder@.definition == r#"{"title":"ladder","assertions":[{"label":"c2pa.actions","data":{"actions":[{"action":"c2pa.created","digitalSourceType":"http://cv.iptc.org/newscodes/digitalsourcetype/digitalCreation"}]}}]}"#@,
        builder@.settings.trust_anchors,
{
    let settings = Settings::new().with_value(VERIFY_AFTER_SIGN, SettingValue::Flag(true));
    Builder::from_settings(settings).with_definition(DEFINITION)
}

/// The builder of a ladder that is signed with given verification settings and without trust
/// anchors, so that an untrusted credential makes no manifest invalid.
pub fn verifying_builder(verify: bool, hashes: bool) -> (builder: Builder)
    ensures
        builder@ == (BuilderModel {
            settings: SettingsModel {
                trust_anchors: false,
                ..SettingsModel::defaults().with(
                    VERIFY_AFTER_SIGN@,
                    SettingValue::Flag(verify),
                ).with(VERIFY_AFTER_SIGN_HASH@, SettingValue::Flag(hashes))
            },
            definition: DEFINITION@,
            no_embed: false,
            remote_url: None,
        }),
        builder@.settings.values == map![
            "verify.verify_after_sign"@ => SettingValue::Flag(verify),
            "verify.verify_after_sign_hash"@ => SettingValue::Flag(hashes),
        ],
        !builder@.settings.trust_anchors,
{
    let settings = Settings::new().with_value(
        VERIFY_AFTER_SIGN,
        SettingValue::Flag(verify),
    ).with_value(VERIFY_AFTER_SIGN_HASH, SettingValue::Flag(hashes)).without_trust_anchors();
    Builder::from_settings(settings).with_definition(DEFINITION)
}

/// A setting has the value that it was given last, and giving it one leaves the others alone.
pub proof fn law_last_value_wins(
    settings: SettingsModel,
    key: Seq<char>,
    first: SettingValue,
    last: SettingValue,
    other: Seq<char>,
)
    requires
        other != key,
    ensures
        settings.with(key, first).with(key, last) == settings.with(key, last),
        settings.with(key, last).values[key] == last,
        settings.with(key, last).values.dom().contains(other) == settings.values.dom().contains(
            other,
        ),
        settings.with(key, last).values[other] == settings.values[other],
{
    assert(settings.with(key, first).with(key, last).values =~= settings.with(key, last).values);
}

/// A setting has the value of the last entry with its key, whatever came before and whatever keys
/// stand behind; without such an entry it has none.
pub proof fn law_settings_have_their_last_values(settings: Settings, key: Seq<char>, last: int)
    ensures
        settings@.trust_anchors == settings.trust_anchors,
        (forall|k: int| 0 <= k < settings.entries@.len() ==> (#[trigger] settings.entries@[k]).key@
            != key) ==> !settings@.values.dom().contains(key),
        0 <= last < settings.entries@.len() && settings.entries@[last].key@ == key && (forall|k: int|
            last < k < settings.entries@.len() ==> (#[trigger] settings.entries@[k]).key@ != key)
            ==> settings@.values.dom().contains(key) && settings@.values[key]
            == settings.entries@[last].value,
{
    lemma_last_entry_wins(settings.entries@, key, last);
}

proof fn lemma_last_entry_wins(entries: Seq<SettingEntry>, key: Seq<char>, last: int)
    ensures
        (forall|k: int| 0 <= k < entries.len() ==> (#[trigger] entries[k]).key@ != key)
            ==> !values_of(entries).dom().contains(key),
        0 <= last < entries.len() && entries[last].key@ == key && (forall|k: int|
            last < k < entries.len() ==> (#[trigger] entries[k]).key@ != key) ==> values_of(
            entries,
        ).dom().contains(key) && values_of(entries)[key] == entries[last].value,
    decreases entries.len(),
{
    if entries.len() > 0 {
        let rest = entries.drop_last();
        lemma_last_entry_wins(rest, key, last);
        assert forall|k: int| 0 <= k < rest.len() implies #[trigger] rest[k] == entries[k] by {}
        assert(entries.last() == entries[entries.len() - 1]);
    }
}

/// The model of a builder holds what the builder holds.
pub proof fn law_builder_model_holds_the_builder(builder: Builder)
    ensures
        builder@.settings == builder.settings@,
        builder@.definition == builder.definition@,
        builder@.no_embed == builder.no_embed,
        builder@.remote_url is Some <==> builder.remote_url is Some,
        builder.remote_url matches Some(url) ==> builder@.remote_url == Some(url@),
{
}

/// By default no setting has a value of its own, and the trust anchors are used.
pub proof fn law_defaults_give_no_value(key: Seq<char>)
    ensures
        !SettingsModel::defaults().values.dom().contains(key),
        SettingsModel::defaults().trust_anchors,
{
}

/// A setting that was given a value has it; the trust anchors stay as they were, and so does
/// whether any other setting has a value, and which.
pub proof fn law_given_values_are_had(
    settings: SettingsModel,
    key: Seq<char>,
    value: SettingValue,
    other: Seq<char>,
)
    ensures
        settings.with(key, value).values.dom().contains(key),
        settings.with(key, value).values[key] == value,
        settings.with(key, value).trust_anchors == settings.trust_anchors,
        other != key ==> (settings.with(key, value).values.dom().contains(other)
            <==> settings.values.dom().contains(other)),
        other != key && settings.values.dom().contains(other) ==> settings.with(
            key,
            value,
        ).values[other] == settings.values[other],
{
}

} // verus!
