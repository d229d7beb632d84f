//! Formatter configuration: a global file under the user's configuration
//! directory and a per-project file, merged so that the project file wins.
use vstd::prelude::*;
use crate::text::{ascii_lower_spec, to_ascii_lowercase};
use crate::paths::{join_path, join_path_spec};

verus! {

/// A map from file extension to formatter command template. Keys are kept
/// distinct; the map's view is the `Map` it stands for.
#[derive(Debug)]
pub struct CommandMap {
    entries: Vec<(String, String)>,
}

/// The map that a list of entries stands for; a later entry for a key
/// takes the place of an earlier one.
pub open spec fn entries_map(s: Seq<(String, String)>) -> Map<Seq<char>, Seq<char>>
    decreases s.len(),
{
    if s.len() == 0 {
        Map::empty()
    } else {
        entries_map(s.drop_last()).insert(s.last().0@, s.last().1@)
    }
}

/// No key occurs twice in `s`.
pub open spec fn keys_distinct(s: Seq<(String, String)>) -> bool {
    forall|i: int, j: int| 0 <= i < s.len() && 0 <= j < s.len() && i != j ==> s[i].0@ != s[j].0@
}

proof fn lemma_entries_map_keys(s: Seq<(String, String)>, k: Seq<char>)
    ensures
        entries_map(s).contains_key(k) <==> exists|i: int| 0 <= i < s.len() && s[i].0@ == k,
    decreases s.len(),
{
    if s.len() > 0 {
        lemma_entries_map_keys(s.drop_last(), k);
        if entries_map(s).contains_key(k) && s.last().0@ != k {
            let i = choose|i: int| 0 <= i < s.drop_last().len() && s.drop_last()[i].0@ == k;
            assert(s[i].0@ == k);
        }
        if exists|i: int| 0 <= i < s.len() && s[i].0@ == k {
            let i = choose|i: int| 0 <= i < s.len() && s[i].0@ == k;
            if i < s.len() - 1 {
                assert(s.drop_last()[i].0@ == k);
            }
        }
    }
}

proof fn lemma_entries_map_value(s: Seq<(String, String)>, i: int)
    requires
        keys_distinct(s),
        0 <= i < s.len(),
    ensures
        entries_map(s).contains_key(s[i].0@),
        entries_map(s)[s[i].0@] == s[i].1@,
    decreases s.len(),
{
    if i < s.len() - 1 {
        assert(keys_distinct(s.drop_last()));
        assert(s.drop_last()[i] == s[i]);
        lemma_entries_map_value(s.drop_last(), i);
    }
}

proof fn lemma_entries_map_update(s: Seq<(String, String)>, j: int, e: (String, String))
    requires
        keys_distinct(s),
        0 <= j < s.len(),
        s[j].0@ == e.0@,
    ensures
        keys_distinct(s.update(j, e)),
        entries_map(s.update(j, e)) == entries_map(s).insert(e.0@, e.1@),
    decreases s.len(),
{
    let t = s.update(j, e);
    if j == s.len() - 1 {
        assert(t.drop_last() =~= s.drop_last());
    } else {
        assert(keys_distinct(s.drop_last()));
        lemma_entries_map_update(s.drop_last(), j, e);
        assert(t.drop_last() =~= s.drop_last().update(j, e));
        assert(s.last().0@ != e.0@);
    }
    assert(entries_map(t) =~= entries_map(s).insert(e.0@, e.1@));
}

impl View for CommandMap {
    type V = Map<Seq<char>, Seq<char>>;

    closed spec fn view(&self) -> Map<Seq<char>, Seq<char>> {
        entries_map(self.entries@)
    }
}

impl CommandMap {
    #[verifier::type_invariant]
    spec fn inv(self) -> bool {
        keys_distinct(self.entries@)
    }

    /// The empty map.
    pub fn new() -> (m: CommandMap)
        ensures
            m@ == Map::<Seq<char>, Seq<char>>::empty(),
    {
        CommandMap { entries: Vec::new() }
    }

    /// The number of keys.
    pub fn len(&self) -> (n: usize)
        ensures
            n == self@.dom().len(),
    {
        proof {
            use_type_invariant(self);
            self.lemma_len();
        }
        self.entries.len()
    }

    proof fn lemma_len(&self)
        requires
            keys_distinct(self.entries@),
        ensures
            self.entries@.len() == self@.dom().len(),
    {
        lemma_distinct_len(self.entries@);
    }

    /// Sets `key` to `value`, replacing any value it had.
    pub fn insert(&mut self, key: String, value: String)
        ensures
            final(self)@ == old(self)@.insert(key@, value@),
    {
        proof {
            use_type_invariant(&*self);
        }
        let mut j: usize = 0;
        while j < self.entries.len()
            invariant
                keys_distinct(self.entries@),
                self.entries@ == old(self).entries@,
                j <= self.entries@.len(),
                forall|i: int| 0 <= i < j ==> self.entries@[i].0@ != key@,
            decreases self.entries@.len() - j,
        {
            if self.entries[j].0 == key {
                let ghost before = self.entries@;
                let mut entries: Vec<(String, String)> = Vec::new();
        std::mem::swap(&mut entries, &mut self.entries);
                proof {
                    lemma_entries_map_update(before, j as int, (key, value));
                }
                entries.set(j, (key, value));
                self.entries = entries;
                return;
            }
            j += 1;
        }
        let ghost before = self.entries@;
        let mut entries: Vec<(String, String)> = Vec::new();
        std::mem::swap(&mut entries, &mut self.entries);
        entries.push((key, value));
        proof {
            assert(entries@.drop_last() =~= before);
            assert forall|a: int, b: int|
                0 <= a < entries@.len() && 0 <= b < entries@.len() && a != b implies entries@[a].0@
                != entries@[b].0@ by {
                if a < before.len() && b < before.len() {
                    assert(before[a] == entries@[a] && before[b] == entries@[b]);
                }
            }
        }
        self.entries = entries;
    }

    /// The value for `key`, if it has one.
    pub fn get(&self, key: &str) -> (r: Option<String>)
        ensures
            r matches Some(v) ==> self@.contains_key(key@) && v@ == self@[key@],
            r is None ==> !self@.contains_key(key@),
    {
        proof {
            use_type_invariant(self);
        }
        let k = String::from_str(key);
        let mut j: usize = 0;
        while j < self.entries.len()
            invariant
                keys_distinct(self.entries@),
                k@ == key@,
                j <= self.entries@.len(),
                forall|i: int| 0 <= i < j ==> self.entries@[i].0@ != key@,
            decreases self.entries@.len() - j,
        {
            if self.entries[j].0 == k {
                proof {
                    lemma_entries_map_value(self.entries@, j as int);
                }
                return Some(self.entries[j].1.clone());
            }
            j += 1;
        }
        proof {
            lemma_entries_map_keys(self.entries@, key@);
        }
        None
    }

    /// The entries as (key, value) pairs, each key once.
    pub fn to_pairs(&self) -> (v: Vec<(String, String)>)
        ensures
            keys_distinct(v@),
            entries_map(v@) == self@,
    {
        proof {
            use_type_invariant(self);
        }
        copy_entries(&self.entries)
    }
}

impl Clone for CommandMap {
    fn clone(&self) -> (r: Self)
        ensures
            r@ == self@,
    {
        proof {
            use_type_invariant(self);
        }
        CommandMap { entries: copy_entries(&self.entries) }
    }
}

/// A copy of `v`, entry by entry.
fn copy_entries(v: &Vec<(String, String)>) -> (r: Vec<(String, String)>)
    ensures
        r@.len() == v@.len(),
        forall|i: int| 0 <= i < v@.len() ==> r@[i].0@ == v@[i].0@ && r@[i].1@ == v@[i].1@,
        keys_distinct(v@) ==> keys_distinct(r@),
        entries_map(r@) == entries_map(v@),
{
    let mut r: Vec<(String, String)> = Vec::new();
    let mut i: usize = 0;
    while i < v.len()
        invariant
            i <= v@.len(),
            r@.len() == i,
            forall|j: int| 0 <= j < i ==> r@[j].0@ == v@[j].0@ && r@[j].1@ == v@[j].1@,
        decreases v@.len() - i,
    {
        let k = v[i].0.clone();
        let x = v[i].1.clone();
        r.push((k, x));
        i += 1;
    }
    proof {
        lemma_entries_map_same(r@, v@);
    }
    r
}

proof fn lemma_entries_map_same(a: Seq<(String, String)>, b: Seq<(String, String)>)
    requires
        a.len() == b.len(),
        forall|i: int| 0 <= i < a.len() ==> a[i].0@ == b[i].0@ && a[i].1@ == b[i].1@,
    ensures
        entries_map(a) == entries_map(b),
    decreases a.len(),
{
    if a.len() > 0 {
        lemma_entries_map_same(a.drop_last(), b.drop_last());
    }
}

proof fn lemma_distinct_len(s: Seq<(String, String)>)
    requires
        keys_distinct(s),
    ensures
        entries_map(s).dom().finite(),
        entries_map(s).dom().len() == s.len(),
    decreases s.len(),
{
    if s.len() > 0 {
        let t = s.drop_last();
        assert(keys_distinct(t));
        lemma_distinct_len(t);
        lemma_entries_map_keys(t, s.last().0@);
        if entries_map(t).contains_key(s.last().0@) {
            let i = choose|i: int| 0 <= i < t.len() && t[i].0@ == s.last().0@;
            assert(s[i].0@ == s[s.len() - 1].0@);
        }
    }
}


/// Formatter settings: whether formatting is on, and the command template
/// for each lower-case file extension (e.g. `rs` -> `rustfmt {file}`).
#[derive(Debug)]
pub struct FormatterConfig {
    pub enable: Option<bool>,
    pub commands: Option<CommandMap>,
}

/// The whole configuration.
#[derive(Debug)]
pub struct AppConfig {
    pub formatter: Option<FormatterConfig>,
}

/// What a `FormatterConfig` holds.
pub struct FormatterView {
    pub enable: Option<bool>,
    pub commands: Option<Map<Seq<char>, Seq<char>>>,
}

/// What an `AppConfig` holds.
pub struct ConfigView {
    pub formatter: Option<FormatterView>,
}

/// The view of an optional command map.
pub open spec fn commands_view(m: Option<CommandMap>) -> Option<Map<Seq<char>, Seq<char>>> {
    match m {
        Some(m) => Some(m@),
        None => None,
    }
}

impl View for FormatterConfig {
    type V = FormatterView;

    open spec fn view(&self) -> FormatterView {
        FormatterView { enable: self.enable, commands: commands_view(self.commands) }
    }
}

/// The view of an optional formatter section.
pub open spec fn formatter_view(f: Option<FormatterConfig>) -> Option<FormatterView> {
    match f {
        Some(f) => Some(f@),
        None => None,
    }
}

impl View for AppConfig {
    type V = ConfigView;

    open spec fn view(&self) -> ConfigView {
        ConfigView { formatter: formatter_view(self.formatter) }
    }
}

/// The configuration with nothing set.
pub open spec fn empty_config() -> ConfigView {
    ConfigView { formatter: None }
}

impl Default for FormatterConfig {
    fn default() -> (r: FormatterConfig)
        ensures
            r.enable is None,
            r.commands is None,
    {
        FormatterConfig { enable: None, commands: None }
    }
}

impl Default for AppConfig {
    fn default() -> (r: AppConfig)
        ensures
            r@ == empty_config(),
    {
        AppConfig { formatter: None }
    }
}

/// Two optional command maps merged: where both are present, the overlay's
/// entries replace the base's for the same extension.
pub open spec fn merge_maps_spec(
    base: Option<Map<Seq<char>, Seq<char>>>,
    overlay: Option<Map<Seq<char>, Seq<char>>>,
) -> Option<Map<Seq<char>, Seq<char>>> {
    match (base, overlay) {
        (None, None) => None,
        (Some(b), None) => Some(b),
        (None, Some(o)) => Some(o),
        (Some(b), Some(o)) => Some(b.union_prefer_right(o)),
    }
}

/// The overlay's setting if it has one, else the base's.
pub open spec fn or_spec(overlay: Option<bool>, base: Option<bool>) -> Option<bool> {
    match overlay {
        Some(x) => Some(x),
        None => base,
    }
}

/// Two optional formatter sections merged field by field.
pub open spec fn merge_formatter_spec(base: Option<FormatterView>, overlay: Option<FormatterView>) -> Option<
    FormatterView,
> {
    match (base, overlay) {
        (None, None) => None,
        (Some(b), None) => Some(b),
        (None, Some(o)) => Some(o),
        (Some(b), Some(o)) => Some(
            FormatterView {
                enable: or_spec(o.enable, b.enable),
                commands: merge_maps_spec(b.commands, o.commands),
            },
        ),
    }
}

/// The global configuration with the local one laid over it.
pub open spec fn merge_configs_spec(global: ConfigView, local: ConfigView) -> ConfigView {
    ConfigView { formatter: merge_formatter_spec(global.formatter, local.formatter) }
}

/// The `enable` setting, if the configuration makes one.
pub open spec fn enable_setting(c: ConfigView) -> Option<bool> {
    match c.formatter {
        Some(f) => f.enable,
        None => None,
    }
}

/// Formatting is on unless the configuration turns it off.
pub open spec fn formatter_enabled_spec(c: ConfigView) -> bool {
    match enable_setting(c) {
        Some(e) => e,
        None => true,
    }
}

/// The command template for `ext`, looked up under its ASCII lower-case form.
pub open spec fn command_for_ext_spec(c: ConfigView, ext: Seq<char>) -> Option<Seq<char>> {
    let k = ascii_lower_spec(ext);
    match c.formatter {
        Some(f) => match f.commands {
            Some(m) => if m.contains_key(k) {
                Some(m[k])
            } else {
                None
            },
            None => None,
        },
        None => None,
    }
}

/// An optional configuration, with a missing one read as the empty one.
pub open spec fn config_or_empty(c: Option<AppConfig>) -> ConfigView {
    match c {
        Some(c) => c@,
        None => empty_config(),
    }
}

/// Merges two optional command maps; the overlay wins for a shared key.
pub fn merge_maps(base: Option<CommandMap>, overlay: Option<CommandMap>) -> (r: Option<CommandMap>)
    ensures
        commands_view(r) == merge_maps_spec(commands_view(base), commands_view(overlay)),
{
    match (base, overlay) {
        (None, None) => None,
        (Some(b), None) => Some(b),
        (None, Some(o)) => Some(o),
        (Some(b), Some(o)) => {
            let ghost b0 = b@;
            let pairs = o.to_pairs();
            let mut m = b;
            let mut i: usize = 0;
            proof {
                assert(b0.union_prefer_right(entries_map(pairs@.take(0))) =~= b0);
            }
            while i < pairs.len()
                invariant
                    i <= pairs@.len(),
                    m@ == b0.union_prefer_right(entries_map(pairs@.take(i as int))),
                decreases pairs@.len() - i,
            {
                let k = pairs[i].0.clone();
                let v = pairs[i].1.clone();
                m.insert(k, v);
                proof {
                    let t = pairs@.take(i + 1);
                    assert(t.drop_last() =~= pairs@.take(i as int));
                    assert(t.last() == pairs@[i as int]);
                    assert(m@ =~= b0.union_prefer_right(entries_map(t)));
                }
                i += 1;
            }
            proof {
                assert(pairs@.take(pairs@.len() as int) =~= pairs@);
            }
            Some(m)
        },
    }
}

/// Merges two optional formatter sections: the overlay's `enable` wins when
/// set, and the command maps are merged.
pub fn merge_formatter(base: Option<FormatterConfig>, overlay: Option<FormatterConfig>) -> (r: Option<
    FormatterConfig,
>)
    ensures
        formatter_view(r) == merge_formatter_spec(formatter_view(base), formatter_view(overlay)),
{
    match (base, overlay) {
        (None, None) => None,
        (Some(b), None) => Some(b),
        (None, Some(o)) => Some(o),
        (Some(b), Some(o)) => {
            let enable = match o.enable {
                Some(x) => Some(x),
                None => b.enable,
            };
            Some(FormatterConfig { enable, commands: merge_maps(b.commands, o.commands) })
        },
    }
}

/// The global configuration with the local one laid over it.
pub fn merge_configs(global: AppConfig, local: AppConfig) -> (r: AppConfig)
    ensures
        r@ == merge_configs_spec(global@, local@),
{
    AppConfig { formatter: merge_formatter(global.formatter, local.formatter) }
}

/// The effective configuration from the parsed global and local files; a
/// file that could not be read or parsed counts as empty.
pub fn load_config(global: Option<AppConfig>, local: Option<AppConfig>) -> (r: AppConfig)
    ensures
        r@ == merge_configs_spec(config_or_empty(global), config_or_empty(local)),
{
    let g = match global {
        Some(c) => c,
        None => AppConfig::default(),
    };
    let l = match local {
        Some(c) => c,
        None => AppConfig::default(),
    };
    merge_configs(g, l)
}

/// The path of the global configuration file inside the application's
/// configuration directory.
pub fn global_config_path(app_config_dir: &str) -> (p: String)
    ensures
        p@ == join_path_spec(app_config_dir@, "config.toml"@),
{
    join_path(app_config_dir, "config.toml")
}

/// The path of the per-project configuration file, relative to the
/// working directory.
pub fn local_config_path() -> (p: String)
    ensures
        p@ == ".afkaracode.toml"@,
{
    String::from_str(".afkaracode.toml")
}

impl AppConfig {
    /// Whether formatting is on; it is unless the configuration turns it off.
    pub fn formatter_enabled(&self) -> (b: bool)
        ensures
            b == formatter_enabled_spec(self@),
    {
        match &self.formatter {
            Some(f) => match f.enable {
                Some(e) => e,
                None => true,
            },
            None => true,
        }
    }

    /// The command template for files with extension `ext`, matched without
    /// regard to ASCII case.
    pub fn command_for_ext(&self, ext: &str) -> (r: Option<String>)
        ensures
            match r {
                Some(c) => command_for_ext_spec(self@, ext@) == Some(c@),
                None => command_for_ext_spec(self@, ext@) is None,
            },
    {
        match &self.formatter {
            Some(f) => match &f.commands {
                Some(m) => {
                    let k = to_ascii_lowercase(ext);
                    m.get(k.as_str())
                },
                None => None,
            },
            None => None,
        }
    }
}

/// Merging with the empty configuration, on either side, changes nothing.
pub proof fn lemma_merge_empty_identity(c: ConfigView)
    ensures
        merge_configs_spec(empty_config(), c) == c,
        merge_configs_spec(c, empty_config()) == c,
{
}

/// Laying configurations over one another is associative: merging `a`, `b`
/// and `c` in order gives the same result however the merges are grouped.
pub proof fn lemma_merge_associative(a: ConfigView, b: ConfigView, c: ConfigView)
    ensures
        merge_configs_spec(merge_configs_spec(a, b), c) == merge_configs_spec(
            a,
            merge_configs_spec(b, c),
        ),
{
    match (a.formatter, b.formatter, c.formatter) {
        (Some(fa), Some(fb), Some(fc)) => {
            match (fa.commands, fb.commands, fc.commands) {
                (Some(ma), Some(mb), Some(mc)) => {
                    assert(ma.union_prefer_right(mb).union_prefer_right(mc) =~= ma.union_prefer_right(
                        mb.union_prefer_right(mc),
                    ));
                },
                _ => {},
            }
        },
        _ => {},
    }
}

/// The local `enable` setting, when present, decides; otherwise the global
/// one does; with neither, formatting is on.
pub proof fn lemma_merged_enable_prefers_local(global: ConfigView, local: ConfigView)
    ensures
        formatter_enabled_spec(merge_configs_spec(global, local)) == match enable_setting(local) {
            Some(e) => e,
            None => formatter_enabled_spec(global),
        },
{
}

/// The local command for an extension, when present, decides; otherwise
/// the global one is used.
pub proof fn lemma_merged_command_prefers_local(global: ConfigView, local: ConfigView, ext: Seq<char>)
    ensures
        command_for_ext_spec(merge_configs_spec(global, local), ext) == match command_for_ext_spec(
            local,
            ext,
        ) {
            Some(c) => Some(c),
            None => command_for_ext_spec(global, ext),
        },
{
}

} // verus!
