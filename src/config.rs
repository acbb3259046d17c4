//! The preset configuration, once loaded: lookup by name and validation.
use crate::collect::Preset;
use indexmap::IndexMap;
use vstd::prelude::*;

verus! {

#[verifier::external_type_specification]
#[verifier::external_body]
#[verifier::reject_recursive_types(K)]
#[verifier::reject_recursive_types(V)]
#[verifier::reject_recursive_types(S)]
pub struct ExIndexMap<K, V, S>(IndexMap<K, V, S>);

/// The presets of a map, by name, in insertion order.
pub uninterp spec fn preset_entries(m: IndexMap<String, Preset>) -> Seq<(Seq<char>, Preset)>;

/// Relies on `IndexMap::len`: the number of entries.
#[verifier::external_body]
fn preset_count(m: &IndexMap<String, Preset>) -> (r: usize)
    ensures
        r == preset_entries(*m).len(),
{
    m.len()
}

/// A preset's name and the preset, borrowed from a map.
pub type PresetEntry<'a> = (&'a String, &'a Preset);

/// Relies on `IndexMap::get_index`: the entry at a position in insertion
/// order, none past the end; a map holds each key once.
#[verifier::external_body]
fn preset_at<'a>(m: &'a IndexMap<String, Preset>, i: usize) -> (r: Option<PresetEntry<'a>>)
    ensures
        r is Some == (i < preset_entries(*m).len()),
        r matches Some(e) ==> e.0@ == preset_entries(*m)[i as int].0 && *e.1 == preset_entries(*m)[i as int].1,
        r matches Some(e) ==> (forall|j: int| 0 <= j < preset_entries(*m).len() && j != i ==> #[trigger] preset_entries(*m)[j].0 != e.0@),
{
    m.get_index(i)
}

/// Relies on `IndexMap::get`: the preset stored under the name, if any; a
/// map holds each key once.
#[verifier::external_body]
fn preset_lookup<'a>(m: &'a IndexMap<String, Preset>, name: &str) -> (r: Option<&'a Preset>)
    ensures
        r is Some == (exists|i: int| 0 <= i < preset_entries(*m).len() && #[trigger] preset_entries(*m)[i].0 == name@),
        r matches Some(p) ==> (exists|i: int| 0 <= i < preset_entries(*m).len() && #[trigger] preset_entries(*m)[i] == (name@, *p)),
        r matches Some(p) ==> (forall|i: int| 0 <= i < preset_entries(*m).len() && #[trigger] preset_entries(*m)[i].0 == name@ ==> preset_entries(*m)[i].1 == *p),
{
    m.get(name)
}

/// The configuration: its format version and its presets by name.
pub struct ConfigFile {
    pub version: u32,
    pub presets: IndexMap<String, Preset>,
}

/// Why a loaded configuration is refused.
#[derive(Debug, Clone, PartialEq, Eq)]
pub enum ConfigError {
    /// Only format version 1 is known.
    UnsupportedVersion { version: u32 },
    /// A preset without a single selecting pattern.
    EmptyPreset { name: String },
}

/// The configuration holds a preset named `name`.
pub open spec fn has_preset(c: ConfigFile, name: Seq<char>) -> bool {
    exists|i: int| 0 <= i < preset_entries(c.presets).len() && #[trigger] preset_entries(c.presets)[i].0 == name
}

/// The configuration stores `p` under `name`, and nothing else under it.
pub open spec fn stores_preset(c: ConfigFile, name: Seq<char>, p: Preset) -> bool {
    &&& exists|i: int| 0 <= i < preset_entries(c.presets).len() && #[trigger] preset_entries(c.presets)[i] == (name, p)
    &&& forall|i: int|
        0 <= i < preset_entries(c.presets).len() && #[trigger] preset_entries(c.presets)[i].0 == name
            ==> preset_entries(c.presets)[i].1 == p
}

/// Every preset has at least one selecting pattern.
pub open spec fn presets_nonempty(c: ConfigFile) -> bool {
    forall|i: int|
        0 <= i < preset_entries(c.presets).len() ==> (#[trigger] preset_entries(c.presets)[i]).1.includes.len() > 0
}

impl ConfigFile {
    /// The preset stored under `name`, if any.
    pub fn preset(&self, name: &str) -> (r: Option<&Preset>)
        ensures
            r is Some == has_preset(*self, name@),
            r matches Some(p) ==> stores_preset(*self, name@, *p),
    {
        preset_lookup(&self.presets, name)
    }

    /// Accepts the configuration when its version is 1 and every preset has a
    /// selecting pattern; otherwise names the first fault.
    pub fn validate(&self) -> (r: Result<(), ConfigError>)
        ensures
            r is Ok == (self.version == 1 && presets_nonempty(*self)),
            self.version != 1 ==> r == Err::<(), ConfigError>(ConfigError::UnsupportedVersion { version: self.version }),
            r matches Err(ConfigError::EmptyPreset { name }) ==> self.version == 1 && exists|i: int|
                0 <= i < preset_entries(self.presets).len() && preset_entries(self.presets)[i].0 == name@
                    && (#[trigger] preset_entries(self.presets)[i]).1.includes.len() == 0 && forall|k: int|
                    0 <= k < i ==> (#[trigger] preset_entries(self.presets)[k]).1.includes.len() > 0,
    {
        if self.version != 1 {
            return Err(ConfigError::UnsupportedVersion { version: self.version });
        }
        let n = preset_count(&self.presets);
        let mut i: usize = 0;
        while i < n
            invariant
                n == preset_entries(self.presets).len(),
                self.version == 1,
                i <= n,
                forall|k: int| 0 <= k < i ==> (#[trigger] preset_entries(self.presets)[k]).1.includes.len() > 0,
            decreases n - i,
        {
            match preset_at(&self.presets, i) {
                Some((name, preset)) => {
                    if preset.includes.len() == 0 {
                        return Err(ConfigError::EmptyPreset { name: name.clone() });
                    }
                },
                None => {},
            }
            i += 1;
        }
        Ok(())
    }
}

} // verus!
