//! The audio settings that the engine decisions read.

use vstd::prelude::*;

verus! {

/// One sound-font entry of a configuration.
pub struct SfEntry {
    pub path: String,
    pub name: String,
    pub enabled: bool,
}

/// The global sound-font configuration.
pub struct GlobalSfConfig {
    pub entries: Vec<SfEntry>,
    pub global_enabled: bool,
}

/// Audio and autosave settings.
pub struct AudioSettings {
    pub sample_rate: u32,
    /// 0 = the device default.
    pub buffer_size: u32,
    /// `None` = the system default output.
    pub output_device_name: Option<String>,
    pub use_gpu_synth: bool,
    pub global_sf_config: GlobalSfConfig,
    pub auto_save_enabled: bool,
    pub auto_save_interval_secs: u64,
}

/// An optional string as plain values.
pub open spec fn opt_text(o: Option<String>) -> Option<Seq<char>> {
    match o {
        Some(s) => Some(s@),
        None => None,
    }
}

/// A list of strings as plain values.
pub open spec fn texts(v: Seq<String>) -> Seq<Seq<char>> {
    v.map_values(|s: String| s@)
}

/// A copy of an optional string.
pub fn copy_opt_string(o: &Option<String>) -> (r: Option<String>)
    ensures
        opt_text(r) == opt_text(*o),
{
    match o {
        Some(s) => Some(s.clone()),
        None => None,
    }
}

/// Equality of two optional strings.
pub fn opt_string_eq(a: &Option<String>, b: &Option<String>) -> (r: bool)
    ensures
        r == (opt_text(*a) == opt_text(*b)),
{
    match (a, b) {
        (Some(x), Some(y)) => *x == *y,
        (None, None) => true,
        _ => false,
    }
}

/// Equality of two lists of strings, element by element.
pub fn strings_eq(a: &Vec<String>, b: &Vec<String>) -> (r: bool)
    ensures
        r == (texts(a@) == texts(b@)),
{
    if a.len() != b.len() {
        proof {
            assert(texts(a@).len() != texts(b@).len());
        }
        return false;
    }
    let mut i: usize = 0;
    while i < a.len()
        invariant
            i <= a@.len(),
            a@.len() == b@.len(),
            forall|j: int| 0 <= j < i ==> a@[j]@ == b@[j]@,
        decreases a@.len() - i,
    {
        if a[i] != b[i] {
            proof {
                assert(texts(a@)[i as int] != texts(b@)[i as int]);
            }
            return false;
        }
        i += 1;
    }
    proof {
        assert(texts(a@) =~= texts(b@));
    }
    true
}

} // verus!
