//! Decisions about the audio engine: which sound fonts each channel loads,
//! whether a running engine already holds the sound fonts a document needs,
//! whether a settings change needs a new engine, and when an engine is to be
//! built for which document.

use vstd::prelude::*;
use crate::audio_settings::{copy_opt_string, opt_string_eq, opt_text, strings_eq, texts, AudioSettings, SfEntry};

verus! {

/// A sound-font configuration as plain values: (source channel, paths).
pub open spec fn sf_config_view(c: (u8, Vec<String>)) -> (u8, Seq<Seq<char>>) {
    (c.0, texts(c.1@))
}

/// `c` is loaded in `engine` with the same channel and the same paths in the
/// same order.
pub open spec fn covered_by(engine: Seq<(u8, Vec<String>)>, c: (u8, Vec<String>)) -> bool {
    exists|e: int| 0 <= e < engine.len() && #[trigger] sf_config_view(engine[e]) == sf_config_view(c)
}

/// Every configuration in `needed` is loaded in `engine`.
pub open spec fn spec_sf_configs_cover(engine: Seq<(u8, Vec<String>)>, needed: Seq<(u8, Vec<String>)>) -> bool {
    forall|n: int| 0 <= n < needed.len() ==> #[trigger] covered_by(engine, needed[n])
}

/// Whether the sound fonts loaded in the engine cover those that `needed` asks
/// for: each `(channel, paths)` of `needed` is loaded exactly so.
pub fn sf_configs_cover(engine: &[(u8, Vec<String>)], needed: &[(u8, Vec<String>)]) -> (r: bool)
    ensures
        r == spec_sf_configs_cover(engine@, needed@),
{
    let mut n: usize = 0;
    while n < needed.len()
        invariant
            n <= needed@.len(),
            forall|k: int| 0 <= k < n ==> #[trigger] covered_by(engine@, needed@[k]),
        decreases needed@.len() - n,
    {
        let mut found = false;
        let mut e: usize = 0;
        while e < engine.len() && !found
            invariant
                e <= engine@.len(),
                n < needed@.len(),
                found ==> covered_by(engine@, needed@[n as int]),
                !found ==> forall|t: int|
                    0 <= t < e ==> #[trigger] sf_config_view(engine@[t]) != sf_config_view(needed@[n as int]),
            decreases engine@.len() - e,
        {
            if engine[e].0 == needed[n].0 && strings_eq(&engine[e].1, &needed[n].1) {
                proof {
                    assert(sf_config_view(engine@[e as int]) == sf_config_view(needed@[n as int]));
                }
                found = true;
            }
            e += 1;
        }
        if !found {
            proof {
                assert(!covered_by(engine@, needed@[n as int]));
            }
            return false;
        }
        n += 1;
    }
    true
}

/// A sound-font entry as plain values: (path, name, enabled).
pub type SfEntryView = (Seq<char>, Seq<char>, bool);

/// The settings that an audio engine is spawned from; other settings (such as
/// the layer count) are applied to a running engine.
pub struct EngineSettingsKey {
    pub sample_rate: u32,
    pub buffer_size: u32,
    pub output_device_name: Option<String>,
    pub use_gpu_synth: bool,
    pub sf_entries: Vec<(String, String, bool)>,
}

/// The entries of a key as plain values.
pub open spec fn sf_entries_view(v: Seq<(String, String, bool)>) -> Seq<SfEntryView> {
    v.map_values(|e: (String, String, bool)| (e.0@, e.1@, e.2))
}

impl EngineSettingsKey {
    /// The key as plain values.
    pub open spec fn key_view(&self) -> (u32, u32, Option<Seq<char>>, bool, Seq<SfEntryView>) {
        (
            self.sample_rate,
            self.buffer_size,
            opt_text(self.output_device_name),
            self.use_gpu_synth,
            sf_entries_view(self.sf_entries@),
        )
    }

    /// The engine-relevant part of the settings: sample rate, buffer size,
    /// output device, GPU synthesis, and the global sound-font entries.
    pub fn of(settings: &AudioSettings) -> (r: Self)
        ensures
            r.sample_rate == settings.sample_rate,
            r.buffer_size == settings.buffer_size,
            opt_text(r.output_device_name) == opt_text(settings.output_device_name),
            r.use_gpu_synth == settings.use_gpu_synth,
            sf_entries_view(r.sf_entries@) == settings.global_sf_config.entries@.map_values(
                |e: crate::audio_settings::SfEntry| (e.path@, e.name@, e.enabled),
            ),
    {
        let src = &settings.global_sf_config.entries;
        let mut sf_entries: Vec<(String, String, bool)> = Vec::new();
        let mut i: usize = 0;
        while i < src.len()
            invariant
                i <= src@.len(),
                sf_entries@.len() == i,
                forall|j: int|
                    0 <= j < i ==> (#[trigger] sf_entries@[j]).0@ == src@[j].path@ && sf_entries@[j].1@
                        == src@[j].name@ && sf_entries@[j].2 == src@[j].enabled,
            decreases src@.len() - i,
        {
            let e = &src[i];
            sf_entries.push((e.path.clone(), e.name.clone(), e.enabled));
            i += 1;
        }
        proof {
            assert(sf_entries_view(sf_entries@) =~= src@.map_values(
                |e: crate::audio_settings::SfEntry| (e.path@, e.name@, e.enabled),
            ));
        }
        EngineSettingsKey {
            sample_rate: settings.sample_rate,
            buffer_size: settings.buffer_size,
            output_device_name: copy_opt_string(&settings.output_device_name),
            use_gpu_synth: settings.use_gpu_synth,
            sf_entries,
        }
    }

    /// Whether the two keys differ in any field (a new engine is needed).
    pub fn differs(&self, other: &Self) -> (r: bool)
        ensures
            r == (self.key_view() != other.key_view()),
    {
        if self.sample_rate != other.sample_rate || self.buffer_size != other.buffer_size
            || self.use_gpu_synth != other.use_gpu_synth {
            return true;
        }
        if !opt_string_eq(&self.output_device_name, &other.output_device_name) {
            return true;
        }
        let a = &self.sf_entries;
        let b = &other.sf_entries;
        if a.len() != b.len() {
            proof {
                assert(sf_entries_view(a@).len() != sf_entries_view(b@).len());
            }
            return true;
        }
        let mut i: usize = 0;
        while i < a.len()
            invariant
                i <= a@.len(),
                a@.len() == b@.len(),
                a@ == self.sf_entries@,
                b@ == other.sf_entries@,
                forall|j: int| 0 <= j < i ==> #[trigger] sf_entries_view(a@)[j] == sf_entries_view(b@)[j],
            decreases a@.len() - i,
        {
            if a[i].0 != b[i].0 || a[i].1 != b[i].1 || a[i].2 != b[i].2 {
                proof {
                    assert(sf_entries_view(a@)[i as int] != sf_entries_view(b@)[i as int]);
                }
                return true;
            }
            i += 1;
        }
        proof {
            assert(sf_entries_view(a@) =~= sf_entries_view(b@));
        }
        false
    }
}

/// The paths of the enabled entries, in order.
pub open spec fn enabled_paths(es: Seq<SfEntry>) -> Seq<Seq<char>>
    decreases es.len(),
{
    if es.len() == 0 {
        Seq::empty()
    } else if es.last().enabled {
        enabled_paths(es.drop_last()).push(es.last().path@)
    } else {
        enabled_paths(es.drop_last())
    }
}

/// The entries of the first override of channel `ch`, if any.
pub open spec fn first_override(ovs: Seq<(u8, Vec<SfEntry>)>, ch: u8) -> Option<Seq<SfEntry>>
    decreases ovs.len(),
{
    if ovs.len() == 0 {
        None
    } else if ovs[0].0 == ch {
        Some(ovs[0].1@)
    } else {
        first_override(ovs.drop_first(), ch)
    }
}

/// The sound fonts of channel `ch`: the enabled entries of its override when
/// it has one, else the enabled global entries; when that is empty, the
/// built-in font if there is one.
pub open spec fn channel_fonts(
    ch: u8,
    global: Seq<SfEntry>,
    ovs: Seq<(u8, Vec<SfEntry>)>,
    builtin: Option<Seq<char>>,
) -> Seq<Seq<char>> {
    let p = match first_override(ovs, ch) {
        Some(es) => enabled_paths(es),
        None => enabled_paths(global),
    };
    if p.len() == 0 {
        match builtin {
            Some(b) => seq![b],
            None => Seq::empty(),
        }
    } else {
        p
    }
}

/// The configurations of the active channels among the first `n`, in channel
/// order; a channel left without any font is skipped (silent).
pub open spec fn spec_resolve_sf(
    active: Seq<bool>,
    n: nat,
    global: Seq<SfEntry>,
    ovs: Seq<(u8, Vec<SfEntry>)>,
    builtin: Option<Seq<char>>,
) -> Seq<(u8, Seq<Seq<char>>)>
    decreases n,
{
    if n == 0 {
        Seq::empty()
    } else {
        let r = spec_resolve_sf(active, (n - 1) as nat, global, ovs, builtin);
        let ch = (n - 1) as u8;
        let fonts = channel_fonts(ch, global, ovs, builtin);
        if active[n - 1] && fonts.len() > 0 {
            r.push((ch, fonts))
        } else {
            r
        }
    }
}

/// How many channels are configured: those of the active list, at most 256.
pub open spec fn sf_channel_count(active: Seq<bool>) -> nat {
    if active.len() < 256 {
        active.len()
    } else {
        256
    }
}

/// The enabled entries, in order.
pub open spec fn enabled_entries(es: Seq<SfEntry>) -> Seq<SfEntry> {
    es.filter(|e: SfEntry| e.enabled)
}

/// The paths of the entries, in order.
pub open spec fn entry_paths(es: Seq<SfEntry>) -> Seq<Seq<char>> {
    es.map_values(|e: SfEntry| e.path@)
}

proof fn lemma_enabled_paths_filter(es: Seq<SfEntry>)
    ensures
        enabled_paths(es) == entry_paths(enabled_entries(es)),
    decreases es.len(),
{
    if es.len() > 0 {
        let d = es.drop_last();
        lemma_enabled_paths_filter(d);
        assert(es =~= d.push(es.last()));
        d.lemma_filter_push(es.last(), |e: SfEntry| e.enabled);
        if es.last().enabled {
            assert(entry_paths(enabled_entries(d).push(es.last())) =~= entry_paths(enabled_entries(d)).push(
                es.last().path@,
            ));
        }
    } else {
        assert(enabled_entries(es) =~= Seq::<SfEntry>::empty());
        assert(entry_paths(enabled_entries(es)) =~= Seq::<Seq<char>>::empty());
    }
}

proof fn lemma_first_override_at(ovs: Seq<(u8, Vec<SfEntry>)>, ch: u8, o: int)
    requires
        0 <= o < ovs.len(),
        ovs[o].0 == ch,
        forall|q: int| 0 <= q < o ==> #[trigger] ovs[q].0 != ch,
    ensures
        first_override(ovs, ch) == Some(ovs[o].1@),
    decreases o,
{
    if o > 0 {
        let rest = ovs.drop_first();
        assert forall|q: int| 0 <= q < o - 1 implies #[trigger] rest[q].0 != ch by {
            assert(rest[q] == ovs[q + 1]);
        }
        lemma_first_override_at(rest, ch, o - 1);
        assert(rest[o - 1] == ovs[o]);
    }
}

proof fn lemma_resolve_lists_channel(
    active: Seq<bool>,
    n: nat,
    global: Seq<SfEntry>,
    ovs: Seq<(u8, Vec<SfEntry>)>,
    builtin: Option<Seq<char>>,
    ch: int,
)
    requires
        n <= 256,
        n <= active.len(),
        0 <= ch < n,
        active[ch],
        channel_fonts(ch as u8, global, ovs, builtin).len() > 0,
    ensures
        exists|j: int|
            0 <= j < spec_resolve_sf(active, n, global, ovs, builtin).len() && #[trigger] spec_resolve_sf(
                active,
                n,
                global,
                ovs,
                builtin,
            )[j] == (ch as u8, channel_fonts(ch as u8, global, ovs, builtin)),
    decreases n,
{
    let r = spec_resolve_sf(active, (n - 1) as nat, global, ovs, builtin);
    if ch == n - 1 {
        let full = spec_resolve_sf(active, n, global, ovs, builtin);
        assert(full[r.len() as int] == (ch as u8, channel_fonts(ch as u8, global, ovs, builtin)));
    } else {
        lemma_resolve_lists_channel(active, (n - 1) as nat, global, ovs, builtin, ch);
        let j = choose|j: int| 0 <= j < r.len() && #[trigger] r[j] == (ch as u8, channel_fonts(ch as u8, global, ovs, builtin));
        let full = spec_resolve_sf(active, n, global, ovs, builtin);
        assert(full[j] == r[j]);
    }
}

/// An active channel with an override loads exactly the enabled entries of
/// its first override, all of them, in order (when there is at least one).
pub proof fn lemma_override_fonts_listed(
    active: Seq<bool>,
    global: Seq<SfEntry>,
    ovs: Seq<(u8, Vec<SfEntry>)>,
    builtin: Option<Seq<char>>,
    ch: u8,
    o: int,
)
    requires
        (ch as int) < active.len(),
        active[ch as int],
        0 <= o < ovs.len(),
        ovs[o].0 == ch,
        forall|q: int| 0 <= q < o ==> #[trigger] ovs[q].0 != ch,
        enabled_entries(ovs[o].1@).len() > 0,
    ensures
        ({
            let r = spec_resolve_sf(active, sf_channel_count(active), global, ovs, builtin);
            exists|j: int|
                0 <= j < r.len() && #[trigger] r[j] == (ch, entry_paths(enabled_entries(ovs[o].1@)))
        }),
{
    lemma_first_override_at(ovs, ch, o);
    lemma_enabled_paths_filter(ovs[o].1@);
    let n: nat = sf_channel_count(active);
    let es = ovs[o].1@;
    assert(entry_paths(enabled_entries(es)).len() == enabled_entries(es).len());
    assert((ch as int) as u8 == ch);
    assert(channel_fonts(ch, global, ovs, builtin) == entry_paths(enabled_entries(es)));
    lemma_resolve_lists_channel(active, n, global, ovs, builtin, ch as int);
    let r = spec_resolve_sf(active, n, global, ovs, builtin);
    let j = choose|j: int|
        0 <= j < r.len() && #[trigger] r[j] == ((ch as int) as u8, channel_fonts((ch as int) as u8, global, ovs, builtin));
    assert(r[j] == (ch, entry_paths(enabled_entries(es))));
}

proof fn lemma_no_override(ovs: Seq<(u8, Vec<SfEntry>)>, ch: u8)
    requires
        forall|q: int| 0 <= q < ovs.len() ==> #[trigger] ovs[q].0 != ch,
    ensures
        first_override(ovs, ch) is None,
    decreases ovs.len(),
{
    if ovs.len() > 0 {
        let rest = ovs.drop_first();
        assert(ovs[0].0 != ch);
        assert forall|q: int| 0 <= q < rest.len() implies #[trigger] rest[q].0 != ch by {
            assert(rest[q] == ovs[q + 1]);
        }
        lemma_no_override(rest, ch);
    }
}

proof fn lemma_resolve_shape(
    active: Seq<bool>,
    n: nat,
    global: Seq<SfEntry>,
    ovs: Seq<(u8, Vec<SfEntry>)>,
    builtin: Option<Seq<char>>,
)
    requires
        n <= 256,
        n <= active.len(),
    ensures
        ({
            let r = spec_resolve_sf(active, n, global, ovs, builtin);
            &&& forall|j: int|
                0 <= j < r.len() ==> {
                    &&& ((#[trigger] r[j]).0 as int) < n
                    &&& active[r[j].0 as int]
                    &&& r[j].1 == channel_fonts(r[j].0, global, ovs, builtin)
                    &&& r[j].1.len() > 0
                }
            &&& forall|i: int, j: int| 0 <= i < j < r.len() ==> (#[trigger] r[i]).0 < (#[trigger] r[j]).0
        }),
    decreases n,
{
    if n > 0 {
        lemma_resolve_shape(active, (n - 1) as nat, global, ovs, builtin);
        let r0 = spec_resolve_sf(active, (n - 1) as nat, global, ovs, builtin);
        let r = spec_resolve_sf(active, n, global, ovs, builtin);
        assert(((n - 1) as u8) as int == n - 1);
        assert forall|j: int| 0 <= j < r0.len() implies #[trigger] r[j] == r0[j] by {}
    }
}

/// An active channel without an override loads exactly the enabled global
/// entries, all of them, in order (when there is at least one).
pub proof fn lemma_global_fonts_without_override(
    active: Seq<bool>,
    global: Seq<SfEntry>,
    ovs: Seq<(u8, Vec<SfEntry>)>,
    builtin: Option<Seq<char>>,
    ch: u8,
)
    requires
        (ch as int) < active.len(),
        active[ch as int],
        forall|q: int| 0 <= q < ovs.len() ==> #[trigger] ovs[q].0 != ch,
        enabled_entries(global).len() > 0,
    ensures
        ({
            let r = spec_resolve_sf(active, sf_channel_count(active), global, ovs, builtin);
            exists|j: int| 0 <= j < r.len() && #[trigger] r[j] == (ch, entry_paths(enabled_entries(global)))
        }),
{
    lemma_no_override(ovs, ch);
    lemma_enabled_paths_filter(global);
    let n: nat = sf_channel_count(active);
    assert(entry_paths(enabled_entries(global)).len() == enabled_entries(global).len());
    assert((ch as int) as u8 == ch);
    assert(channel_fonts(ch, global, ovs, builtin) == entry_paths(enabled_entries(global)));
    lemma_resolve_lists_channel(active, n, global, ovs, builtin, ch as int);
}

/// An active channel whose override (or, without one, the global list) has no
/// enabled entry loads the built-in font alone, when there is one.
pub proof fn lemma_builtin_font_fallback(
    active: Seq<bool>,
    global: Seq<SfEntry>,
    ovs: Seq<(u8, Vec<SfEntry>)>,
    b: Seq<char>,
    ch: u8,
)
    requires
        (ch as int) < active.len(),
        active[ch as int],
        (forall|q: int| 0 <= q < ovs.len() ==> #[trigger] ovs[q].0 != ch) ==> enabled_entries(global).len() == 0,
        forall|o: int|
            0 <= o < ovs.len() && (#[trigger] ovs[o]).0 == ch && (forall|q: int| 0 <= q < o ==> #[trigger] ovs[q].0
                != ch) ==> enabled_entries(ovs[o].1@).len() == 0,
    ensures
        ({
            let r = spec_resolve_sf(active, sf_channel_count(active), global, ovs, Some(b));
            exists|j: int| 0 <= j < r.len() && #[trigger] r[j] == (ch, seq![b])
        }),
{
    let n: nat = sf_channel_count(active);
    assert((ch as int) as u8 == ch);
    if exists|o: int| 0 <= o < ovs.len() && (#[trigger] ovs[o]).0 == ch {
        let o0 = choose|o: int| 0 <= o < ovs.len() && (#[trigger] ovs[o]).0 == ch;
        let o = lemma_first_index(ovs, ch, o0);
        lemma_first_override_at(ovs, ch, o);
        lemma_enabled_paths_filter(ovs[o].1@);
        assert(entry_paths(enabled_entries(ovs[o].1@)).len() == 0);
    } else {
        lemma_no_override(ovs, ch);
        lemma_enabled_paths_filter(global);
        assert(entry_paths(enabled_entries(global)).len() == 0);
    }
    assert(channel_fonts(ch, global, ovs, Some(b)) == seq![b]);
    lemma_resolve_lists_channel(active, n, global, ovs, Some(b), ch as int);
}

proof fn lemma_first_index(ovs: Seq<(u8, Vec<SfEntry>)>, ch: u8, o0: int) -> (o: int)
    requires
        0 <= o0 < ovs.len(),
        ovs[o0].0 == ch,
    ensures
        0 <= o <= o0,
        ovs[o].0 == ch,
        forall|q: int| 0 <= q < o ==> #[trigger] ovs[q].0 != ch,
    decreases o0,
{
    if exists|q: int| 0 <= q < o0 && #[trigger] ovs[q].0 == ch {
        let q = choose|q: int| 0 <= q < o0 && #[trigger] ovs[q].0 == ch;
        lemma_first_index(ovs, ch, q)
    } else {
        o0
    }
}

/// The configurations come in increasing channel order, one per channel at
/// most, each for an active channel among the first 256 with at least one
/// font; a channel that is inactive, or left with no enabled entry and no
/// built-in font, gets none (it stays silent).
pub proof fn lemma_configs_listed_once_in_channel_order(
    active: Seq<bool>,
    global: Seq<SfEntry>,
    ovs: Seq<(u8, Vec<SfEntry>)>,
    ch: u8,
)
    ensures
        ({
            let r = spec_resolve_sf(active, sf_channel_count(active), global, ovs, None);
            &&& forall|i: int, j: int| 0 <= i < j < r.len() ==> (#[trigger] r[i]).0 < (#[trigger] r[j]).0
            &&& forall|j: int|
                0 <= j < r.len() ==> ((#[trigger] r[j]).0 as int) < active.len() && active[r[j].0 as int]
                    && r[j].1.len() > 0
            &&& (!((ch as int) < active.len() && active[ch as int]) || ({
                &&& (forall|q: int| 0 <= q < ovs.len() ==> #[trigger] ovs[q].0 != ch) ==> enabled_entries(
                    global,
                ).len() == 0
                &&& forall|o: int|
                    0 <= o < ovs.len() && (#[trigger] ovs[o]).0 == ch && (forall|q: int|
                        0 <= q < o ==> #[trigger] ovs[q].0 != ch) ==> enabled_entries(ovs[o].1@).len() == 0
            })) ==> forall|j: int| 0 <= j < r.len() ==> (#[trigger] r[j]).0 != ch
        }),
{
    let n: nat = sf_channel_count(active);
    lemma_resolve_shape(active, n, global, ovs, None);
    let r = spec_resolve_sf(active, n, global, ovs, None);
    if exists|o: int| 0 <= o < ovs.len() && (#[trigger] ovs[o]).0 == ch {
        let o0 = choose|o: int| 0 <= o < ovs.len() && (#[trigger] ovs[o]).0 == ch;
        let o = lemma_first_index(ovs, ch, o0);
        lemma_first_override_at(ovs, ch, o);
        lemma_enabled_paths_filter(ovs[o].1@);
    } else {
        lemma_no_override(ovs, ch);
        lemma_enabled_paths_filter(global);
    }
}

fn enabled_entry_paths(es: &Vec<SfEntry>) -> (r: Vec<String>)
    ensures
        texts(r@) == enabled_paths(es@),
{
    let mut r: Vec<String> = Vec::new();
    let mut i: usize = 0;
    while i < es.len()
        invariant
            i <= es@.len(),
            texts(r@) == enabled_paths(es@.take(i as int)),
        decreases es@.len() - i,
    {
        proof {
            assert(es@.take(i + 1).drop_last() =~= es@.take(i as int));
        }
        if es[i].enabled {
            let ghost r0 = r@;
            r.push(es[i].path.clone());
            proof {
                assert(texts(r@) =~= texts(r0).push(es@[i as int].path@));
            }
        }
        i += 1;
    }
    proof {
        assert(es@.take(i as int) =~= es@);
    }
    r
}

fn find_override(ovs: &Vec<(u8, Vec<SfEntry>)>, ch: u8) -> (r: Option<usize>)
    ensures
        match r {
            Some(i) => i < ovs@.len() && first_override(ovs@, ch) == Some(ovs@[i as int].1@),
            None => first_override(ovs@, ch) is None,
        },
{
    let mut i: usize = 0;
    proof {
        assert(ovs@.skip(0) =~= ovs@);
    }
    while i < ovs.len()
        invariant
            i <= ovs@.len(),
            first_override(ovs@, ch) == first_override(ovs@.skip(i as int), ch),
        decreases ovs@.len() - i,
    {
        proof {
            assert(ovs@.skip(i as int)[0] == ovs@[i as int]);
            assert(ovs@.skip(i as int).drop_first() =~= ovs@.skip(i + 1));
        }
        if ovs[i].0 == ch {
            return Some(i);
        }
        i += 1;
    }
    None
}

/// The sound fonts each active channel loads: `active[ch]` says whether
/// channel `ch` is in use (only the first 256 channels are looked at);
/// `overrides` are the project's per-channel entries, `global` the global
/// ones, `builtin` the bundled font if it exists.
pub fn resolve_sf_config(
    active: &Vec<bool>,
    global: &Vec<SfEntry>,
    overrides: &Vec<(u8, Vec<SfEntry>)>,
    builtin: &Option<String>,
) -> (r: Vec<(u8, Vec<String>)>)
    ensures
        r@.map_values(|c: (u8, Vec<String>)| sf_config_view(c)) == spec_resolve_sf(
            active@,
            sf_channel_count(active@),
            global@,
            overrides@,
            opt_text(*builtin),
        ),
{
    let global_paths = enabled_entry_paths(global);
    let count: usize = if active.len() < 256 { active.len() } else { 256 };
    let ghost bt = opt_text(*builtin);
    let mut result: Vec<(u8, Vec<String>)> = Vec::new();
    let mut c: usize = 0;
    while c < count
        invariant
            c <= count,
            count <= active@.len(),
            count <= 256,
            texts(global_paths@) == enabled_paths(global@),
            bt == opt_text(*builtin),
            result@.map_values(|c: (u8, Vec<String>)| sf_config_view(c)) == spec_resolve_sf(
                active@,
                c as nat,
                global@,
                overrides@,
                bt,
            ),
        decreases count - c,
    {
        let ch = c as u8;
        if active[c] {
            let paths: Vec<String> = match find_override(overrides, ch) {
                Some(i) => enabled_entry_paths(&overrides[i].1),
                None => {
                    let mut copy: Vec<String> = Vec::new();
                    let mut j: usize = 0;
                    while j < global_paths.len()
                        invariant
                            j <= global_paths@.len(),
                            texts(copy@) == texts(global_paths@.take(j as int)),
                        decreases global_paths@.len() - j,
                    {
                        let ghost c0 = copy@;
                        copy.push(global_paths[j].clone());
                        proof {
                            assert(texts(copy@) =~= texts(c0).push(global_paths@[j as int]@));
                            assert(texts(global_paths@.take(j + 1)) =~= texts(global_paths@.take(j as int)).push(
                                global_paths@[j as int]@,
                            ));
                        }
                        j += 1;
                    }
                    proof {
                        assert(global_paths@.take(j as int) =~= global_paths@);
                    }
                    copy
                },
            };
            let paths: Vec<String> = if paths.len() == 0 {
                match builtin {
                    Some(b) => {
                        let mut v: Vec<String> = Vec::new();
                        v.push(b.clone());
                        proof {
                            assert(texts(v@) =~= seq![b@]);
                        }
                        v
                    },
                    None => {
                        proof {
                            assert(texts(paths@) =~= Seq::<Seq<char>>::empty());
                        }
                        paths
                    },
                }
            } else {
                paths
            };
            proof {
                assert(texts(paths@) == channel_fonts(ch, global@, overrides@, bt));
            }
            if paths.len() > 0 {
                let ghost r0 = result@;
                result.push((ch, paths));
                proof {
                    assert(result@.map_values(|c: (u8, Vec<String>)| sf_config_view(c)) =~= r0.map_values(
                        |c: (u8, Vec<String>)| sf_config_view(c),
                    ).push(sf_config_view((ch, paths))));
                }
            }
        }
        c += 1;
    }
    result
}

/// The document the audio engine serves: the one waiting to be shown (loaded,
/// shown once its audio is ready) if any, else the active one.
pub open spec fn audio_target(pending_doc: Option<usize>, active_doc: Option<usize>) -> Option<usize> {
    match pending_doc {
        Some(i) => Some(i),
        None => active_doc,
    }
}

/// The engine bookkeeping that the rebuild decisions read and update.
pub struct EngineStatus {
    /// The document the running engine plays.
    pub engine_doc: Option<usize>,
    /// An engine is running.
    pub has_engine: bool,
    /// An engine is being built in the background.
    pub spawn_in_flight: bool,
    /// The last build failed (its message), for this document.
    pub spawn_error: Option<String>,
    pub spawn_error_doc: Option<usize>,
}

impl EngineStatus {
    /// Decides whether an engine must be built (or handed over) this frame,
    /// and for which document. A failure recorded for another document is
    /// forgotten; a failure for the target is not retried. Nothing is built
    /// while the running engine already plays the target, or while a build is
    /// in flight.
    pub fn rebuild_target(&mut self, pending_doc: Option<usize>, active_doc: Option<usize>) -> (r: Option<usize>)
        ensures
            final(self).engine_doc == old(self).engine_doc,
            final(self).has_engine == old(self).has_engine,
            final(self).spawn_in_flight == old(self).spawn_in_flight,
            match audio_target(pending_doc, active_doc) {
                None => {
                    &&& r is None
                    &&& final(self).spawn_error == old(self).spawn_error
                    &&& final(self).spawn_error_doc == old(self).spawn_error_doc
                },
                Some(idx) => {
                    let cleared = match old(self).spawn_error_doc {
                        Some(d) => d != idx,
                        None => false,
                    };
                    &&& cleared ==> final(self).spawn_error is None && final(self).spawn_error_doc is None
                    &&& !cleared ==> final(self).spawn_error == old(self).spawn_error
                        && final(self).spawn_error_doc == old(self).spawn_error_doc
                    &&& r == if final(self).spawn_error is Some || (old(self).engine_doc == Some(idx)
                        && old(self).has_engine) || old(self).spawn_in_flight {
                        None::<usize>
                    } else {
                        Some(idx)
                    }
                },
            },
    {
        let target = match pending_doc {
            Some(i) => Some(i),
            None => active_doc,
        };
        let idx = match target {
            Some(i) => i,
            None => {
                return None;
            },
        };
        match self.spawn_error_doc {
            Some(d) => {
                if d != idx {
                    self.spawn_error = None;
                    self.spawn_error_doc = None;
                }
            },
            None => {},
        }
        if self.spawn_error.is_some() {
            return None;
        }
        let plays_target = match self.engine_doc {
            Some(d) => d == idx,
            None => false,
        };
        if plays_target && self.has_engine {
            return None;
        }
        if self.spawn_in_flight {
            return None;
        }
        Some(idx)
    }
}

/// Where a finished engine build goes: to the current target document, when
/// it was built from the current settings and for that document; otherwise
/// (`None`) it is dropped and the next frame builds again.
pub fn spawn_result_target(
    settings_unchanged: bool,
    spawn_for: Option<usize>,
    pending_doc: Option<usize>,
    active_doc: Option<usize>,
) -> (r: Option<usize>)
    ensures
        r == if settings_unchanged && audio_target(pending_doc, active_doc) is Some && spawn_for == audio_target(
            pending_doc,
            active_doc,
        ) {
            audio_target(pending_doc, active_doc)
        } else {
            None::<usize>
        },
{
    if !settings_unchanged {
        return None;
    }
    let target = match pending_doc {
        Some(i) => Some(i),
        None => active_doc,
    };
    match target {
        Some(idx) => match spawn_for {
            Some(s) => {
                if s == idx {
                    Some(idx)
                } else {
                    None
                }
            },
            None => None,
        },
        None => None,
    }
}

} // verus!
