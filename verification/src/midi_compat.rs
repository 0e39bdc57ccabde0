//! The legacy per-key MIDI view of a project: notes bucketed by key and
//! sorted by start tick, per-track port / channel tables, time signatures and
//! the flattened controller events (RPNs expanded back to CC 101/100/6/38),
//! all sorted by tick.
//!
//! Also the reverse bridge to the archive model (`core_to_old_model`): notes
//! as (tick, duration), controller and RPN lanes keyed in ordered maps.
//!
//! Tempo values arrive as whole microseconds per quarter note; the segment
//! start times (floating point) and the derived indices of both views are
//! built by the caller.

use vstd::prelude::*;
use std::collections::{BTreeMap, HashMap};
use crate::audio_settings::texts;
use crate::text::owned;
use crate::document::ProjectMeta;
use crate::history::apply::{sort_by_tick, sorted_by_tick, TickEvent};

verus! {

/// A note of a track.
pub struct CoreNote {
    pub key: u8,
    pub start_tick: u32,
    pub end_tick: u32,
    pub velocity: u8,
}

/// A program change with its bank.
#[derive(Clone, Copy)]
pub struct CoreProgram {
    pub tick: u32,
    pub program: u8,
    pub bank_msb: u8,
    pub bank_lsb: u8,
}

/// A track of the project model.
pub struct CoreTrack {
    pub uuid: String,
    pub name: String,
    pub port: u8,
    pub channel: u8,
    pub channel_prefix: Option<u8>,
    pub notes: Vec<CoreNote>,
    /// Controller lanes `(controller, [(tick, value)])`, in the model's order.
    pub cc: Vec<(u8, Vec<(u32, u8)>)>,
    /// `(tick, value)`.
    pub pitch_bend: Vec<(u32, i16)>,
    pub program_change: Vec<CoreProgram>,
    /// RPN lanes `(rpn key: MSB << 8 | LSB, [(tick, 14-bit value)])`.
    pub rpn: Vec<(u16, Vec<(u32, u16)>)>,
}

/// The project model read by the conversion.
pub struct CoreModel {
    pub meta: ProjectMeta,
    pub tracks: Vec<CoreTrack>,
    /// Time signatures `(tick, (numerator, denominator power))`.
    pub time_sig: Vec<TickEvent<(u8, u8)>>,
    /// Tempo changes `(tick, microseconds per quarter note)`, in the model's
    /// order.
    pub tempo: Vec<(u64, u64)>,
}

/// A note in a key bucket: `(start tick, (end tick, velocity, track index))`.
pub type KeyNote = TickEvent<(u32, u8, u16)>;

/// A controller event of the legacy view.
#[allow(inconsistent_fields)]
#[derive(Clone, Copy)]
pub enum ControlEvent {
    ControlChange { controller: u8, value: u8, track: u16 },
    PitchBend { value: i16, track: u16 },
    ProgramChange { program: u8, track: u16 },
}

/// The legacy per-key view.
pub struct MidiView {
    /// 128 buckets, one per key, each sorted by start tick.
    pub key_notes: Vec<Vec<KeyNote>>,
    pub ticks_per_beat: u32,
    /// Tempo segments `(start tick, microseconds per quarter note)`: starts
    /// strictly increasing, the first at tick 0 (see `tempo_segment_starts`).
    pub tempo_segments: Vec<(u64, u64)>,
    pub note_count: u64,
    /// The latest note end.
    pub tick_length: u64,
    pub time_sig_numerator: u8,
    pub time_sig_denominator: u8,
    pub track_ports: Vec<u8>,
    pub track_channel_prefixes: Vec<Option<u8>>,
    /// Global channel of each track: `port * 16 + channel`, both taken mod 16.
    pub track_channels: Vec<u8>,
    pub track_names: Vec<String>,
    /// The UTF-8 bytes of each track name.
    pub raw_track_names: Vec<Vec<u8>>,
    /// Time signatures sorted by tick.
    pub time_sig_events: Vec<TickEvent<(u8, u8)>>,
    /// `(tick, event)`, sorted by tick.
    pub control_events: Vec<TickEvent<ControlEvent>>,
}

/// The notes of one track with their keys, tagged with the track index.
pub open spec fn tagged_notes(notes: Seq<CoreNote>, track: u16) -> Seq<(u8, KeyNote)> {
    notes.map_values(|n: CoreNote| (n.key, (n.start_tick, (n.end_tick, n.velocity, track))))
}

/// Every note of the project with its key, track by track in order.
pub open spec fn all_notes(tracks: Seq<CoreTrack>) -> Seq<(u8, KeyNote)>
    decreases tracks.len(),
{
    if tracks.len() == 0 {
        Seq::empty()
    } else {
        all_notes(tracks.drop_last()) + tagged_notes(tracks.last().notes@, (tracks.len() - 1) as u16)
    }
}

/// The notes of key `k`, in the order of `all`.
pub open spec fn key_bucket(all: Seq<(u8, KeyNote)>, k: int) -> Seq<KeyNote>
    decreases all.len(),
{
    if all.len() == 0 {
        Seq::empty()
    } else if all.last().0 == k {
        key_bucket(all.drop_last(), k).push(all.last().1)
    } else {
        key_bucket(all.drop_last(), k)
    }
}

/// The latest end tick of the notes, 0 when there are none.
pub open spec fn max_end(all: Seq<(u8, KeyNote)>) -> u64
    decreases all.len(),
{
    if all.len() == 0 {
        0
    } else {
        let m = max_end(all.drop_last());
        let e = all.last().1.1.0 as u64;
        if e > m {
            e
        } else {
            m
        }
    }
}

/// Every note key is a MIDI key (below 128).
pub open spec fn keys_in_range(tracks: Seq<CoreTrack>) -> bool {
    forall|t: int, n: int|
        0 <= t < tracks.len() && 0 <= n < tracks[t].notes@.len() ==> #[trigger] tracks[t].notes@[n].key < 128
}

/// The global channel of a port and a channel.
pub open spec fn global_channel(port: u8, channel: u8) -> u8 {
    ((port % 16) * 16 + channel % 16) as u8
}

proof fn lemma_bucket_push(s: Seq<(u8, KeyNote)>, x: (u8, KeyNote))
    ensures
        forall|j: int| #[trigger] key_bucket(s.push(x), j) == if x.0 == j {
            key_bucket(s, j).push(x.1)
        } else {
            key_bucket(s, j)
        },
        max_end(s.push(x)) == if x.1.1.0 as u64 > max_end(s) { x.1.1.0 as u64 } else { max_end(s) },
{
    assert(s.push(x).drop_last() =~= s);
}

proof fn lemma_all_notes_step(tracks: Seq<CoreTrack>, t: int)
    requires
        0 <= t < tracks.len(),
    ensures
        all_notes(tracks.take(t + 1)) == all_notes(tracks.take(t)) + tagged_notes(tracks[t].notes@, t as u16),
{
    assert(tracks.take(t + 1).drop_last() =~= tracks.take(t));
}

/// The bucket of key `k` holds exactly the notes of key `k`, in project order.
pub proof fn lemma_key_bucket_is_key_filter(all: Seq<(u8, KeyNote)>, k: int)
    ensures
        key_bucket(all, k) == all.filter(|x: (u8, KeyNote)| x.0 == k).map_values(|x: (u8, KeyNote)| x.1),
    decreases all.len(),
{
    let f = |x: (u8, KeyNote)| x.0 == k;
    let g = |x: (u8, KeyNote)| x.1;
    if all.len() == 0 {
        assert(all.filter(f) =~= Seq::<(u8, KeyNote)>::empty());
        assert(all.filter(f).map_values(g) =~= Seq::<KeyNote>::empty());
    } else {
        let d = all.drop_last();
        lemma_key_bucket_is_key_filter(d, k);
        assert(all =~= d.push(all.last()));
        d.lemma_filter_push(all.last(), f);
        if all.last().0 == k {
            assert(d.filter(f).push(all.last()).map_values(g) =~= d.filter(f).map_values(g).push(all.last().1));
        }
    }
}

/// The tick length is the latest note end: no note ends after it, one ends
/// exactly at it when there are notes, and it is 0 when there are none.
pub proof fn lemma_max_end_is_latest(all: Seq<(u8, KeyNote)>)
    ensures
        forall|i: int| 0 <= i < all.len() ==> (#[trigger] all[i]).1.1.0 as u64 <= max_end(all),
        all.len() > 0 ==> exists|i: int| 0 <= i < all.len() && (#[trigger] all[i]).1.1.0 as u64 == max_end(all),
        all.len() == 0 ==> max_end(all) == 0,
    decreases all.len(),
{
    if all.len() > 0 {
        let d = all.drop_last();
        lemma_max_end_is_latest(d);
        assert forall|i: int| 0 <= i < all.len() implies (#[trigger] all[i]).1.1.0 as u64 <= max_end(all) by {
            if i < d.len() {
                assert(all[i] == d[i]);
            }
        }
        if all.last().1.1.0 as u64 > max_end(d) || d.len() == 0 {
            assert(all[all.len() - 1].1.1.0 as u64 == max_end(all));
        } else {
            let i = choose|i: int| 0 <= i < d.len() && (#[trigger] d[i]).1.1.0 as u64 == max_end(d);
            assert(all[i] == d[i]);
        }
    }
}

/// A note listed with its key, start, end and velocity, tagged with track `t`.
pub open spec fn listed_note(x: CoreNote, t: int) -> (u8, KeyNote) {
    (x.key, (x.start_tick, (x.end_tick, x.velocity, t as u16)))
}

/// `e` is a note of one of the tracks, listed with that track's index.
pub open spec fn is_track_note(tracks: Seq<CoreTrack>, e: (u8, KeyNote)) -> bool {
    exists|t: int, n: int|
        0 <= t < tracks.len() && 0 <= n < tracks[t].notes@.len() && e == listed_note(#[trigger] tracks[t].notes@[n], t)
}

/// The note list of the project holds every note of every track, with its key,
/// start, end and velocity, tagged with the index of its track; and nothing
/// else.
pub proof fn lemma_all_notes_lists_each_note(tracks: Seq<CoreTrack>)
    ensures
        forall|t: int, n: int|
            0 <= t < tracks.len() && 0 <= n < tracks[t].notes@.len() ==> all_notes(tracks).contains(
                listed_note(#[trigger] tracks[t].notes@[n], t),
            ),
        forall|i: int| 0 <= i < all_notes(tracks).len() ==> is_track_note(tracks, #[trigger] all_notes(tracks)[i]),
    decreases tracks.len(),
{
    if tracks.len() > 0 {
        let d = tracks.drop_last();
        let last = tracks.len() - 1;
        lemma_all_notes_lists_each_note(d);
        let pre = all_notes(d);
        let tail = tagged_notes(tracks[last].notes@, last as u16);
        assert(all_notes(tracks) == pre + tail);
        assert forall|t: int, n: int| 0 <= t < tracks.len() && 0 <= n < tracks[t].notes@.len() implies all_notes(
            tracks,
        ).contains(listed_note(#[trigger] tracks[t].notes@[n], t)) by {
            let e = listed_note(tracks[t].notes@[n], t);
            if t < last {
                assert(d[t] == tracks[t]);
                assert(pre.contains(listed_note(d[t].notes@[n], t)));
                let j = choose|j: int| 0 <= j < pre.len() && pre[j] == e;
                assert((pre + tail)[j] == e);
            } else {
                assert((pre + tail)[pre.len() + n] == e);
            }
        }
        assert forall|i: int| 0 <= i < all_notes(tracks).len() implies is_track_note(
            tracks,
            #[trigger] all_notes(tracks)[i],
        ) by {
            if i < pre.len() {
                assert(all_notes(tracks)[i] == pre[i]);
                let (t, n) = choose|t: int, n: int|
                    0 <= t < d.len() && 0 <= n < d[t].notes@.len() && pre[i] == listed_note(
                        #[trigger] d[t].notes@[n],
                        t,
                    );
                assert(d[t] == tracks[t]);
                assert(all_notes(tracks)[i] == listed_note(tracks[t].notes@[n], t));
            } else {
                let n = i - pre.len();
                assert(all_notes(tracks)[i] == tail[n]);
                assert(all_notes(tracks)[i] == listed_note(tracks[last].notes@[n], last));
            }
        }
    } else {
        assert(all_notes(tracks) =~= Seq::<(u8, KeyNote)>::empty());
    }
}

/// Buckets the notes of every track by key, in track order, and finds the
/// latest note end.
fn bucket_notes(tracks: &Vec<CoreTrack>) -> (r: (Vec<Vec<KeyNote>>, u64))
    requires
        keys_in_range(tracks@),
    ensures
        r.0@.len() == 128,
        forall|k: int| 0 <= k < 128 ==> #[trigger] r.0@[k]@ == key_bucket(all_notes(tracks@), k),
        r.1 == max_end(all_notes(tracks@)),
{
    let mut buckets: Vec<Vec<KeyNote>> = Vec::new();
    let mut k: usize = 0;
    while k < 128
        invariant
            k <= 128,
            buckets@.len() == k,
            forall|j: int| 0 <= j < k ==> #[trigger] buckets@[j]@ == Seq::<KeyNote>::empty(),
        decreases 128 - k,
    {
        buckets.push(Vec::new());
        k += 1;
    }
    proof {
        assert(tracks@.take(0) =~= Seq::<CoreTrack>::empty());
    }
    let mut tick_length: u64 = 0;
    let mut t: usize = 0;
    while t < tracks.len()
        invariant
            t <= tracks@.len(),
            keys_in_range(tracks@),
            buckets@.len() == 128,
            forall|j: int| 0 <= j < 128 ==> #[trigger] buckets@[j]@ == key_bucket(all_notes(tracks@.take(t as int)), j),
            tick_length == max_end(all_notes(tracks@.take(t as int))),
        decreases tracks@.len() - t,
    {
        let track = &tracks[t];
        let tid: u16 = t as u16;
        let ghost before = all_notes(tracks@.take(t as int));
        proof {
            assert(tagged_notes(track.notes@.take(0), tid) =~= Seq::<(u8, KeyNote)>::empty());
            assert(before + tagged_notes(track.notes@.take(0), tid) =~= before);
        }
        let mut n: usize = 0;
        while n < track.notes.len()
            invariant
                t < tracks@.len(),
                track == &tracks@[t as int],
                n <= track.notes@.len(),
                keys_in_range(tracks@),
                buckets@.len() == 128,
                forall|j: int|
                    0 <= j < 128 ==> #[trigger] buckets@[j]@ == key_bucket(
                        before + tagged_notes(track.notes@.take(n as int), tid),
                        j,
                    ),
                tick_length == max_end(before + tagged_notes(track.notes@.take(n as int), tid)),
            decreases track.notes@.len() - n,
        {
            let note = &track.notes[n];
            let kn: KeyNote = (note.start_tick, (note.end_tick, note.velocity, tid));
            let key = note.key as usize;
            proof {
                assert(tracks@[t as int].notes@[n as int].key < 128);
            }
            let ghost cur = before + tagged_notes(track.notes@.take(n as int), tid);
            proof {
                lemma_bucket_push(cur, (note.key, kn));
                assert(before + tagged_notes(track.notes@.take(n + 1), tid) =~= cur.push((note.key, kn)));
            }
            let mut b: Vec<KeyNote> = Vec::new();
            std::mem::swap(&mut b, &mut buckets[key]);
            b.push(kn);
            buckets[key] = b;
            if note.end_tick as u64 > tick_length {
                tick_length = note.end_tick as u64;
            }
            n += 1;
        }
        proof {
            assert(track.notes@.take(n as int) =~= track.notes@);
            lemma_all_notes_step(tracks@, t as int);
        }
        t += 1;
    }
    proof {
        assert(tracks@.take(t as int) =~= tracks@);
    }
    (buckets, tick_length)
}

/// The events of one controller lane.
pub open spec fn lane_events(evs: Seq<(u32, u8)>, controller: u8, track: u16) -> Seq<TickEvent<ControlEvent>> {
    evs.map_values(|e: (u32, u8)| (e.0, ControlEvent::ControlChange { controller, value: e.1, track }))
}

/// The events of the controller lanes, lane by lane.
pub open spec fn cc_events(cc: Seq<(u8, Vec<(u32, u8)>)>, track: u16) -> Seq<TickEvent<ControlEvent>>
    decreases cc.len(),
{
    if cc.len() == 0 {
        Seq::empty()
    } else {
        cc_events(cc.drop_last(), track) + lane_events(cc.last().1@, cc.last().0, track)
    }
}

/// Pitch-bend events.
pub open spec fn pitch_bend_events(evs: Seq<(u32, i16)>, track: u16) -> Seq<TickEvent<ControlEvent>> {
    evs.map_values(|e: (u32, i16)| (e.0, ControlEvent::PitchBend { value: e.1, track }))
}

/// Program-change events.
pub open spec fn program_events(evs: Seq<CoreProgram>, track: u16) -> Seq<TickEvent<ControlEvent>> {
    evs.map_values(|e: CoreProgram| (e.tick, ControlEvent::ProgramChange { program: e.program, track }))
}

/// A control change at `tick`.
pub open spec fn cc_at(tick: u32, controller: u8, value: u8, track: u16) -> TickEvent<ControlEvent> {
    (tick, ControlEvent::ControlChange { controller, value, track })
}

/// One RPN value written back as controller events: CC 101 (parameter MSB),
/// CC 100 (parameter LSB), CC 6 (data MSB) and, when the data LSB is not zero,
/// CC 38 (data LSB). Each byte keeps 7 bits.
pub open spec fn rpn_expansion(tick: u32, key: u16, value: u16, track: u16) -> Seq<TickEvent<ControlEvent>> {
    let msb = ((key / 256) % 128) as u8;
    let lsb = (key % 128) as u8;
    let data_msb = ((value / 128) % 128) as u8;
    let data_lsb = (value % 128) as u8;
    seq![cc_at(tick, 101, msb, track), cc_at(tick, 100, lsb, track), cc_at(tick, 6, data_msb, track)] + if data_lsb
        != 0 {
        seq![cc_at(tick, 38, data_lsb, track)]
    } else {
        Seq::empty()
    }
}

/// The data byte of `ev` when it is a change of controller `controller` at
/// `tick` on track `track`.
pub open spec fn cc_byte(ev: TickEvent<ControlEvent>, tick: u32, controller: u8, track: u16) -> Option<u8> {
    match ev.1 {
        ControlEvent::ControlChange { controller: c, value, track: t } => if ev.0 == tick && c == controller && t
            == track {
            Some(value)
        } else {
            None
        },
        _ => None,
    }
}

/// An RPN value written back as controller events reads back as the same
/// parameter and value: CC 101 and CC 100 carry the high and low byte of the
/// parameter, CC 6 the high 7 bits of the value and, only when they are not
/// zero, a final CC 38 its low 7 bits; all at the value's tick, on its track
/// (for a parameter with 7-bit bytes and a 14-bit value).
pub proof fn lemma_rpn_expansion_reads_back(tick: u32, key: u16, value: u16, track: u16)
    requires
        key % 256 < 128,
        key / 256 < 128,
        value < 16384,
    ensures
        ({
            let e = rpn_expansion(tick, key, value, track);
            &&& e.len() == 3 || e.len() == 4
            &&& cc_byte(e[0], tick, 101, track) matches Some(hi) && cc_byte(e[1], tick, 100, track) matches Some(lo)
                && hi * 256 + lo == key
            &&& cc_byte(e[2], tick, 6, track) matches Some(d) && if e.len() == 4 {
                cc_byte(e[3], tick, 38, track) matches Some(l) && l != 0 && d * 128 + l == value
            } else {
                d * 128 == value
            }
        }),
{
}

/// The events of one RPN lane.
pub open spec fn rpn_lane_events(evs: Seq<(u32, u16)>, key: u16, track: u16) -> Seq<TickEvent<ControlEvent>>
    decreases evs.len(),
{
    if evs.len() == 0 {
        Seq::empty()
    } else {
        rpn_lane_events(evs.drop_last(), key, track) + rpn_expansion(evs.last().0, key, evs.last().1, track)
    }
}

/// The events of the RPN lanes, lane by lane.
pub open spec fn rpn_events(rpn: Seq<(u16, Vec<(u32, u16)>)>, track: u16) -> Seq<TickEvent<ControlEvent>>
    decreases rpn.len(),
{
    if rpn.len() == 0 {
        Seq::empty()
    } else {
        rpn_events(rpn.drop_last(), track) + rpn_lane_events(rpn.last().1@, rpn.last().0, track)
    }
}

/// The controller events of one track: controller lanes, pitch bends, program
/// changes, then RPNs.
pub open spec fn track_controls(t: CoreTrack, track: u16) -> Seq<TickEvent<ControlEvent>> {
    cc_events(t.cc@, track) + pitch_bend_events(t.pitch_bend@, track) + program_events(t.program_change@, track)
        + rpn_events(t.rpn@, track)
}

/// The controller events of every track, track by track, before sorting.
pub open spec fn all_controls(tracks: Seq<CoreTrack>) -> Seq<TickEvent<ControlEvent>>
    decreases tracks.len(),
{
    if tracks.len() == 0 {
        Seq::empty()
    } else {
        all_controls(tracks.drop_last()) + track_controls(tracks.last(), (tracks.len() - 1) as u16)
    }
}

fn push_cc(out: &mut Vec<TickEvent<ControlEvent>>, cc: &Vec<(u8, Vec<(u32, u8)>)>, track: u16)
    ensures
        final(out)@ == old(out)@ + cc_events(cc@, track),
{
    let ghost start = out@;
    proof {
        assert(cc@.take(0) =~= Seq::<(u8, Vec<(u32, u8)>)>::empty());
        assert(start + Seq::<TickEvent<ControlEvent>>::empty() =~= start);
    }
    let mut c: usize = 0;
    while c < cc.len()
        invariant
            c <= cc@.len(),
            out@ == start + cc_events(cc@.take(c as int), track),
        decreases cc@.len() - c,
    {
        let controller = cc[c].0;
        let evs = &cc[c].1;
        let ghost mid = out@;
        let mut i: usize = 0;
        proof {
            assert(lane_events(evs@.take(0), controller, track) =~= Seq::<TickEvent<ControlEvent>>::empty());
            assert(mid + Seq::<TickEvent<ControlEvent>>::empty() =~= mid);
        }
        while i < evs.len()
            invariant
                i <= evs@.len(),
                out@ == mid + lane_events(evs@.take(i as int), controller, track),
            decreases evs@.len() - i,
        {
            out.push((evs[i].0, ControlEvent::ControlChange { controller, value: evs[i].1, track }));
            proof {
                assert(lane_events(evs@.take(i + 1), controller, track) =~= lane_events(
                    evs@.take(i as int),
                    controller,
                    track,
                ).push((evs@[i as int].0, ControlEvent::ControlChange { controller, value: evs@[i as int].1, track })));
            }
            i += 1;
        }
        proof {
            assert(evs@.take(i as int) =~= evs@);
            assert(cc@.take(c + 1).drop_last() =~= cc@.take(c as int));
            assert(start + cc_events(cc@.take(c + 1), track) =~= mid + lane_events(evs@, controller, track));
        }
        c += 1;
    }
    proof {
        assert(cc@.take(c as int) =~= cc@);
    }
}

fn push_pitch_bends(out: &mut Vec<TickEvent<ControlEvent>>, evs: &Vec<(u32, i16)>, track: u16)
    ensures
        final(out)@ == old(out)@ + pitch_bend_events(evs@, track),
{
    let ghost start = out@;
    proof {
        assert(pitch_bend_events(evs@.take(0), track) =~= Seq::<TickEvent<ControlEvent>>::empty());
        assert(start + Seq::<TickEvent<ControlEvent>>::empty() =~= start);
    }
    let mut i: usize = 0;
    while i < evs.len()
        invariant
            i <= evs@.len(),
            out@ == start + pitch_bend_events(evs@.take(i as int), track),
        decreases evs@.len() - i,
    {
        out.push((evs[i].0, ControlEvent::PitchBend { value: evs[i].1, track }));
        proof {
            assert(pitch_bend_events(evs@.take(i + 1), track) =~= pitch_bend_events(evs@.take(i as int), track).push(
                (evs@[i as int].0, ControlEvent::PitchBend { value: evs@[i as int].1, track }),
            ));
        }
        i += 1;
    }
    proof {
        assert(evs@.take(i as int) =~= evs@);
    }
}

fn push_programs(out: &mut Vec<TickEvent<ControlEvent>>, evs: &Vec<CoreProgram>, track: u16)
    ensures
        final(out)@ == old(out)@ + program_events(evs@, track),
{
    let ghost start = out@;
    proof {
        assert(program_events(evs@.take(0), track) =~= Seq::<TickEvent<ControlEvent>>::empty());
        assert(start + Seq::<TickEvent<ControlEvent>>::empty() =~= start);
    }
    let mut i: usize = 0;
    while i < evs.len()
        invariant
            i <= evs@.len(),
            out@ == start + program_events(evs@.take(i as int), track),
        decreases evs@.len() - i,
    {
        out.push((evs[i].tick, ControlEvent::ProgramChange { program: evs[i].program, track }));
        proof {
            assert(program_events(evs@.take(i + 1), track) =~= program_events(evs@.take(i as int), track).push(
                (evs@[i as int].tick, ControlEvent::ProgramChange { program: evs@[i as int].program, track }),
            ));
        }
        i += 1;
    }
    proof {
        assert(evs@.take(i as int) =~= evs@);
    }
}

/// Appends the controller events of one RPN value.
fn push_rpn_value(out: &mut Vec<TickEvent<ControlEvent>>, tick: u32, key: u16, value: u16, track: u16)
    ensures
        final(out)@ == old(out)@ + rpn_expansion(tick, key, value, track),
{
    let msb = ((key >> 8) & 0x7F) as u8;
    let lsb = (key & 0x7F) as u8;
    let data_msb = ((value >> 7) & 0x7F) as u8;
    let data_lsb = (value & 0x7F) as u8;
    proof {
        assert((key >> 8) & 0x7F == (key / 256) % 128) by (bit_vector);
        assert(key & 0x7F == key % 128) by (bit_vector);
        assert((value >> 7) & 0x7F == (value / 128) % 128) by (bit_vector);
        assert(value & 0x7F == value % 128) by (bit_vector);
    }
    out.push((tick, ControlEvent::ControlChange { controller: 101, value: msb, track }));
    out.push((tick, ControlEvent::ControlChange { controller: 100, value: lsb, track }));
    out.push((tick, ControlEvent::ControlChange { controller: 6, value: data_msb, track }));
    if data_lsb != 0 {
        out.push((tick, ControlEvent::ControlChange { controller: 38, value: data_lsb, track }));
    }
    proof {
        assert(out@ =~= old(out)@ + rpn_expansion(tick, key, value, track));
    }
}

fn push_rpns(out: &mut Vec<TickEvent<ControlEvent>>, rpn: &Vec<(u16, Vec<(u32, u16)>)>, track: u16)
    ensures
        final(out)@ == old(out)@ + rpn_events(rpn@, track),
{
    let ghost start = out@;
    proof {
        assert(rpn@.take(0) =~= Seq::<(u16, Vec<(u32, u16)>)>::empty());
        assert(start + Seq::<TickEvent<ControlEvent>>::empty() =~= start);
    }
    let mut c: usize = 0;
    while c < rpn.len()
        invariant
            c <= rpn@.len(),
            out@ == start + rpn_events(rpn@.take(c as int), track),
        decreases rpn@.len() - c,
    {
        let key = rpn[c].0;
        let evs = &rpn[c].1;
        let ghost mid = out@;
        proof {
            assert(evs@.take(0) =~= Seq::<(u32, u16)>::empty());
            assert(mid + Seq::<TickEvent<ControlEvent>>::empty() =~= mid);
        }
        let mut i: usize = 0;
        while i < evs.len()
            invariant
                i <= evs@.len(),
                out@ == mid + rpn_lane_events(evs@.take(i as int), key, track),
            decreases evs@.len() - i,
        {
            let ghost before = out@;
            push_rpn_value(out, evs[i].0, key, evs[i].1, track);
            proof {
                assert(evs@.take(i + 1).drop_last() =~= evs@.take(i as int));
                assert(out@ =~= mid + rpn_lane_events(evs@.take(i + 1), key, track));
            }
            i += 1;
        }
        proof {
            assert(evs@.take(i as int) =~= evs@);
            assert(rpn@.take(c + 1).drop_last() =~= rpn@.take(c as int));
            assert(start + rpn_events(rpn@.take(c + 1), track) =~= mid + rpn_lane_events(evs@, key, track));
        }
        c += 1;
    }
    proof {
        assert(rpn@.take(c as int) =~= rpn@);
    }
}

/// Flattens the controller events of every track, track by track.
fn flatten_controls(tracks: &Vec<CoreTrack>) -> (r: Vec<TickEvent<ControlEvent>>)
    ensures
        r@ == all_controls(tracks@),
{
    let mut out: Vec<TickEvent<ControlEvent>> = Vec::new();
    proof {
        assert(tracks@.take(0) =~= Seq::<CoreTrack>::empty());
    }
    let mut t: usize = 0;
    while t < tracks.len()
        invariant
            t <= tracks@.len(),
            out@ == all_controls(tracks@.take(t as int)),
        decreases tracks@.len() - t,
    {
        let track = &tracks[t];
        let tid: u16 = t as u16;
        let ghost before = out@;
        push_cc(&mut out, &track.cc, tid);
        push_pitch_bends(&mut out, &track.pitch_bend, tid);
        push_programs(&mut out, &track.program_change, tid);
        push_rpns(&mut out, &track.rpn, tid);
        proof {
            assert(tracks@.take(t + 1).drop_last() =~= tracks@.take(t as int));
            assert(out@ =~= before + track_controls(tracks@[t as int], tid));
        }
        t += 1;
    }
    proof {
        assert(tracks@.take(t as int) =~= tracks@);
    }
    out
}

/// 120 BPM, for the time before the first tempo change.
pub const DEFAULT_MPQ: u64 = 500_000;

/// The tempo changes with a 120 BPM change at tick 0 put first when the list
/// is empty or does not start at tick 0.
pub open spec fn tempo_input(tempo: Seq<(u64, u64)>) -> Seq<(u64, u64)> {
    if tempo.len() == 0 || tempo[0].0 != 0 {
        seq![(0u64, DEFAULT_MPQ)] + tempo
    } else {
        tempo
    }
}

/// The tempo of the first change of `s` at tick `t`, if any.
pub open spec fn first_tempo_at(s: Seq<(u64, u64)>, t: u64) -> Option<u64>
    decreases s.len(),
{
    if s.len() == 0 {
        None
    } else {
        let r = first_tempo_at(s.drop_last(), t);
        if r is Some {
            r
        } else if s.last().0 == t {
            Some(s.last().1)
        } else {
            None
        }
    }
}

/// Segment starts increase strictly.
pub open spec fn starts_increasing(r: Seq<(u64, u64)>) -> bool {
    forall|i: int, j: int| 0 <= i < j < r.len() ==> #[trigger] r[i].0 < #[trigger] r[j].0
}

/// `r` is the segment list of the changes `s`: one segment per distinct tick,
/// in increasing order, each with the first tempo given at that tick (a stable
/// sort by tick, keeping the first of equal ticks).
pub open spec fn segments_of(s: Seq<(u64, u64)>, r: Seq<(u64, u64)>) -> bool {
    &&& starts_increasing(r)
    &&& forall|j: int| 0 <= j < r.len() ==> first_tempo_at(s, #[trigger] r[j].0) == Some(r[j].1)
    &&& forall|t: u64| #[trigger] first_tempo_at(s, t) is Some ==> exists|j: int| 0 <= j < r.len() && r[j].0 == t
}

proof fn lemma_first_tempo_push(s: Seq<(u64, u64)>, x: (u64, u64))
    ensures
        forall|t: u64| #[trigger] first_tempo_at(s.push(x), t) == if first_tempo_at(s, t) is Some {
            first_tempo_at(s, t)
        } else if x.0 == t {
            Some(x.1)
        } else {
            None
        },
{
    assert(s.push(x).drop_last() =~= s);
}

proof fn lemma_first_tempo_front(x: (u64, u64), s: Seq<(u64, u64)>)
    ensures
        first_tempo_at(seq![x] + s, x.0) == Some(x.1),
    decreases s.len(),
{
    let q = seq![x] + s;
    if s.len() == 0 {
        assert(q.len() == 1);
        assert(q.last() == x);
        assert(q.drop_last() =~= Seq::<(u64, u64)>::empty());
        assert(first_tempo_at(q.drop_last(), x.0) is None);
    } else {
        lemma_first_tempo_front(x, s.drop_last());
        assert((seq![x] + s).drop_last() =~= seq![x] + s.drop_last());
    }
}

/// The tempo segments of the changes `tempo`: a 120 BPM segment at tick 0
/// unless the first change is at tick 0, then one segment per distinct tick
/// in increasing order, with the first tempo given at that tick.
pub fn tempo_segment_starts(tempo: &Vec<(u64, u64)>) -> (r: Vec<(u64, u64)>)
    ensures
        segments_of(tempo_input(tempo@), r@),
        r@.len() > 0,
        r@[0].0 == 0,
{
    let mut input: Vec<(u64, u64)> = Vec::new();
    if tempo.len() == 0 || tempo[0].0 != 0 {
        input.push((0, DEFAULT_MPQ));
    }
    let mut i: usize = 0;
    let ghost start = input@;
    while i < tempo.len()
        invariant
            i <= tempo@.len(),
            input@ == start + tempo@.take(i as int),
        decreases tempo@.len() - i,
    {
        input.push(tempo[i]);
        proof {
            assert(input@ =~= start + tempo@.take(i + 1));
        }
        i += 1;
    }
    proof {
        assert(tempo@.take(i as int) =~= tempo@);
        assert(input@ =~= tempo_input(tempo@));
    }
    let ghost all = input@;
    let mut r: Vec<(u64, u64)> = Vec::new();
    let mut n: usize = 0;
    proof {
        assert(all.take(0) =~= Seq::<(u64, u64)>::empty());
    }
    while n < input.len()
        invariant
            n <= all.len(),
            all == input@,
            segments_of(all.take(n as int), r@),
        decreases all.len() - n,
    {
        let (t, mpq) = input[n];
        let ghost pre = all.take(n as int);
        proof {
            assert(all.take(n + 1) =~= pre.push((t, mpq)));
            lemma_first_tempo_push(pre, (t, mpq));
        }
        // position of the first segment starting at or after t
        let mut k: usize = 0;
        while k < r.len() && r[k].0 < t
            invariant
                k <= r@.len(),
                starts_increasing(r@),
                forall|j: int| 0 <= j < k ==> #[trigger] r@[j].0 < t,
            decreases r@.len() - k,
        {
            k += 1;
        }
        if k < r.len() && r[k].0 == t {
            // a change at this tick came earlier: it is kept
            proof {
                assert(first_tempo_at(pre, t) == Some(r@[k as int].1));
                assert forall|j: int| 0 <= j < r@.len() implies first_tempo_at(pre.push((t, mpq)), #[trigger] r@[j].0)
                    == Some(r@[j].1) by {
                    assert(first_tempo_at(pre, r@[j].0) == Some(r@[j].1));
                }
                assert forall|u: u64| #[trigger] first_tempo_at(pre.push((t, mpq)), u) is Some implies exists|j: int|
                    0 <= j < r@.len() && r@[j].0 == u by {
                    if first_tempo_at(pre, u) is None {
                        assert(u == t);
                        assert(r@[k as int].0 == u);
                    }
                }
            }
        } else {
            proof {
                // no segment starts at t yet, so no earlier change is at t
                if first_tempo_at(pre, t) is Some {
                    let j = choose|j: int| 0 <= j < r@.len() && r@[j].0 == t;
                    if j < k {
                        assert(r@[j].0 < t);
                    } else if j > k {
                        assert(r@[k as int].0 < r@[j].0);
                    }
                }
                assert(first_tempo_at(pre, t) is None);
            }
            let ghost r0 = r@;
            r.insert(k, (t, mpq));
            proof {
                assert(r@ =~= r0.take(k as int).push((t, mpq)) + r0.skip(k as int));
                assert forall|a: int, b: int| 0 <= a < b < r@.len() implies #[trigger] r@[a].0 < #[trigger] r@[b].0 by {
                    if b < k {
                        assert(r@[a] == r0[a] && r@[b] == r0[b]);
                    } else if b == k {
                        assert(r@[a] == r0[a]);
                    } else if a < k {
                        assert(r@[a] == r0[a] && r@[b] == r0[b - 1]);
                        assert(r0[b - 1].0 >= t) by {
                            assert(k < r0.len());
                            if b - 1 > k {
                                assert(r0[k as int].0 < r0[b - 1].0);
                            }
                        }
                    } else if a == k {
                        assert(r@[b] == r0[b - 1]);
                        assert(r0[b - 1].0 >= t) by {
                            if b - 1 > k {
                                assert(r0[k as int].0 < r0[b - 1].0);
                            }
                        }
                    } else {
                        assert(r@[a] == r0[a - 1] && r@[b] == r0[b - 1]);
                    }
                }
                assert forall|j: int| 0 <= j < r@.len() implies first_tempo_at(pre.push((t, mpq)), #[trigger] r@[j].0)
                    == Some(r@[j].1) by {
                    if j < k {
                        assert(r@[j] == r0[j]);
                        assert(first_tempo_at(pre, r0[j].0) == Some(r0[j].1));
                    } else if j > k {
                        assert(r@[j] == r0[j - 1]);
                        assert(first_tempo_at(pre, r0[j - 1].0) == Some(r0[j - 1].1));
                    }
                }
                assert forall|u: u64| #[trigger] first_tempo_at(pre.push((t, mpq)), u) is Some implies exists|j: int|
                    0 <= j < r@.len() && r@[j].0 == u by {
                    if first_tempo_at(pre, u) is Some {
                        let j = choose|j: int| 0 <= j < r0.len() && r0[j].0 == u;
                        if j < k {
                            assert(r@[j] == r0[j]);
                        } else {
                            assert(r@[j + 1] == r0[j]);
                        }
                    } else {
                        assert(r@[k as int].0 == u);
                    }
                }
            }
        }
        n += 1;
    }
    proof {
        assert(all.take(n as int) =~= all);
        // a change at tick 0 exists, so a segment starts at 0, and it is the first
        lemma_first_tempo_front(all[0], all.drop_first());
        assert(seq![all[0]] + all.drop_first() =~= all);
        assert(all[0].0 == 0);
        assert(first_tempo_at(all, 0) is Some);
        let j = choose|j: int| 0 <= j < r@.len() && r@[j].0 == 0u64;
        if j > 0 {
            assert(r@[0].0 < r@[j].0);
        }
    }
    r
}

/// The time signature in force at the start: the first one by tick, 4/4
/// (numerator 4, denominator power 2) when there is none.
pub open spec fn first_time_sig(sorted: Seq<TickEvent<(u8, u8)>>) -> (u8, u8) {
    if sorted.len() == 0 {
        (4, 2)
    } else {
        sorted[0].1
    }
}

/// Builds the legacy per-key view of the model. Every note key must be a MIDI
/// key (below 128).
pub fn core_to_midi_file(model: &CoreModel) -> (r: MidiView)
    requires
        keys_in_range(model.tracks@),
        all_notes(model.tracks@).len() <= u64::MAX,
    ensures
        r.key_notes@.len() == 128,
        forall|k: int|
            0 <= k < 128 ==> #[trigger] r.key_notes@[k]@ == sort_by_tick(key_bucket(all_notes(model.tracks@), k)),
        r.note_count == all_notes(model.tracks@).len(),
        r.tick_length == max_end(all_notes(model.tracks@)),
        r.ticks_per_beat == model.meta.ppq,
        segments_of(tempo_input(model.tempo@), r.tempo_segments@),
        r.tempo_segments@.len() > 0,
        r.tempo_segments@[0].0 == 0,
        r.track_ports@ == model.tracks@.map_values(|t: CoreTrack| t.port),
        r.track_channel_prefixes@ == model.tracks@.map_values(|t: CoreTrack| t.channel_prefix),
        r.track_channels@ == model.tracks@.map_values(|t: CoreTrack| global_channel(t.port, t.channel)),
        texts(r.track_names@) == model.tracks@.map_values(|t: CoreTrack| t.name@),
        r.raw_track_names@.len() == model.tracks@.len(),
        forall|i: int|
            0 <= i < model.tracks@.len() ==> #[trigger] r.raw_track_names@[i]@ == vstd::utf8::encode_utf8(
                model.tracks@[i].name@,
            ),
        r.time_sig_events@ == sort_by_tick(model.time_sig@),
        (r.time_sig_numerator, r.time_sig_denominator) == first_time_sig(sort_by_tick(model.time_sig@)),
        r.control_events@ == sort_by_tick(all_controls(model.tracks@)),
{
    let (buckets, tick_length) = bucket_notes(&model.tracks);
    let mut key_notes: Vec<Vec<KeyNote>> = Vec::new();
    let mut note_count: u64 = 0;
    let ghost all = all_notes(model.tracks@);
    let mut k: usize = 0;
    while k < 128
        invariant
            k <= 128,
            buckets@.len() == 128,
            all == all_notes(model.tracks@),
            all.len() <= u64::MAX,
            forall|j: int| 0 <= j < 128 ==> #[trigger] buckets@[j]@ == key_bucket(all, j),
            key_notes@.len() == k,
            forall|j: int| 0 <= j < k ==> #[trigger] key_notes@[j]@ == sort_by_tick(key_bucket(all, j)),
            note_count == bucket_total(all, k as int),
        decreases 128 - k,
    {
        let sorted = sorted_by_tick(buckets[k].as_slice());
        proof {
            crate::history::apply::lemma_sort_props(key_bucket(all, k as int));
            lemma_bucket_total_bound(all, k + 1);
            assert(sorted@.len() == key_bucket(all, k as int).len()) by {
                assert(sorted@.to_multiset().len() == key_bucket(all, k as int).to_multiset().len());
                sorted@.to_multiset_ensures();
                key_bucket(all, k as int).to_multiset_ensures();
            }
        }
        note_count = note_count + sorted.len() as u64;
        key_notes.push(sorted);
        k += 1;
    }
    proof {
        lemma_all_notes_keys(model.tracks@);
        lemma_bucket_total_all(all);
    }
    let mut track_ports: Vec<u8> = Vec::new();
    let mut track_channel_prefixes: Vec<Option<u8>> = Vec::new();
    let mut track_channels: Vec<u8> = Vec::new();
    let mut track_names: Vec<String> = Vec::new();
    let mut raw_track_names: Vec<Vec<u8>> = Vec::new();
    let mut i: usize = 0;
    while i < model.tracks.len()
        invariant
            i <= model.tracks@.len(),
            track_ports@ == model.tracks@.take(i as int).map_values(|t: CoreTrack| t.port),
            track_channel_prefixes@ == model.tracks@.take(i as int).map_values(|t: CoreTrack| t.channel_prefix),
            track_channels@ == model.tracks@.take(i as int).map_values(
                |t: CoreTrack| global_channel(t.port, t.channel),
            ),
            texts(track_names@) == model.tracks@.take(i as int).map_values(|t: CoreTrack| t.name@),
            raw_track_names@.len() == i,
            forall|j: int| 0 <= j < i ==> #[trigger] raw_track_names@[j]@ == vstd::utf8::encode_utf8(
                model.tracks@[j].name@,
            ),
        decreases model.tracks@.len() - i,
    {
        let t = &model.tracks[i];
        let port = t.port;
        let channel = t.channel;
        let global: u8 = ((port & 0x0F) << 4) | (channel & 0x0F);
        proof {
            assert(((port & 0x0F) << 4) | (channel & 0x0F) == ((port % 16) * 16 + channel % 16) as u8)
                by (bit_vector);
        }
        track_ports.push(port);
        track_channel_prefixes.push(t.channel_prefix);
        track_channels.push(global);
        let ghost names0 = track_names@;
        let name = owned(t.name.as_str());
        track_names.push(name);
        proof {
            assert(texts(track_names@) =~= texts(names0).push(t.name@));
        }
        raw_track_names.push(t.name.as_str().as_bytes_vec());
        proof {
            assert(track_ports@ =~= model.tracks@.take(i + 1).map_values(|t: CoreTrack| t.port));
            assert(track_channel_prefixes@ =~= model.tracks@.take(i + 1).map_values(
                |t: CoreTrack| t.channel_prefix,
            ));
            assert(track_channels@ =~= model.tracks@.take(i + 1).map_values(
                |t: CoreTrack| global_channel(t.port, t.channel),
            ));
            assert(texts(track_names@) =~= model.tracks@.take(i + 1).map_values(|t: CoreTrack| t.name@));
        }
        i += 1;
    }
    proof {
        assert(model.tracks@.take(i as int) =~= model.tracks@);
    }
    let time_sig_events = sorted_by_tick(model.time_sig.as_slice());
    let (time_sig_numerator, time_sig_denominator) = if time_sig_events.len() == 0 {
        (4u8, 2u8)
    } else {
        time_sig_events[0].1
    };
    let controls = flatten_controls(&model.tracks);
    let control_events = sorted_by_tick(controls.as_slice());
    MidiView {
        key_notes,
        ticks_per_beat: model.meta.ppq,
        tempo_segments: tempo_segment_starts(&model.tempo),
        note_count,
        tick_length,
        time_sig_numerator,
        time_sig_denominator,
        track_ports,
        track_channel_prefixes,
        track_channels,
        track_names,
        raw_track_names,
        time_sig_events,
        control_events,
    }
}

/// The number of notes in the buckets of keys below `k`.
spec fn bucket_total(all: Seq<(u8, KeyNote)>, k: int) -> nat
    decreases k,
{
    if k <= 0 {
        0
    } else {
        bucket_total(all, k - 1) + key_bucket(all, k - 1).len()
    }
}

proof fn lemma_bucket_total_all(all: Seq<(u8, KeyNote)>)
    requires
        forall|i: int| 0 <= i < all.len() ==> #[trigger] all[i].0 < 128,
    ensures
        bucket_total(all, 128) == all.len(),
    decreases all.len(),
{
    if all.len() > 0 {
        assert(all.last().0 < 128);
        lemma_bucket_total_all(all.drop_last());
        lemma_bucket_total_split(all, 128);
    } else {
        lemma_bucket_total_empty(all, 128);
    }
}

proof fn lemma_all_notes_keys(tracks: Seq<CoreTrack>)
    requires
        keys_in_range(tracks),
    ensures
        forall|i: int| 0 <= i < all_notes(tracks).len() ==> #[trigger] all_notes(tracks)[i].0 < 128,
    decreases tracks.len(),
{
    if tracks.len() > 0 {
        let d = tracks.drop_last();
        assert(keys_in_range(d)) by {
            assert forall|t: int, n: int| 0 <= t < d.len() && 0 <= n < d[t].notes@.len() implies #[trigger] d[t].notes@[n].key
                < 128 by {
                assert(tracks[t].notes@[n].key < 128);
            }
        }
        lemma_all_notes_keys(d);
        let a = all_notes(d);
        let b = tagged_notes(tracks.last().notes@, (tracks.len() - 1) as u16);
        assert forall|i: int| 0 <= i < all_notes(tracks).len() implies #[trigger] all_notes(tracks)[i].0 < 128 by {
            if i >= a.len() {
                assert(all_notes(tracks)[i] == b[i - a.len()]);
                assert(tracks[tracks.len() - 1].notes@[i - a.len()].key < 128);
            } else {
                assert(all_notes(tracks)[i] == a[i]);
            }
        }
    }
}

proof fn lemma_bucket_total_empty(all: Seq<(u8, KeyNote)>, k: int)
    requires
        all.len() == 0,
    ensures
        bucket_total(all, k) == 0,
    decreases k,
{
    if k > 0 {
        lemma_bucket_total_empty(all, k - 1);
    }
}

proof fn lemma_bucket_total_split(all: Seq<(u8, KeyNote)>, k: int)
    requires
        all.len() > 0,
        0 <= k,
    ensures
        bucket_total(all, k) == bucket_total(all.drop_last(), k) + if all.last().0 < k { 1int } else { 0int },
    decreases k,
{
    if k > 0 {
        lemma_bucket_total_split(all, k - 1);
    }
}

proof fn lemma_bucket_total_bound(all: Seq<(u8, KeyNote)>, k: int)
    requires
        0 <= k,
    ensures
        bucket_total(all, k) <= all.len(),
    decreases all.len(),
{
    if all.len() > 0 {
        lemma_bucket_total_bound(all.drop_last(), k);
        lemma_bucket_total_split(all, k);
    } else {
        lemma_bucket_total_empty(all, k);
    }
}

/// A note of the archive model.
pub struct OldNote {
    pub tick: u32,
    pub duration: u32,
    pub key: u8,
    pub velocity: u8,
}

/// A track of the archive model.
pub struct OldTrack {
    pub uuid: String,
    pub name: String,
    pub port: u8,
    pub channel: u8,
    pub notes: Vec<OldNote>,
    /// Controller lanes by controller number.
    pub cc: BTreeMap<u8, Vec<(u32, u8)>>,
    pub pitch_bend: Vec<(u32, i16)>,
    pub program_change: Vec<CoreProgram>,
    /// RPN lanes by parameter MSB.
    pub rpn: BTreeMap<u8, Vec<(u32, u16)>>,
}

/// The archive model (its derived indices are rebuilt by the caller).
pub struct OldModel {
    pub time_sig: Vec<TickEvent<(u8, u8)>>,
    pub tracks: Vec<OldTrack>,
    pub meta: ProjectMeta,
}

/// A note as archived: start tick, length (0 when the end is before the start),
/// key, velocity.
pub open spec fn old_note(n: CoreNote) -> (u32, u32, u8, u8) {
    (n.start_tick, if n.end_tick >= n.start_tick { (n.end_tick - n.start_tick) as u32 } else { 0 }, n.key, n.velocity)
}

/// An archived note as plain values.
pub open spec fn old_note_view(n: OldNote) -> (u32, u32, u8, u8) {
    (n.tick, n.duration, n.key, n.velocity)
}

/// The controller lanes keyed by controller; a later lane of the same
/// controller replaces an earlier one.
pub open spec fn cc_map(cc: Seq<(u8, Vec<(u32, u8)>)>) -> Map<u8, Seq<(u32, u8)>>
    decreases cc.len(),
{
    if cc.len() == 0 {
        Map::empty()
    } else {
        cc_map(cc.drop_last()).insert(cc.last().0, cc.last().1@)
    }
}

/// The RPN lanes keyed by parameter MSB (the high byte of the key); a later
/// lane with the same MSB replaces an earlier one.
pub open spec fn rpn_map(rpn: Seq<(u16, Vec<(u32, u16)>)>) -> Map<u8, Seq<(u32, u16)>>
    decreases rpn.len(),
{
    if rpn.len() == 0 {
        Map::empty()
    } else {
        rpn_map(rpn.drop_last()).insert((rpn.last().0 / 256) as u8, rpn.last().1@)
    }
}

/// An archived note keeps the start, key and velocity, and its start plus its
/// length is the note's end (the length is 0 when the end is before the start).
pub proof fn lemma_archived_note_keeps_span(n: CoreNote)
    ensures
        old_note(n).0 == n.start_tick,
        old_note(n).2 == n.key,
        old_note(n).3 == n.velocity,
        n.start_tick <= n.end_tick ==> old_note(n).0 + old_note(n).1 == n.end_tick,
        n.end_tick < n.start_tick ==> old_note(n).1 == 0,
{
}

/// The archive has a lane for controller `c` exactly when some lane of the
/// track is for `c`.
pub proof fn lemma_cc_map_has_lane(cc: Seq<(u8, Vec<(u32, u8)>)>, c: u8)
    ensures
        cc_map(cc).contains_key(c) <==> exists|i: int| 0 <= i < cc.len() && (#[trigger] cc[i]).0 == c,
    decreases cc.len(),
{
    if cc.len() > 0 {
        let d = cc.drop_last();
        lemma_cc_map_has_lane(d, c);
        if exists|i: int| 0 <= i < cc.len() && (#[trigger] cc[i]).0 == c {
            let i = choose|i: int| 0 <= i < cc.len() && (#[trigger] cc[i]).0 == c;
            if i < d.len() {
                assert(d[i] == cc[i]);
            }
        }
        if exists|i: int| 0 <= i < d.len() && (#[trigger] d[i]).0 == c {
            let i = choose|i: int| 0 <= i < d.len() && (#[trigger] d[i]).0 == c;
            assert(cc[i] == d[i]);
        }
    }
}

/// The archived lane of the controller of lane `i` holds the events of lane
/// `i` when no later lane is for the same controller: the last lane wins.
pub proof fn lemma_cc_map_last_lane_wins(cc: Seq<(u8, Vec<(u32, u8)>)>, i: int)
    requires
        0 <= i < cc.len(),
        forall|j: int| i < j < cc.len() ==> (#[trigger] cc[j]).0 != cc[i].0,
    ensures
        cc_map(cc).contains_key(cc[i].0),
        cc_map(cc)[cc[i].0] == cc[i].1@,
    decreases cc.len(),
{
    let d = cc.drop_last();
    if i < d.len() {
        assert(cc[cc.len() - 1].0 != cc[i].0);
        assert forall|j: int| i < j < d.len() implies (#[trigger] d[j]).0 != d[i].0 by {
            assert(cc[j].0 != cc[i].0);
        }
        lemma_cc_map_last_lane_wins(d, i);
        assert(d[i] == cc[i]);
    }
}

/// The archive has an RPN lane for parameter MSB `m` exactly when some RPN
/// lane of the track has a key whose high byte is `m`.
pub proof fn lemma_rpn_map_has_lane(rpn: Seq<(u16, Vec<(u32, u16)>)>, m: u8)
    ensures
        rpn_map(rpn).contains_key(m) <==> exists|i: int| 0 <= i < rpn.len() && (#[trigger] rpn[i]).0 / 256 == m,
    decreases rpn.len(),
{
    if rpn.len() > 0 {
        let d = rpn.drop_last();
        lemma_rpn_map_has_lane(d, m);
        assert((rpn.last().0 / 256) as u8 == rpn.last().0 / 256);
        if exists|i: int| 0 <= i < rpn.len() && (#[trigger] rpn[i]).0 / 256 == m {
            let i = choose|i: int| 0 <= i < rpn.len() && (#[trigger] rpn[i]).0 / 256 == m;
            if i < d.len() {
                assert(d[i] == rpn[i]);
            }
        }
        if exists|i: int| 0 <= i < d.len() && (#[trigger] d[i]).0 / 256 == m {
            let i = choose|i: int| 0 <= i < d.len() && (#[trigger] d[i]).0 / 256 == m;
            assert(rpn[i] == d[i]);
        }
    }
}

/// The archived RPN lane of the parameter MSB of lane `i` holds the events of
/// lane `i` when no later lane has the same MSB: the last lane wins.
pub proof fn lemma_rpn_map_last_lane_wins(rpn: Seq<(u16, Vec<(u32, u16)>)>, i: int)
    requires
        0 <= i < rpn.len(),
        forall|j: int| i < j < rpn.len() ==> (#[trigger] rpn[j]).0 / 256 != rpn[i].0 / 256,
    ensures
        rpn_map(rpn).contains_key((rpn[i].0 / 256) as u8),
        rpn_map(rpn)[(rpn[i].0 / 256) as u8] == rpn[i].1@,
    decreases rpn.len(),
{
    let d = rpn.drop_last();
    let last = rpn.len() - 1;
    assert((rpn[last].0 / 256) as u8 == rpn[last].0 / 256);
    assert((rpn[i].0 / 256) as u8 == rpn[i].0 / 256);
    if i < d.len() {
        assert(rpn[last].0 / 256 != rpn[i].0 / 256);
        assert forall|j: int| i < j < d.len() implies (#[trigger] d[j]).0 / 256 != d[i].0 / 256 by {
            assert(rpn[j].0 / 256 != rpn[i].0 / 256);
        }
        lemma_rpn_map_last_lane_wins(d, i);
        assert(d[i] == rpn[i]);
    }
}

/// `o` is the archived form of track `t`.
pub open spec fn archived_track(t: CoreTrack, o: OldTrack) -> bool {
    &&& o.uuid@ == t.uuid@
    &&& o.name@ == t.name@
    &&& o.port == t.port
    &&& o.channel == t.channel
    &&& o.notes@.map_values(|n: OldNote| old_note_view(n)) == t.notes@.map_values(|n: CoreNote| old_note(n))
    &&& o.cc@.map_values(|v: Vec<(u32, u8)>| v@) == cc_map(t.cc@)
    &&& o.pitch_bend@ == t.pitch_bend@
    &&& o.program_change@ == t.program_change@
    &&& o.rpn@.map_values(|v: Vec<(u32, u16)>| v@) == rpn_map(t.rpn@)
}

fn copy_events<V: Copy>(v: &Vec<V>) -> (r: Vec<V>)
    ensures
        r@ == v@,
{
    let mut r: Vec<V> = Vec::new();
    let mut i: usize = 0;
    while i < v.len()
        invariant
            i <= v@.len(),
            r@ == v@.take(i as int),
        decreases v@.len() - i,
    {
        r.push(v[i]);
        proof {
            assert(r@ =~= v@.take(i + 1));
        }
        i += 1;
    }
    proof {
        assert(v@.take(i as int) =~= v@);
    }
    r
}

fn archive_track(t: &CoreTrack) -> (o: OldTrack)
    ensures
        archived_track(*t, o),
{
    broadcast use vstd::std_specs::btree::group_btree_axioms;

    let mut notes: Vec<OldNote> = Vec::new();
    let mut i: usize = 0;
    while i < t.notes.len()
        invariant
            i <= t.notes@.len(),
            notes@.map_values(|n: OldNote| old_note_view(n)) == t.notes@.take(i as int).map_values(
                |n: CoreNote| old_note(n),
            ),
        decreases t.notes@.len() - i,
    {
        let n = &t.notes[i];
        let duration: u32 = if n.end_tick >= n.start_tick { n.end_tick - n.start_tick } else { 0 };
        let ghost prev = notes@;
        let o = OldNote { tick: n.start_tick, duration, key: n.key, velocity: n.velocity };
        notes.push(o);
        proof {
            assert(old_note_view(o) == old_note(t.notes@[i as int]));
            assert(notes@ == prev.push(o));
            assert(notes@.map_values(|n: OldNote| old_note_view(n)) =~= prev.map_values(|n: OldNote| old_note_view(n)).push(
                old_note_view(o),
            ));
            assert(notes@.map_values(|n: OldNote| old_note_view(n)) =~= t.notes@.take(i + 1).map_values(
                |n: CoreNote| old_note(n),
            ));
        }
        i += 1;
    }
    proof {
        assert(t.notes@.take(i as int) =~= t.notes@);
    }
    let mut cc: BTreeMap<u8, Vec<(u32, u8)>> = BTreeMap::new();
    proof {
        assert(cc@.map_values(|v: Vec<(u32, u8)>| v@) =~= cc_map(t.cc@.take(0)));
    }
    let mut c: usize = 0;
    while c < t.cc.len()
        invariant
            c <= t.cc@.len(),
            cc@.map_values(|v: Vec<(u32, u8)>| v@) == cc_map(t.cc@.take(c as int)),
        decreases t.cc@.len() - c,
    {
        let controller = t.cc[c].0;
        let evs = copy_events(&t.cc[c].1);
        let ghost m0 = cc@;
        cc.insert(controller, evs);
        proof {
            assert(t.cc@.take(c + 1).drop_last() =~= t.cc@.take(c as int));
            assert(cc@.map_values(|v: Vec<(u32, u8)>| v@) =~= m0.map_values(|v: Vec<(u32, u8)>| v@).insert(
                controller,
                t.cc@[c as int].1@,
            ));
        }
        c += 1;
    }
    proof {
        assert(t.cc@.take(c as int) =~= t.cc@);
    }
    let mut rpn: BTreeMap<u8, Vec<(u32, u16)>> = BTreeMap::new();
    proof {
        assert(rpn@.map_values(|v: Vec<(u32, u16)>| v@) =~= rpn_map(t.rpn@.take(0)));
    }
    let mut r: usize = 0;
    while r < t.rpn.len()
        invariant
            r <= t.rpn@.len(),
            rpn@.map_values(|v: Vec<(u32, u16)>| v@) == rpn_map(t.rpn@.take(r as int)),
        decreases t.rpn@.len() - r,
    {
        let key = t.rpn[r].0;
        let msb: u8 = ((key >> 8) & 0xFF) as u8;
        proof {
            assert((key >> 8) & 0xFF == key / 256) by (bit_vector);
        }
        let evs = copy_events(&t.rpn[r].1);
        let ghost m0 = rpn@;
        rpn.insert(msb, evs);
        proof {
            assert(t.rpn@.take(r + 1).drop_last() =~= t.rpn@.take(r as int));
            assert(rpn@.map_values(|v: Vec<(u32, u16)>| v@) =~= m0.map_values(|v: Vec<(u32, u16)>| v@).insert(
                msb,
                t.rpn@[r as int].1@,
            ));
        }
        r += 1;
    }
    proof {
        assert(t.rpn@.take(r as int) =~= t.rpn@);
    }
    OldTrack {
        uuid: owned(t.uuid.as_str()),
        name: owned(t.name.as_str()),
        port: t.port,
        channel: t.channel,
        notes,
        cc,
        pitch_bend: copy_events(&t.pitch_bend),
        program_change: copy_events(&t.program_change),
        rpn,
    }
}

/// The archive form of the model: time signatures and metadata copied, each
/// track archived (see `archived_track`).
pub fn core_to_old_model(model: &CoreModel) -> (r: OldModel)
    ensures
        r.time_sig@ == model.time_sig@,
        r.tracks@.len() == model.tracks@.len(),
        forall|i: int| 0 <= i < model.tracks@.len() ==> archived_track(model.tracks@[i], #[trigger] r.tracks@[i]),
        r.meta.name@ == model.meta.name@,
        r.meta.artist@ == model.meta.artist@,
        r.meta.description@ == model.meta.description@,
        r.meta.ppq == model.meta.ppq,
        r.meta.compression_level == model.meta.compression_level,
{
    let mut tracks: Vec<OldTrack> = Vec::new();
    let mut i: usize = 0;
    while i < model.tracks.len()
        invariant
            i <= model.tracks@.len(),
            tracks@.len() == i,
            forall|j: int| 0 <= j < i ==> archived_track(model.tracks@[j], #[trigger] tracks@[j]),
        decreases model.tracks@.len() - i,
    {
        tracks.push(archive_track(&model.tracks[i]));
        i += 1;
    }
    OldModel {
        time_sig: copy_events(&model.time_sig),
        tracks,
        meta: ProjectMeta {
            name: owned(model.meta.name.as_str()),
            artist: owned(model.meta.artist.as_str()),
            description: owned(model.meta.description.as_str()),
            ppq: model.meta.ppq,
            compression_level: model.meta.compression_level,
        },
    }
}

/// The program of each channel: the first program change of the first track
/// (in track order) on that channel that has one.
pub open spec fn first_programs(tracks: Seq<CoreTrack>) -> Map<u8, u8>
    decreases tracks.len(),
{
    if tracks.len() == 0 {
        Map::empty()
    } else {
        let m = first_programs(tracks.drop_last());
        let t = tracks.last();
        if t.program_change@.len() > 0 && !m.contains_key(t.channel) {
            m.insert(t.channel, t.program_change@[0].program)
        } else {
            m
        }
    }
}

impl CoreModel {
    /// The program of each channel, for the instrument display.
    pub fn pc_map_cache(&self) -> (r: HashMap<u8, u8>)
        ensures
            r@ == first_programs(self.tracks@),
    {
        broadcast use vstd::std_specs::hash::group_hash_axioms;

        let mut pc_map: HashMap<u8, u8> = HashMap::new();
        proof {
            assert(self.tracks@.take(0) =~= Seq::<CoreTrack>::empty());
            assert(pc_map@ =~= Map::<u8, u8>::empty());
        }
        let mut t: usize = 0;
        while t < self.tracks.len()
            invariant
                t <= self.tracks@.len(),
                pc_map@ == first_programs(self.tracks@.take(t as int)),
            decreases self.tracks@.len() - t,
        {
            let track = &self.tracks[t];
            proof {
                assert(self.tracks@.take(t + 1).drop_last() =~= self.tracks@.take(t as int));
            }
            if track.program_change.len() > 0 && !pc_map.contains_key(&track.channel) {
                pc_map.insert(track.channel, track.program_change[0].program);
            }
            t += 1;
        }
        proof {
            assert(self.tracks@.take(t as int) =~= self.tracks@);
        }
        pc_map
    }
}

} // verus!
