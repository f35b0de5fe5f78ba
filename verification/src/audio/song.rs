//! The soundtrack's sequencer: where a ProTracker module stands, and what
//! each row of it does to the channels and the song. Which row plays, which
//! sample a channel takes, its volume, its pitch as a ProTracker period, and
//! the jumps, breaks, speed and tempo are all decided here. Turning a period
//! into a step through the sample, and the samples into sound, is the
//! program's float work.

use vstd::prelude::*;
use crate::audio::modfile::{Module, Note, Sample, ROWS};

verus! {

/// Ticks per row, as ProTracker starts.
pub const DEFAULT_SPEED: u32 = 6;

/// Beats per minute, as ProTracker starts.
pub const DEFAULT_TEMPO: u32 = 125;

/// One channel's settings.
#[derive(Debug, Clone, Copy, PartialEq, Eq)]
pub struct Voice {
    /// The sample it plays, counting from 0.
    pub sample: usize,
    /// Its pitch, as a ProTracker period: smaller is higher.
    pub period: i32,
    /// Where tone portamento is bending the period to.
    pub target_period: i32,
    /// 0 to 64.
    pub volume: u8,
    pub finetune: i8,
    pub playing: bool,
    pub porta_speed: u8,
    pub vibrato_depth: u8,
    pub vibrato_speed: u8,
    pub vibrato_phase: u8,
    /// Where the last row put the sample position, in samples, if it moved
    /// it: back to the start for a new note, or an offset for effect 9.
    pub moved_to: Option<u32>,
}

/// A voice as a module starts it: silent, at full volume.
pub open spec fn quiet() -> Voice {
    Voice {
        sample: 0,
        period: 0,
        target_period: 0,
        volume: 64,
        finetune: 0,
        playing: false,
        porta_speed: 0,
        vibrato_depth: 0,
        vibrato_speed: 0,
        vibrato_phase: 0,
        moved_to: None,
    }
}

/// Where a song stands.
#[derive(Debug, Clone)]
pub struct SongState {
    pub voices: Vec<Voice>,
    /// Which entry of the order plays.
    pub order_index: usize,
    /// Which row of its pattern.
    pub row: usize,
    pub speed: u32,
    pub tempo: u32,
    /// Set when the order has played through, or a row is not there.
    pub finished: bool,
    /// Effects met in the module that rows do nothing with, each once.
    pub unimplemented: Vec<u8>,
}

/// A song's state, as values.
pub struct SongView {
    pub voices: Seq<Voice>,
    pub order_index: usize,
    pub row: usize,
    pub speed: u32,
    pub tempo: u32,
    pub finished: bool,
    pub unimplemented: Seq<u8>,
}

impl View for SongState {
    type V = SongView;

    open spec fn view(&self) -> SongView {
        SongView {
            voices: self.voices@,
            order_index: self.order_index,
            row: self.row,
            speed: self.speed,
            tempo: self.tempo,
            finished: self.finished,
            unimplemented: self.unimplemented@,
        }
    }
}

impl SongState {
    /// The start of a module: a quiet voice for each channel, the first row
    /// of the first order entry, ProTracker's speed and tempo.
    pub fn new(module: &Module) -> (r: SongState)
        ensures
            r@.voices == Seq::new(module.channels as nat, |i: int| quiet()),
            r@.order_index == 0 && r@.row == 0,
            r@.speed == DEFAULT_SPEED && r@.tempo == DEFAULT_TEMPO,
            !r@.finished && r@.unimplemented == Seq::<u8>::empty(),
    {
        let mut voices: Vec<Voice> = Vec::new();
        let mut i: usize = 0;
        while i < module.channels
            invariant
                i <= module.channels,
                voices@ == Seq::new(i as nat, |j: int| quiet()),
            decreases module.channels - i,
        {
            voices.push(Voice {
                sample: 0,
                period: 0,
                target_period: 0,
                volume: 64,
                finetune: 0,
                playing: false,
                porta_speed: 0,
                vibrato_depth: 0,
                vibrato_speed: 0,
                vibrato_phase: 0,
                moved_to: None,
            });
            i += 1;
            assert(voices@ =~= Seq::new(i as nat, |j: int| quiet()));
        }
        SongState { voices, order_index: 0, row: 0, speed: DEFAULT_SPEED, tempo: DEFAULT_TEMPO, finished: false, unimplemented: Vec::new() }
    }
}

/// The notes of the row a song stands on, where the order and the pattern
/// have it.
pub open spec fn row_at(module: Module, order_index: int, row: int) -> Option<Seq<Note>> {
    if 0 <= order_index < module.order@.len() {
        let p = module.order@[order_index] as int;
        if p < module.patterns@.len() && 0 <= row < module.patterns@[p]@.len() {
            Some(module.patterns@[p]@[row]@)
        } else {
            None
        }
    } else {
        None
    }
}

/// Whether an effect is one a row does nothing with.
pub open spec fn ignored(effect: u8) -> bool {
    !(effect == 0 || effect == 3 || effect == 4 || effect == 9 || effect == 0xb || effect == 0xc || effect == 0xd || effect == 0xf)
}

/// What a note does to its channel. A sample number takes that sample and,
/// where the module has it, its volume and finetune. A period starts the
/// note, unless the effect is tone portamento (3 or 5), which only sets
/// where the pitch bends to. Then the effect: 3 sets the portamento speed,
/// 4 the vibrato's speed and depth (each where given), 9 moves the sample
/// position by 256 samples a step, and C sets the volume, at most 64.
pub open spec fn voice_after(v: Voice, note: Note, samples: Seq<Sample>) -> Voice {
    let v0 = Voice { moved_to: None, ..v };
    let v1 = if note.sample > 0 {
        let index = (note.sample - 1) as usize;
        if index < samples.len() {
            Voice { sample: index, volume: samples[index as int].volume, finetune: samples[index as int].finetune, ..v0 }
        } else {
            Voice { sample: index, ..v0 }
        }
    } else {
        v0
    };
    let porta = note.effect == 3 || note.effect == 5;
    let v2 = if note.period > 0 {
        if porta {
            Voice { target_period: note.period as i32, ..v1 }
        } else {
            Voice {
                period: note.period as i32,
                target_period: note.period as i32,
                moved_to: Some(0u32),
                playing: true,
                vibrato_phase: 0,
                ..v1
            }
        }
    } else {
        v1
    };
    let arg = note.argument;
    if note.effect == 3 {
        if arg > 0 { Voice { porta_speed: arg, ..v2 } } else { v2 }
    } else if note.effect == 4 {
        let v3 = if arg / 16 > 0 { Voice { vibrato_speed: arg / 16, ..v2 } } else { v2 };
        if arg % 16 > 0 { Voice { vibrato_depth: arg % 16, ..v3 } } else { v3 }
    } else if note.effect == 9 {
        Voice { moved_to: Some((arg * 256) as u32), ..v2 }
    } else if note.effect == 0xc {
        Voice { volume: if arg < 64 { arg } else { 64 }, ..v2 }
    } else {
        v2
    }
}

/// What a row has done so far: the voices, the speed and tempo, the
/// effects met and not handled, and any order jump (B) or pattern break (D).
pub struct Played {
    pub voices: Seq<Voice>,
    pub speed: u32,
    pub tempo: u32,
    pub unimplemented: Seq<u8>,
    pub jump: Option<usize>,
    pub break_to: Option<usize>,
}

/// What note `i` of a row adds. A note with no channel to play it does
/// nothing at all.
pub open spec fn note_played(a: Played, note: Note, i: int, samples: Seq<Sample>) -> Played {
    if i >= a.voices.len() {
        a
    } else {
        let arg = note.argument;
        let e = note.effect;
        Played {
            voices: a.voices.update(i, voice_after(a.voices[i], note, samples)),
            speed: if e == 0xf && arg < 32 { if arg >= 1 { arg as u32 } else { 1 } } else { a.speed },
            tempo: if e == 0xf && arg >= 32 { arg as u32 } else { a.tempo },
            unimplemented: if ignored(e) && !a.unimplemented.contains(e) { a.unimplemented.push(e) } else { a.unimplemented },
            jump: if e == 0xb { Some(arg as usize) } else { a.jump },
            break_to: if e == 0xd { Some((arg / 16 * 10 + arg % 16) as usize) } else { a.break_to },
        }
    }
}

/// What the first `n` notes of a row do, in order.
pub open spec fn played_upto(start: Played, row: Seq<Note>, samples: Seq<Sample>, n: nat) -> Played
    decreases n,
{
    if n == 0 || n > row.len() {
        start
    } else {
        note_played(played_upto(start, row, samples, (n - 1) as nat), row[n - 1], n - 1, samples)
    }
}

/// What playing the row a song stands on does: where there is no such row
/// the song is finished; otherwise each note in turn, then an order jump
/// (to the last row of that entry, so the next row is its first) or else a
/// pattern break (to the row before the one named, in the next entry, the
/// song finished where the order runs out).
pub open spec fn row_played(s: SongView, module: Module) -> SongView {
    match row_at(module, s.order_index as int, s.row as int) {
        None => SongView { finished: true, ..s },
        Some(row) => {
            let start = Played { voices: s.voices, speed: s.speed, tempo: s.tempo, unimplemented: s.unimplemented, jump: None, break_to: None };
            let p = played_upto(start, row, module.samples@, row.len());
            let base = SongView { voices: p.voices, speed: p.speed, tempo: p.tempo, unimplemented: p.unimplemented, ..s };
            match p.jump {
                Some(to) => SongView { order_index: to, row: (ROWS - 1) as usize, ..base },
                None => match p.break_to {
                    Some(to) => {
                        let capped = if to < ROWS - 1 { to as int } else { ROWS - 1 };
                        let row = if capped == 0 { usize::MAX } else { (capped - 1) as usize };
                        if s.order_index + 1 >= module.order@.len() {
                            SongView { row, order_index: 0, finished: true, ..base }
                        } else {
                            SongView { row, order_index: (s.order_index + 1) as usize, ..base }
                        }
                    },
                    None => base,
                },
            }
        },
    }
}

/// The row a song stands on, where there is one.
fn current_row(order_index: usize, row: usize, module: &Module) -> (r: Option<&Vec<Note>>)
    ensures
        match row_at(*module, order_index as int, row as int) {
            Some(notes) => r matches Some(v) && v@ == notes,
            None => r is None,
        },
{
    if order_index < module.order.len() {
        let p = module.order[order_index] as usize;
        if p < module.patterns.len() && row < module.patterns[p].len() {
            return Some(&module.patterns[p][row]);
        }
    }
    None
}

/// Whether a list holds a value.
fn holds(list: &Vec<u8>, e: u8) -> (r: bool)
    ensures
        r == list@.contains(e),
{
    let mut i: usize = 0;
    while i < list.len()
        invariant
            i <= list@.len(),
            forall|j: int| 0 <= j < i ==> list@[j] != e,
        decreases list@.len() - i,
    {
        if list[i] == e {
            return true;
        }
        i += 1;
    }
    false
}

/// What one note does to its channel.
fn play_note(v: Voice, note: Note, samples: &Vec<Sample>) -> (r: Voice)
    ensures
        r == voice_after(v, note, samples@),
        period_ok(v) ==> period_ok(r),
{
    let mut v = Voice { moved_to: None, ..v };
    if note.sample > 0 {
        let index = (note.sample - 1) as usize;
        v.sample = index;
        if index < samples.len() {
            v.volume = samples[index].volume;
            v.finetune = samples[index].finetune;
        }
    }
    let porta = note.effect == 3 || note.effect == 5;
    if note.period > 0 {
        if porta {
            v.target_period = note.period as i32;
        } else {
            v.period = note.period as i32;
            v.target_period = note.period as i32;
            v.moved_to = Some(0);
            v.playing = true;
            v.vibrato_phase = 0;
        }
    }
    let arg = note.argument;
    if note.effect == 3 {
        if arg > 0 {
            v.porta_speed = arg;
        }
    } else if note.effect == 4 {
        if arg / 16 > 0 {
            v.vibrato_speed = arg / 16;
        }
        if arg % 16 > 0 {
            v.vibrato_depth = arg % 16;
        }
    } else if note.effect == 9 {
        v.moved_to = Some(arg as u32 * 256);
    } else if note.effect == 0xc {
        v.volume = if arg < 64 { arg } else { 64 };
    }
    v
}

/// Play the row the song stands on (ProTracker's tick 0): each note sets
/// its channel, and the row's effects set the speed or tempo, jump to an
/// order entry, or break to a row of the next.
pub fn play_row(song: &mut SongState, module: &Module)
    ensures
        final(song)@ == row_played(old(song)@, *module),
        (forall|i: int| 0 <= i < old(song).voices@.len() ==> period_ok(#[trigger] old(song).voices@[i]))
            ==> forall|i: int| 0 <= i < final(song).voices@.len() ==> period_ok(#[trigger] final(song).voices@[i]),
{
    let row = match current_row(song.order_index, song.row, module) {
        Some(r) => r,
        None => {
            song.finished = true;
            return;
        },
    };
    let ghost notes = row@;
    let ghost start = Played {
        voices: song.voices@,
        speed: song.speed,
        tempo: song.tempo,
        unimplemented: song.unimplemented@,
        jump: None,
        break_to: None,
    };
    let mut jump: Option<usize> = None;
    let mut break_to: Option<usize> = None;
    let mut i: usize = 0;
    while i < row.len()
        invariant
            notes == row@,
            i <= row@.len(),
            song.order_index == old(song).order_index,
            song.row == old(song).row,
            song.finished == old(song).finished,
            (forall|j: int| 0 <= j < old(song).voices@.len() ==> period_ok(#[trigger] old(song).voices@[j]))
                ==> forall|j: int| 0 <= j < song.voices@.len() ==> period_ok(#[trigger] song.voices@[j]),
            ({
                let p = played_upto(start, notes, module.samples@, i as nat);
                &&& song.voices@ == p.voices
                &&& song.speed == p.speed
                &&& song.tempo == p.tempo
                &&& song.unimplemented@ == p.unimplemented
                &&& jump == p.jump
                &&& break_to == p.break_to
            }),
        decreases row@.len() - i,
    {
        let note = row[i];
        if i < song.voices.len() {
            let v = play_note(song.voices[i], note, &module.samples);
            song.voices.set(i, v);
            let arg = note.argument;
            if note.effect == 0xb {
                jump = Some(arg as usize);
            } else if note.effect == 0xc {
            } else if note.effect == 0xd {
                assert((arg >> 4) == arg / 16 && (arg & 0xf) == arg % 16 && (arg >> 4) <= 15 && (arg & 0xf) <= 15) by (bit_vector);
                break_to = Some(((arg >> 4) * 10 + (arg & 0xf)) as usize);
            } else if note.effect == 0xf {
                if arg < 32 {
                    song.speed = if arg >= 1 { arg as u32 } else { 1 };
                } else {
                    song.tempo = arg as u32;
                }
            } else if !(note.effect == 0 || note.effect == 3 || note.effect == 4 || note.effect == 9) {
                if !holds(&song.unimplemented, note.effect) {
                    song.unimplemented.push(note.effect);
                }
            }
        }
        i += 1;
    }
    let entries = module.order.len();
    assert(song.order_index < entries);
    if let Some(to) = jump {
        song.order_index = to;
        song.row = ROWS - 1;
    } else if let Some(to) = break_to {
        let capped = if to < ROWS - 1 { to } else { ROWS - 1 };
        song.row = if capped == 0 { usize::MAX } else { capped - 1 };
        song.order_index = song.order_index + 1;
        if song.order_index >= module.order.len() {
            song.order_index = 0;
            song.finished = true;
        }
    }
}

/// Move to the next row once a row's ticks are done: the next row of the
/// pattern, or the first of the next order entry, and back to the first
/// entry, the song finished, where the order runs out.
pub fn next_row(song: &mut SongState, module: &Module)
    ensures
        ({
            let s = old(song)@;
            let row = if s.row == usize::MAX { 0 } else { s.row + 1 };
            if row >= ROWS {
                let index = s.order_index + 1;
                if index >= module.order@.len() {
                    final(song)@ == SongView { row: 0, order_index: 0, finished: true, ..s }
                } else {
                    final(song)@ == SongView { row: 0, order_index: index as usize, ..s }
                }
            } else {
                final(song)@ == SongView { row: row as usize, ..s }
            }
        }),
{
    let entries = module.order.len();
    let row = if song.row == usize::MAX { 0 } else { song.row + 1 };
    if row >= ROWS {
        song.row = 0;
        if song.order_index == usize::MAX || song.order_index + 1 >= module.order.len() {
            song.order_index = 0;
            song.finished = true;
        } else {
            song.order_index = song.order_index + 1;
        }
    } else {
        song.row = row;
    }
}

/// ProTracker's sine table, used by vibrato.
pub const SINE: [i16; 32] = [
    0, 24, 49, 74, 97, 120, 141, 161, 180, 197, 212, 224, 235, 244, 250, 253, 255, 253, 250,
    244, 235, 224, 212, 197, 180, 161, 141, 120, 97, 74, 49, 24,
];

/// The highest and lowest periods a slide reaches.
pub const PERIOD_LOW: i32 = 113;
pub const PERIOD_HIGH: i32 = 856;

pub open spec fn clamped(v: int, lo: int, hi: int) -> int {
    if v < lo { lo } else if v > hi { hi } else { v }
}

/// What a note's effect does to its channel on each tick after the first:
/// 1 slides the period down and 2 up, within 113 to 856; 3 and 5 bend it
/// toward the target by the portamento speed, never past it; 4 and 6 add
/// the vibrato's sine at its depth, within 113 to 856, and step its phase;
/// A slides the volume up to 64, or down to 0.
pub open spec fn voice_ticked(v: Voice, note: Note) -> Voice {
    let arg = note.argument as int;
    let e = note.effect;
    if e == 1 {
        Voice { period: (if v.period - arg > PERIOD_LOW { v.period - arg } else { PERIOD_LOW as int }) as i32, ..v }
    } else if e == 2 {
        Voice { period: (if v.period + arg < PERIOD_HIGH { v.period + arg } else { PERIOD_HIGH as int }) as i32, ..v }
    } else if e == 3 || e == 5 {
        let speed = v.porta_speed as int;
        if v.period < v.target_period {
            Voice { period: (if v.period + speed < v.target_period { v.period + speed } else { v.target_period as int }) as i32, ..v }
        } else if v.period > v.target_period {
            Voice { period: (if v.period - speed > v.target_period { v.period - speed } else { v.target_period as int }) as i32, ..v }
        } else {
            v
        }
    } else if e == 4 || e == 6 {
        let offset = SINE@[(v.vibrato_phase % 32) as int] * (v.vibrato_depth as int) / 128;
        let signed = if v.vibrato_phase < 32 { offset } else { -offset };
        Voice {
            period: clamped(v.period + signed, PERIOD_LOW as int, PERIOD_HIGH as int) as i32,
            vibrato_phase: ((v.vibrato_phase + v.vibrato_speed) % 256 % 64) as u8,
            ..v
        }
    } else if e == 0xa {
        let up = arg / 16;
        let down = arg % 16;
        if up > 0 {
            Voice { volume: (if v.volume + up < 64 { v.volume + up } else { 64 }) as u8, ..v }
        } else {
            Voice { volume: (if v.volume >= down { v.volume - down } else { 0 }) as u8, ..v }
        }
    } else {
        v
    }
}

/// Whether a voice's period is one a module can hold: a note's period, or
/// a slide's, well inside 32 bits.
pub open spec fn period_ok(v: Voice) -> bool {
    0 <= v.period <= 0x1_0000 && 0 <= v.target_period <= 0x1_0000
}

/// One tick's effects on a channel.
fn tick_note(v: Voice, note: Note) -> (r: Voice)
    requires
        period_ok(v),
    ensures
        r == voice_ticked(v, note),
        period_ok(r),
{
    let mut v = v;
    let arg = note.argument as i32;
    let e = note.effect;
    if e == 1 {
        v.period = if v.period - arg > PERIOD_LOW { v.period - arg } else { PERIOD_LOW };
    } else if e == 2 {
        v.period = if v.period + arg < PERIOD_HIGH { v.period + arg } else { PERIOD_HIGH };
    } else if e == 3 || e == 5 {
        let speed = v.porta_speed as i32;
        if v.period < v.target_period {
            v.period = if v.period + speed < v.target_period { v.period + speed } else { v.target_period };
        } else if v.period > v.target_period {
            v.period = if v.period - speed > v.target_period { v.period - speed } else { v.target_period };
        }
    } else if e == 4 || e == 6 {
        let ph = v.vibrato_phase;
        let sp = v.vibrato_speed;
        let phase = (ph & 31) as usize;
        assert((ph & 31) == ph % 32) by (bit_vector);
        let s = SINE[phase] as i32;
        assert(0 <= s <= 255);
        let depth = v.vibrato_depth as i32;
        assert(0 <= s * depth <= 255 * 255) by (nonlinear_arith)
            requires 0 <= s <= 255, 0 <= depth <= 255;
        let offset = s * depth / 128;
        let signed = if v.vibrato_phase < 32 { offset } else { -offset };
        let p = v.period + signed;
        v.period = if p < PERIOD_LOW { PERIOD_LOW } else if p > PERIOD_HIGH { PERIOD_HIGH } else { p };
        let next = ph.wrapping_add(sp) & 63;
        assert(next == ((ph + sp) % 256 % 64) as u8) by (bit_vector)
            requires next == ph.wrapping_add(sp) & 63;
        v.vibrato_phase = next;
    } else if e == 0xa {
        let a8 = note.argument;
        let up = a8 >> 4;
        let down = a8 & 0xf;
        assert(up == a8 / 16 && down == a8 % 16 && up <= 15) by (bit_vector)
            requires up == a8 >> 4, down == a8 & 0xf;
        if up > 0 {
            v.volume = if (v.volume as u16) + (up as u16) < 64 { v.volume + up } else { 64 };
        } else {
            v.volume = if v.volume >= down { v.volume - down } else { 0 };
        }
    }
    v
}

/// What a tick after the first does to a song's voices.
pub open spec fn row_ticked(s: SongView, module: Module) -> Seq<Voice> {
    match row_at(module, s.order_index as int, s.row as int) {
        None => s.voices,
        Some(row) => Seq::new(s.voices.len(), |i: int| if i < row.len() { voice_ticked(s.voices[i], row[i]) } else { s.voices[i] }),
    }
}

/// The row's effects on a tick after the first: slides, portamento,
/// vibrato and volume slides, each on its own channel.
pub fn tick_effects(song: &mut SongState, module: &Module)
    requires
        forall|i: int| 0 <= i < old(song).voices@.len() ==> period_ok(#[trigger] old(song).voices@[i]),
    ensures
        final(song)@ == (SongView { voices: row_ticked(old(song)@, *module), ..old(song)@ }),
        forall|i: int| 0 <= i < final(song).voices@.len() ==> period_ok(#[trigger] final(song).voices@[i]),
{
    let row = match current_row(song.order_index, song.row, module) {
        Some(r) => r,
        None => {
            assert(song@.voices =~= row_ticked(old(song)@, *module));
            return;
        },
    };
    let mut i: usize = 0;
    while i < song.voices.len()
        invariant
            i <= song.voices@.len(),
            song.voices@.len() == old(song).voices@.len(),
            song.order_index == old(song).order_index && song.row == old(song).row,
            song.speed == old(song).speed && song.tempo == old(song).tempo,
            song.finished == old(song).finished && song.unimplemented@ == old(song).unimplemented@,
            row_at(*module, song.order_index as int, song.row as int) == Some(row@),
            forall|j: int| 0 <= j < song.voices@.len() ==> period_ok(#[trigger] song.voices@[j]),
            forall|j: int| 0 <= j < song.voices@.len() ==> #[trigger] song.voices@[j] == (
                if j < i && j < row@.len() { voice_ticked(old(song).voices@[j], row@[j]) } else { old(song).voices@[j] }),
        decreases song.voices@.len() - i,
    {
        if i < row.len() {
            let v = tick_note(song.voices[i], row[i]);
            song.voices.set(i, v);
        }
        i += 1;
    }
    assert(song@.voices =~= row_ticked(old(song)@, *module));
}

} // verus!
