use vstd::prelude::*;

verus! {

broadcast use vstd::std_specs::vec::group_vec_axioms;

/// Highest MIDI note number.
pub const MAX_NOTE: u8 = 127;

/// Bit pattern of the single precision value `1.0`. For non-negative
/// values the order of the bit patterns is the order of the values, and
/// every pattern up to this one is a value in `[0, 1]`.
pub const UNIT_BITS: u32 = 0x3f80_0000;

/// Number of logical MIDI channels.
pub const MIDI_CHANNELS: usize = 16;

/// A node that owns a control channel, and whether seeks sent to it wait
/// for a musical boundary.
#[derive(Clone, Copy, Debug, PartialEq, Eq)]
pub struct ControlPoint {
    pub node_id: u64,
    pub deferred: bool,
}

/// What a file-backed leaf reads from its file.
#[derive(Clone, Copy, Debug, PartialEq, Eq, Structural)]
pub enum FileKind {
    Sample,
    OneShot,
    SoundFont,
    Sequence,
}

/// A loop region of a sample, in frames; `end` absent means the sample's end.
#[derive(Clone, Copy, Debug, PartialEq, Eq)]
pub struct LoopSpec {
    pub start: u64,
    pub end: Option<u64>,
}

/// A child of a font together with the inclusive note interval it plays.
pub struct FontRange {
    pub lower: u8,
    pub upper: u8,
    pub source: SourceDescription,
}

/// The instrument that plays one logical channel of a MIDI sequence.
pub struct ChannelSource {
    pub channel: usize,
    pub source: SourceDescription,
}

/// The declarative form of a synthesis graph.
///
/// Synthesis constants (amplitudes, times, levels) are IEEE-754 single
/// precision values carried as their bit patterns: the compiler hands them
/// on unchanged, and only the mixer's balance is checked (it must lie in
/// `[0, 1]`; anything else is rejected, not clamped).
///
/// Node identifiers are the caller's: nothing here checks that they are
/// unique, and a channel is found by its position in the compile result,
/// never by identifier. Font ranges may overlap; a note plays the first
/// range, in declaration order, that contains it.
pub enum SourceDescription {
    SquareWave { node_id: u64, amplitude_bits: u32, duty_cycle_bits: u32 },
    TriangleWave { node_id: u64, amplitude_bits: u32 },
    SawtoothWave { node_id: u64, amplitude_bits: u32 },
    LfsrNoise { node_id: u64, amplitude_bits: u32, inside_feedback: bool, note_for_16_shifts: u8 },
    SampleFile { node_id: u64, path: String, base_note: u8, looping: Option<LoopSpec> },
    OneShotFile { node_id: u64, path: String },
    SoundFontFile { node_id: u64, path: String, instrument_index: usize },
    Midi { node_id: u64, path: String, channels: Vec<ChannelSource> },
    EventReceiver { node_id: u64, source: Box<SourceDescription> },
    Envelope {
        node_id: u64,
        attack_bits: u32,
        decay_bits: u32,
        sustain_bits: u32,
        release_bits: u32,
        source: Box<SourceDescription>,
    },
    Fader { node_id: u64, initial_volume_bits: u32, source: Box<SourceDescription> },
    Mixer {
        node_id: u64,
        balance_bits: u32,
        source_0: Box<SourceDescription>,
        source_1: Box<SourceDescription>,
    },
    Combiner { node_id: u64, sources: Vec<SourceDescription> },
    FontRanges { node_id: u64, ranges: Vec<FontRange> },
}

/// The files of the file-backed leaves, each with the kind of asset it
/// holds, in the order a depth-first,
/// left-to-right walk meets them (a MIDI sequence's own file before those
/// of its instruments).
pub open spec fn file_paths(d: SourceDescription) -> Seq<(FileKind, Seq<char>)>
    decreases d,
{
    match d {
        SourceDescription::SampleFile { path, .. } => seq![(FileKind::Sample, path@)],
        SourceDescription::OneShotFile { path, .. } => seq![(FileKind::OneShot, path@)],
        SourceDescription::SoundFontFile { path, .. } => seq![(FileKind::SoundFont, path@)],
        SourceDescription::Midi { path, channels, .. } => seq![(FileKind::Sequence, path@)]
            + channel_file_paths(channels@),
        SourceDescription::EventReceiver { source, .. } => file_paths(*source),
        SourceDescription::Envelope { source, .. } => file_paths(*source),
        SourceDescription::Fader { source, .. } => file_paths(*source),
        SourceDescription::Mixer { source_0, source_1, .. } => file_paths(*source_0) + file_paths(
            *source_1,
        ),
        SourceDescription::Combiner { sources, .. } => seq_file_paths(sources@),
        SourceDescription::FontRanges { ranges, .. } => range_file_paths(ranges@),
        _ => seq![],
    }
}

pub open spec fn seq_file_paths(s: Seq<SourceDescription>) -> Seq<(FileKind, Seq<char>)>
    decreases s,
{
    if s.len() == 0 {
        seq![]
    } else {
        seq_file_paths(s.drop_last()) + file_paths(s.last())
    }
}

pub open spec fn range_file_paths(s: Seq<FontRange>) -> Seq<(FileKind, Seq<char>)>
    decreases s,
{
    if s.len() == 0 {
        seq![]
    } else {
        range_file_paths(s.drop_last()) + file_paths(s.last().source)
    }
}

pub open spec fn channel_file_paths(s: Seq<ChannelSource>) -> Seq<(FileKind, Seq<char>)>
    decreases s,
{
    if s.len() == 0 {
        seq![]
    } else {
        channel_file_paths(s.drop_last()) + file_paths(s.last().source)
    }
}

/// Whether a seek addressed to this node waits for a musical boundary:
/// sequences have boundaries, single-child wrappers take their child's.
pub open spec fn has_boundaries(d: SourceDescription) -> bool
    decreases d,
{
    match d {
        SourceDescription::Midi { .. } => true,
        SourceDescription::EventReceiver { source, .. } => has_boundaries(*source),
        SourceDescription::Envelope { source, .. } => has_boundaries(*source),
        SourceDescription::Fader { source, .. } => has_boundaries(*source),
        _ => false,
    }
}

/// The control points a compile allocates, in depth-first, left-to-right
/// order: each node's own point comes after those of its children.
pub open spec fn control_points(d: SourceDescription) -> Seq<ControlPoint>
    decreases d,
{
    match d {
        SourceDescription::Midi { node_id, channels, .. } => channel_control_points(channels@).push(
            ControlPoint { node_id, deferred: true },
        ),
        SourceDescription::EventReceiver { node_id, source } => control_points(*source).push(
            ControlPoint { node_id, deferred: has_boundaries(*source) },
        ),
        SourceDescription::Envelope { source, .. } => control_points(*source),
        SourceDescription::Fader { source, .. } => control_points(*source),
        SourceDescription::Mixer { source_0, source_1, .. } => control_points(*source_0)
            + control_points(*source_1),
        SourceDescription::Combiner { sources, .. } => seq_control_points(sources@),
        SourceDescription::FontRanges { ranges, .. } => range_control_points(ranges@),
        _ => seq![],
    }
}

pub open spec fn seq_control_points(s: Seq<SourceDescription>) -> Seq<ControlPoint>
    decreases s,
{
    if s.len() == 0 {
        seq![]
    } else {
        seq_control_points(s.drop_last()) + control_points(s.last())
    }
}

pub open spec fn range_control_points(s: Seq<FontRange>) -> Seq<ControlPoint>
    decreases s,
{
    if s.len() == 0 {
        seq![]
    } else {
        range_control_points(s.drop_last()) + control_points(s.last().source)
    }
}

pub open spec fn channel_control_points(s: Seq<ChannelSource>) -> Seq<ControlPoint>
    decreases s,
{
    if s.len() == 0 {
        seq![]
    } else {
        channel_control_points(s.drop_last()) + control_points(s.last().source)
    }
}

/// A note range is usable when it is a non-empty interval of MIDI notes.
pub open spec fn valid_range(lower: u8, upper: u8) -> bool {
    lower <= upper <= MAX_NOTE
}

/// Whether the node's own constants are in their domain (children aside).
pub open spec fn own_constants_valid(d: SourceDescription) -> bool {
    match d {
        SourceDescription::LfsrNoise { note_for_16_shifts, .. } => note_for_16_shifts <= MAX_NOTE,
        SourceDescription::Mixer { balance_bits, .. } => balance_bits <= UNIT_BITS,
        SourceDescription::SampleFile { base_note, looping, .. } => base_note <= MAX_NOTE && match looping {
            Some(l) => match l.end {
                Some(e) => l.start < e,
                None => true,
            },
            None => true,
        },
        _ => true,
    }
}

/// Every constant of the tree is in its domain.
pub open spec fn well_formed(d: SourceDescription) -> bool
    decreases d,
{
    own_constants_valid(d) && match d {
        SourceDescription::Midi { channels, .. } => forall|i: int|
            0 <= i < channels.len() ==> (#[trigger] channels@[i]).channel < MIDI_CHANNELS
                && well_formed(channels@[i].source),
        SourceDescription::EventReceiver { source, .. } => well_formed(*source),
        SourceDescription::Envelope { source, .. } => well_formed(*source),
        SourceDescription::Fader { source, .. } => well_formed(*source),
        SourceDescription::Mixer { source_0, source_1, .. } => well_formed(*source_0) && well_formed(
            *source_1,
        ),
        SourceDescription::Combiner { sources, .. } => forall|i: int|
            0 <= i < sources.len() ==> well_formed(#[trigger] sources@[i]),
        SourceDescription::FontRanges { ranges, .. } => forall|i: int|
            0 <= i < ranges.len() ==> valid_range((#[trigger] ranges@[i]).lower, ranges@[i].upper)
                && well_formed(ranges@[i].source),
        _ => true,
    }
}

/// The number of nodes that own a control channel: event receivers and
/// MIDI sequences.
pub open spec fn controllable_count(d: SourceDescription) -> nat
    decreases d,
{
    match d {
        SourceDescription::Midi { channels, .. } => channels_controllable_count(channels@) + 1,
        SourceDescription::EventReceiver { source, .. } => controllable_count(*source) + 1,
        SourceDescription::Envelope { source, .. } => controllable_count(*source),
        SourceDescription::Fader { source, .. } => controllable_count(*source),
        SourceDescription::Mixer { source_0, source_1, .. } => controllable_count(*source_0)
            + controllable_count(*source_1),
        SourceDescription::Combiner { sources, .. } => seq_controllable_count(sources@),
        SourceDescription::FontRanges { ranges, .. } => ranges_controllable_count(ranges@),
        _ => 0,
    }
}

pub open spec fn seq_controllable_count(s: Seq<SourceDescription>) -> nat
    decreases s,
{
    if s.len() == 0 {
        0
    } else {
        seq_controllable_count(s.drop_last()) + controllable_count(s.last())
    }
}

pub open spec fn ranges_controllable_count(s: Seq<FontRange>) -> nat
    decreases s,
{
    if s.len() == 0 {
        0
    } else {
        ranges_controllable_count(s.drop_last()) + controllable_count(s.last().source)
    }
}

pub open spec fn channels_controllable_count(s: Seq<ChannelSource>) -> nat
    decreases s,
{
    if s.len() == 0 {
        0
    } else {
        channels_controllable_count(s.drop_last()) + controllable_count(s.last().source)
    }
}

/// A compile allocates exactly one control channel per event receiver and
/// per MIDI sequence in the tree.
pub proof fn lemma_channel_count(d: SourceDescription)
    ensures
        control_points(d).len() == controllable_count(d),
    decreases d,
{
    match d {
        SourceDescription::Midi { channels, .. } => lemma_channel_count_channels(channels@),
        SourceDescription::EventReceiver { source, .. } => lemma_channel_count(*source),
        SourceDescription::Envelope { source, .. } => lemma_channel_count(*source),
        SourceDescription::Fader { source, .. } => lemma_channel_count(*source),
        SourceDescription::Mixer { source_0, source_1, .. } => {
            lemma_channel_count(*source_0);
            lemma_channel_count(*source_1);
        },
        SourceDescription::Combiner { sources, .. } => lemma_channel_count_seq(sources@),
        SourceDescription::FontRanges { ranges, .. } => lemma_channel_count_ranges(ranges@),
        _ => {},
    }
}

proof fn lemma_channel_count_seq(s: Seq<SourceDescription>)
    ensures
        seq_control_points(s).len() == seq_controllable_count(s),
    decreases s,
{
    if s.len() > 0 {
        lemma_channel_count_seq(s.drop_last());
        lemma_channel_count(s.last());
    }
}

proof fn lemma_channel_count_ranges(s: Seq<FontRange>)
    ensures
        range_control_points(s).len() == ranges_controllable_count(s),
    decreases s,
{
    if s.len() > 0 {
        lemma_channel_count_ranges(s.drop_last());
        lemma_channel_count(s.last().source);
    }
}

proof fn lemma_channel_count_channels(s: Seq<ChannelSource>)
    ensures
        channel_control_points(s).len() == channels_controllable_count(s),
    decreases s,
{
    if s.len() > 0 {
        lemma_channel_count_channels(s.drop_last());
        lemma_channel_count(s.last().source);
    }
}

/// Whether the node is an oscillator or noise leaf, built from constants alone.
pub open spec fn is_generator(d: SourceDescription) -> bool {
    ||| d is SquareWave
    ||| d is TriangleWave
    ||| d is SawtoothWave
    ||| d is LfsrNoise
}

/// In a combiner of an event receiver, a generator and another event
/// receiver, the first receiver's channel comes before the second's and the
/// generator adds none.
pub proof fn lemma_combiner_channel_order(
    d: SourceDescription,
    a: SourceDescription,
    b: SourceDescription,
    c: SourceDescription,
)
    requires
        d is Combiner,
        d->Combiner_sources@ == seq![a, b, c],
        a is EventReceiver,
        is_generator(b),
        c is EventReceiver,
    ensures
        control_points(d) == control_points(*a->EventReceiver_source).push(
            ControlPoint {
                node_id: a->EventReceiver_node_id,
                deferred: has_boundaries(*a->EventReceiver_source),
            },
        ) + control_points(*c->EventReceiver_source).push(
            ControlPoint {
                node_id: c->EventReceiver_node_id,
                deferred: has_boundaries(*c->EventReceiver_source),
            },
        ),
{
    let s = seq![a, b, c];
    let s2 = s.drop_last();
    let s1 = s2.drop_last();
    let s0 = s1.drop_last();
    assert(s0 =~= Seq::<SourceDescription>::empty());
    assert(s1.last() == a);
    assert(s2.last() == b);
    assert(s.last() == c);
    assert(control_points(b) =~= Seq::<ControlPoint>::empty());
    assert(seq_control_points(s0) =~= Seq::<ControlPoint>::empty());
    assert(seq_control_points(s1) == seq_control_points(s0) + control_points(a));
    assert(seq_control_points(s1) =~= control_points(a));
    assert(seq_control_points(s2) =~= control_points(a));
    assert(seq_control_points(s) =~= control_points(a) + control_points(c));
}

} // verus!
