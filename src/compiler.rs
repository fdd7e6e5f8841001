use vstd::prelude::*;
use crate::control::{is_fresh, ControlChannel};
use crate::description::{
    control_points, file_paths, has_boundaries, range_control_points, range_file_paths,
    seq_control_points, seq_file_paths, channel_control_points, channel_file_paths, valid_range,
    well_formed, ChannelSource, ControlPoint, FileKind, FontRange, SourceDescription,
    MAX_NOTE, MIDI_CHANNELS, UNIT_BITS,
};

verus! {

broadcast use vstd::std_specs::vec::group_vec_axioms;

/// Why a compile produced nothing.
pub enum CompileError {
    /// The byte provider had no bytes for this file.
    Unresolved { path: String },
    /// A constant of this node is outside its domain.
    InvalidParameter { node_id: u64 },
}

/// What a successful compile yields: the bytes of every file-backed leaf in
/// the order the walk meets them, and a fresh control channel for every
/// event receiver and MIDI sequence, in depth-first, left-to-right order.
pub struct CompiledGraph {
    pub buffers: Vec<Vec<u8>>,
    pub channels: Vec<ControlChannel>,
}

/// The byte provider's answer for the `k`th file request is usable bytes.
pub open spec fn resolved_at(res: Seq<Option<Vec<u8>>>, k: int) -> bool {
    0 <= k < res.len() && res[k] is Some
}

/// The bytes of an answer, empty where there are none.
pub open spec fn bytes_of(o: Option<Vec<u8>>) -> Seq<u8> {
    match o {
        Some(b) => b@,
        None => seq![],
    }
}

/// The answers from `k` on, `n` of them, are all usable bytes.
pub open spec fn resolved_run(res: Seq<Option<Vec<u8>>>, k: int, n: int) -> bool {
    forall|j: int| k <= j < k + n ==> #[trigger] resolved_at(res, j)
}

/// Every file request of the description has bytes.
pub open spec fn all_resolved(d: SourceDescription, res: Seq<Option<Vec<u8>>>) -> bool {
    resolved_run(res, 0, file_paths(d).len() as int)
}

/// A compile of `d` against these answers succeeds.
pub open spec fn compiles(d: SourceDescription, res: Seq<Option<Vec<u8>>>) -> bool {
    well_formed(d) && all_resolved(d, res)
}

/// The nodes that the channels steer, in order.
pub open spec fn points_of(c: Seq<ControlChannel>) -> Seq<ControlPoint> {
    c.map_values(|x: ControlChannel| x@.point)
}

/// The bytes of the first `n` answers.
pub open spec fn answers(res: Seq<Option<Vec<u8>>>, n: int) -> Seq<Seq<u8>> {
    res.take(n).map_values(|o: Option<Vec<u8>>| bytes_of(o))
}

/// The contents of the buffers.
pub open spec fn contents(b: Seq<Vec<u8>>) -> Seq<Seq<u8>> {
    b.map_values(|v: Vec<u8>| v@)
}

/// Every channel is as a compile leaves it.
pub open spec fn all_fresh(c: Seq<ControlChannel>) -> bool {
    forall|i: int| 0 <= i < c.len() ==> is_fresh((#[trigger] c[i])@, c[i]@.point)
}

/// What holds of a partly built output: the buffers are the answers so
/// far, each of them usable bytes, and every channel is fresh.
pub open spec fn output_ok(out: CompiledGraph, res: Seq<Option<Vec<u8>>>) -> bool {
    &&& out.buffers.len() <= res.len()
    &&& forall|j: int| 0 <= j < out.buffers.len() ==> #[trigger] resolved_at(res, j)
    &&& contents(out.buffers@) == answers(res, out.buffers.len() as int)
    &&& all_fresh(out.channels@)
}

proof fn lemma_seq_paths_prefix(s: Seq<SourceDescription>, m: int)
    requires
        0 <= m <= s.len(),
    ensures
        seq_file_paths(s.take(m)).len() <= seq_file_paths(s).len(),
        forall|j: int|
            0 <= j < seq_file_paths(s.take(m)).len() ==> seq_file_paths(s.take(m))[j]
                == seq_file_paths(s)[j],
    decreases s.len(),
{
    if m < s.len() {
        lemma_seq_paths_prefix(s.drop_last(), m);
        assert(s.drop_last().take(m) =~= s.take(m));
    } else {
        assert(s.take(m) =~= s);
    }
}

proof fn lemma_range_paths_prefix(s: Seq<FontRange>, m: int)
    requires
        0 <= m <= s.len(),
    ensures
        range_file_paths(s.take(m)).len() <= range_file_paths(s).len(),
        forall|j: int|
            0 <= j < range_file_paths(s.take(m)).len() ==> range_file_paths(s.take(m))[j]
                == range_file_paths(s)[j],
    decreases s.len(),
{
    if m < s.len() {
        lemma_range_paths_prefix(s.drop_last(), m);
        assert(s.drop_last().take(m) =~= s.take(m));
    } else {
        assert(s.take(m) =~= s);
    }
}

proof fn lemma_channel_paths_prefix(s: Seq<ChannelSource>, m: int)
    requires
        0 <= m <= s.len(),
    ensures
        channel_file_paths(s.take(m)).len() <= channel_file_paths(s).len(),
        forall|j: int|
            0 <= j < channel_file_paths(s.take(m)).len() ==> channel_file_paths(s.take(m))[j]
                == channel_file_paths(s)[j],
    decreases s.len(),
{
    if m < s.len() {
        lemma_channel_paths_prefix(s.drop_last(), m);
        assert(s.drop_last().take(m) =~= s.take(m));
    } else {
        assert(s.take(m) =~= s);
    }
}

/// Whether seeks addressed to this node wait for a boundary.
pub fn defers_seeks(d: &SourceDescription) -> (r: bool)
    ensures
        r == has_boundaries(*d),
    decreases d,
{
    match d {
        SourceDescription::Midi { .. } => true,
        SourceDescription::EventReceiver { source, .. } => defers_seeks(source),
        SourceDescription::Envelope { source, .. } => defers_seeks(source),
        SourceDescription::Fader { source, .. } => defers_seeks(source),
        _ => false,
    }
}

fn take_bytes(path: &String, res: &Vec<Option<Vec<u8>>>, out: &mut CompiledGraph) -> (r: Result<
    (),
    CompileError,
>)
    requires
        output_ok(*old(out), res@),
    ensures
        r is Ok <==> resolved_at(res@, old(out).buffers.len() as int),
        r is Ok ==> output_ok(*final(out), res@) && final(out).buffers.len() == old(
            out,
        ).buffers.len() + 1 && final(out).channels == old(out).channels,
        r is Err ==> (r matches Err(CompileError::Unresolved { path: p }) && p@ == path@),
{
    let k = out.buffers.len();
    let ghost before = *out;
    if k < res.len() {
        match &res[k] {
            Some(b) => {
                let copy = b.clone();
                assert(copy@ =~= b@);
                out.buffers.push(copy);
                proof {
                    assert(res@[k as int] == Some(*b));
                    assert forall|j: int| 0 <= j < out.buffers.len() implies contents(out.buffers@)[j]
                        == answers(res@, out.buffers.len() as int)[j] by {
                        if j < k {
                            assert(out.buffers@[j] == before.buffers@[j]);
                            assert(contents(before.buffers@)[j] == answers(res@, k as int)[j]);
                        }
                    }
                    assert(contents(out.buffers@) =~= answers(res@, out.buffers.len() as int));
                    assert forall|j: int| 0 <= j < out.buffers.len() implies #[trigger] resolved_at(
                        res@,
                        j,
                    ) by {
                        if j < k {
                            assert(resolved_at(res@, j));
                        }
                    }
                }
                Ok(())
            },
            None => Err(CompileError::Unresolved { path: path.clone() }),
        }
    } else {
        Err(CompileError::Unresolved { path: path.clone() })
    }
}

fn compile_sources(
    s: &Vec<SourceDescription>,
    res: &Vec<Option<Vec<u8>>>,
    out: &mut CompiledGraph,
) -> (r: Result<(), CompileError>)
    requires
        output_ok(*old(out), res@),
    ensures
        r is Ok <==> (forall|i: int| 0 <= i < s.len() ==> well_formed(#[trigger] s@[i])) && resolved_run(
            res@,
            old(out).buffers.len() as int,
            seq_file_paths(s@).len() as int,
        ),
        r is Ok ==> output_ok(*final(out), res@) && final(out).buffers.len() == old(out).buffers.len()
            + seq_file_paths(s@).len() && points_of(final(out).channels@) == points_of(
            old(out).channels@,
        ) + seq_control_points(s@),
        r matches Err(CompileError::Unresolved { path }) ==> exists|j: int|
            0 <= j < seq_file_paths(s@).len() && #[trigger] seq_file_paths(s@)[j].1 == path@ && !resolved_at(
                res@,
                old(out).buffers.len() + j,
            ),
        r matches Err(CompileError::InvalidParameter { .. }) ==> exists|i: int|
            0 <= i < s.len() && !well_formed(#[trigger] s@[i]),
    decreases s,
{
    let ghost k = out.buffers.len() as int;
    let ghost start_points = points_of(out.channels@);
    let mut i: usize = 0;
    while i < s.len()
        invariant
            0 <= i <= s.len(),
            k == old(out).buffers.len(),
            start_points == points_of(old(out).channels@),
            output_ok(*out, res@),
            out.buffers.len() == k + seq_file_paths(s@.take(i as int)).len(),
            points_of(out.channels@) == start_points + seq_control_points(s@.take(i as int)),
            forall|j: int| 0 <= j < i ==> well_formed(#[trigger] s@[j]),
        decreases s.len() - i,
    {
        proof {
            assert(s@.take(i + 1).drop_last() =~= s@.take(i as int));
            lemma_seq_paths_prefix(s@, i + 1);
        }
        let ghost mid = *out;
        match compile_into(&s[i], res, out) {
            Ok(()) => {},
            Err(e) => {
                proof {
                    if let CompileError::Unresolved { path } = &e {
                        let jj = choose|jj: int|
                            0 <= jj < file_paths(s@[i as int]).len() && file_paths(s@[i as int])[jj].1
                                == path@ && !resolved_at(res@, mid.buffers.len() + jj);
                        let big = seq_file_paths(s@.take(i as int)).len() + jj;
                        assert(s@.take(i + 1).last() == s@[i as int]);
                        assert(seq_file_paths(s@.take(i + 1)) == seq_file_paths(s@.take(i as int))
                            + file_paths(s@[i as int]));
                        assert(seq_file_paths(s@.take(i + 1))[big] == file_paths(s@[i as int])[jj]);
                        assert(seq_file_paths(s@)[big].1 == path@);
                        assert(!resolved_at(res@, k + big));
                    }
                }
                return Err(e);
            },
        }
        proof {
            assert(start_points + seq_control_points(s@.take(i + 1)) =~= start_points + seq_control_points(
                s@.take(i as int),
            ) + control_points(s@[i as int]));
        }
        i += 1;
    }
    proof {
        assert(s@.take(s.len() as int) =~= s@);
    }
    Ok(())
}

fn compile_ranges(
    node_id: u64,
    s: &Vec<FontRange>,
    res: &Vec<Option<Vec<u8>>>,
    out: &mut CompiledGraph,
) -> (r: Result<(), CompileError>)
    requires
        output_ok(*old(out), res@),
    ensures
        r is Ok <==> (forall|i: int| 0 <= i < s.len() ==> (valid_range((#[trigger] s@[i]).lower, s@[i].upper) && well_formed(s@[i].source))) && resolved_run(
            res@,
            old(out).buffers.len() as int,
            range_file_paths(s@).len() as int,
        ),
        r is Ok ==> output_ok(*final(out), res@) && final(out).buffers.len() == old(out).buffers.len()
            + range_file_paths(s@).len() && points_of(final(out).channels@) == points_of(
            old(out).channels@,
        ) + range_control_points(s@),
        r matches Err(CompileError::Unresolved { path }) ==> exists|j: int|
            0 <= j < range_file_paths(s@).len() && #[trigger] range_file_paths(s@)[j].1 == path@ && !resolved_at(
                res@,
                old(out).buffers.len() + j,
            ),
        r matches Err(CompileError::InvalidParameter { .. }) ==> exists|i: int|
            0 <= i < s.len() && !(valid_range((#[trigger] s@[i]).lower, s@[i].upper) && well_formed(s@[i].source)),
    decreases s,
{
    let ghost k = out.buffers.len() as int;
    let ghost start_points = points_of(out.channels@);
    let mut i: usize = 0;
    while i < s.len()
        invariant
            0 <= i <= s.len(),
            k == old(out).buffers.len(),
            start_points == points_of(old(out).channels@),
            output_ok(*out, res@),
            out.buffers.len() == k + range_file_paths(s@.take(i as int)).len(),
            points_of(out.channels@) == start_points + range_control_points(s@.take(i as int)),
            forall|j: int| 0 <= j < i ==> valid_range((#[trigger] s@[j]).lower, s@[j].upper) && well_formed(s@[j].source),
        decreases s.len() - i,
    {
        proof {
            assert(s@.take(i + 1).drop_last() =~= s@.take(i as int));
            lemma_range_paths_prefix(s@, i + 1);
        }
        let ghost mid = *out;
        match compile_into(&s[i].source, res, out) {
            Ok(()) => {},
            Err(e) => {
                proof {
                    if let CompileError::Unresolved { path } = &e {
                        let jj = choose|jj: int|
                            0 <= jj < file_paths(s@[i as int].source).len() && file_paths(s@[i as int].source)[jj].1
                                == path@ && !resolved_at(res@, mid.buffers.len() + jj);
                        let big = range_file_paths(s@.take(i as int)).len() + jj;
                        assert(range_file_paths(s@.take(i + 1))[big] == file_paths(s@[i as int].source)[jj]);
                        assert(range_file_paths(s@)[big].1 == path@);
                        assert(!resolved_at(res@, k + big));
                    }
                }
                return Err(e);
            },
        }
        if !(s[i].lower <= s[i].upper && s[i].upper <= MAX_NOTE) {
            return Err(CompileError::InvalidParameter { node_id });
        }
        proof {
            assert(start_points + range_control_points(s@.take(i + 1)) =~= start_points + range_control_points(
                s@.take(i as int),
            ) + control_points(s@[i as int].source));
        }
        i += 1;
    }
    proof {
        assert(s@.take(s.len() as int) =~= s@);
    }
    Ok(())
}

fn compile_channels(
    node_id: u64,
    s: &Vec<ChannelSource>,
    res: &Vec<Option<Vec<u8>>>,
    out: &mut CompiledGraph,
) -> (r: Result<(), CompileError>)
    requires
        output_ok(*old(out), res@),
    ensures
        r is Ok <==> (forall|i: int| 0 <= i < s.len() ==> ((#[trigger] s@[i]).channel < MIDI_CHANNELS && well_formed(s@[i].source))) && resolved_run(
            res@,
            old(out).buffers.len() as int,
            channel_file_paths(s@).len() as int,
        ),
        r is Ok ==> output_ok(*final(out), res@) && final(out).buffers.len() == old(out).buffers.len()
            + channel_file_paths(s@).len() && points_of(final(out).channels@) == points_of(
            old(out).channels@,
        ) + channel_control_points(s@),
        r matches Err(CompileError::Unresolved { path }) ==> exists|j: int|
            0 <= j < channel_file_paths(s@).len() && #[trigger] channel_file_paths(s@)[j].1 == path@ && !resolved_at(
                res@,
                old(out).buffers.len() + j,
            ),
        r matches Err(CompileError::InvalidParameter { .. }) ==> exists|i: int|
            0 <= i < s.len() && !((#[trigger] s@[i]).channel < MIDI_CHANNELS && well_formed(s@[i].source)),
    decreases s,
{
    let ghost k = out.buffers.len() as int;
    let ghost start_points = points_of(out.channels@);
    let mut i: usize = 0;
    while i < s.len()
        invariant
            0 <= i <= s.len(),
            k == old(out).buffers.len(),
            start_points == points_of(old(out).channels@),
            output_ok(*out, res@),
            out.buffers.len() == k + channel_file_paths(s@.take(i as int)).len(),
            points_of(out.channels@) == start_points + channel_control_points(s@.take(i as int)),
            forall|j: int| 0 <= j < i ==> (#[trigger] s@[j]).channel < MIDI_CHANNELS && well_formed(s@[j].source),
        decreases s.len() - i,
    {
        proof {
            assert(s@.take(i + 1).drop_last() =~= s@.take(i as int));
            lemma_channel_paths_prefix(s@, i + 1);
        }
        let ghost mid = *out;
        match compile_into(&s[i].source, res, out) {
            Ok(()) => {},
            Err(e) => {
                proof {
                    if let CompileError::Unresolved { path } = &e {
                        let jj = choose|jj: int|
                            0 <= jj < file_paths(s@[i as int].source).len() && file_paths(s@[i as int].source)[jj].1
                                == path@ && !resolved_at(res@, mid.buffers.len() + jj);
                        let big = channel_file_paths(s@.take(i as int)).len() + jj;
                        assert(channel_file_paths(s@.take(i + 1))[big] == file_paths(s@[i as int].source)[jj]);
                        assert(channel_file_paths(s@)[big].1 == path@);
                        assert(!resolved_at(res@, k + big));
                    }
                }
                return Err(e);
            },
        }
        if s[i].channel >= MIDI_CHANNELS {
            return Err(CompileError::InvalidParameter { node_id });
        }
        proof {
            assert(start_points + channel_control_points(s@.take(i + 1)) =~= start_points + channel_control_points(
                s@.take(i as int),
            ) + control_points(s@[i as int].source));
        }
        i += 1;
    }
    proof {
        assert(s@.take(s.len() as int) =~= s@);
    }
    Ok(())
}

fn add_channel(out: &mut CompiledGraph, point: ControlPoint)
    requires
        all_fresh(old(out).channels@),
    ensures
        all_fresh(final(out).channels@),
        final(out).buffers == old(out).buffers,
        points_of(final(out).channels@) == points_of(old(out).channels@).push(point),
{
    let ghost before = out.channels@;
    out.channels.push(ControlChannel::new(point));
    proof {
        assert(points_of(out.channels@) =~= points_of(before).push(point));
        assert forall|i: int| 0 <= i < out.channels.len() implies is_fresh(
            (#[trigger] out.channels@[i])@,
            out.channels@[i]@.point,
        ) by {
            if i < before.len() {
                assert(out.channels@[i] == before[i]);
            }
        }
    }
}

/// Compiles `d` onto the end of `out`.
fn compile_into(d: &SourceDescription, res: &Vec<Option<Vec<u8>>>, out: &mut CompiledGraph) -> (r:
    Result<(), CompileError>)
    requires
        output_ok(*old(out), res@),
    ensures
        r is Ok <==> well_formed(*d) && resolved_run(
            res@,
            old(out).buffers.len() as int,
            file_paths(*d).len() as int,
        ),
        r is Ok ==> output_ok(*final(out), res@) && final(out).buffers.len() == old(out).buffers.len()
            + file_paths(*d).len() && points_of(final(out).channels@) == points_of(
            old(out).channels@,
        ) + control_points(*d),
        r matches Err(CompileError::Unresolved { path }) ==> exists|j: int|
            0 <= j < file_paths(*d).len() && #[trigger] file_paths(*d)[j].1 == path@ && !resolved_at(
                res@,
                old(out).buffers.len() + j,
            ),
        r matches Err(CompileError::InvalidParameter { .. }) ==> !well_formed(*d),
    decreases d,
{
    let ghost start_points = points_of(out.channels@);
    let ghost k = out.buffers.len() as int;
    match d {
        SourceDescription::SquareWave { .. }
        | SourceDescription::TriangleWave { .. }
        | SourceDescription::SawtoothWave { .. } => {
            assert(start_points + control_points(*d) =~= start_points);
            Ok(())
        },
        SourceDescription::LfsrNoise { node_id, note_for_16_shifts, .. } => {
            assert(start_points + control_points(*d) =~= start_points);
            if *note_for_16_shifts <= MAX_NOTE {
                Ok(())
            } else {
                Err(CompileError::InvalidParameter { node_id: *node_id })
            }
        },
        SourceDescription::OneShotFile { path, .. }
        | SourceDescription::SoundFontFile { path, .. } => {
            assert(start_points + control_points(*d) =~= start_points);
            let r = take_bytes(path, res, out);
            proof {
                if r is Err {
                    assert(file_paths(*d)[0].1 == path@);
                }
            }
            r
        },
        SourceDescription::SampleFile { node_id, path, base_note, looping } => {
            assert(start_points + control_points(*d) =~= start_points);
            match take_bytes(path, res, out) {
                Ok(()) => {},
                Err(e) => {
                    assert(file_paths(*d)[0].1 == path@);
                    return Err(e);
                },
            }
            let loop_ok = match looping {
                Some(l) => match l.end {
                    Some(e) => l.start < e,
                    None => true,
                },
                None => true,
            };
            if *base_note <= MAX_NOTE && loop_ok {
                Ok(())
            } else {
                Err(CompileError::InvalidParameter { node_id: *node_id })
            }
        },
        SourceDescription::Midi { node_id, path, channels } => {
            match take_bytes(path, res, out) {
                Ok(()) => {},
                Err(e) => {
                    assert(file_paths(*d)[0].1 == path@);
                    return Err(e);
                },
            }
            match compile_channels(*node_id, channels, res, out) {
                Ok(()) => {},
                Err(e) => {
                    proof {
                        if let CompileError::Unresolved { path: p } = &e {
                            let jj = choose|jj: int|
                                0 <= jj < channel_file_paths(channels@).len()
                                    && #[trigger] channel_file_paths(channels@)[jj].1 == p@
                                    && !resolved_at(res@, k + 1 + jj);
                            assert(file_paths(*d)[1 + jj].1 == p@);
                        }
                    }
                    return Err(e);
                },
            }
            add_channel(out, ControlPoint { node_id: *node_id, deferred: true });
            proof {
                assert(start_points + control_points(*d) =~= start_points + channel_control_points(channels@)
                    + seq![ControlPoint { node_id: *node_id, deferred: true }]);
            }
            Ok(())
        },
        SourceDescription::EventReceiver { node_id, source } => {
            match compile_into(source, res, out) {
                Ok(()) => {},
                Err(e) => {
                    proof {
                        if let CompileError::Unresolved { path: p } = &e {
                            let jj = choose|jj: int|
                                0 <= jj < file_paths(**source).len()
                                    && #[trigger] file_paths(**source)[jj].1 == p@
                                    && !resolved_at(res@, k + jj);
                            assert(file_paths(*d)[jj].1 == p@);
                        }
                    }
                    return Err(e);
                },
            }
            let deferred = defers_seeks(source);
            add_channel(out, ControlPoint { node_id: *node_id, deferred });
            proof {
                assert(start_points + control_points(*d) =~= start_points + control_points(**source)
                    + seq![ControlPoint { node_id: *node_id, deferred }]);
            }
            Ok(())
        },
        SourceDescription::Envelope { source, .. } | SourceDescription::Fader { source, .. } => {
            compile_into(source, res, out)
        },
        SourceDescription::Mixer { node_id, balance_bits, source_0, source_1 } => {
            match compile_into(source_0, res, out) {
                Ok(()) => {},
                Err(e) => {
                    proof {
                        if let CompileError::Unresolved { path: p } = &e {
                            let jj = choose|jj: int|
                                0 <= jj < file_paths(**source_0).len()
                                    && #[trigger] file_paths(**source_0)[jj].1 == p@
                                    && !resolved_at(res@, k + jj);
                            assert(file_paths(*d)[jj].1 == p@);
                        }
                    }
                    return Err(e);
                },
            }
            match compile_into(source_1, res, out) {
                Ok(()) => {},
                Err(e) => {
                    proof {
                        if let CompileError::Unresolved { path: p } = &e {
                            let n0 = file_paths(**source_0).len();
                            let jj = choose|jj: int|
                                0 <= jj < file_paths(**source_1).len()
                                    && #[trigger] file_paths(**source_1)[jj].1 == p@
                                    && !resolved_at(res@, k + n0 + jj);
                            assert(file_paths(*d)[n0 + jj].1 == p@);
                        }
                    }
                    return Err(e);
                },
            }
            if *balance_bits > UNIT_BITS {
                return Err(CompileError::InvalidParameter { node_id: *node_id });
            }
            proof {
                assert(start_points + control_points(*d) =~= start_points + control_points(**source_0)
                    + control_points(**source_1));
            }
            Ok(())
        },
        SourceDescription::Combiner { sources, .. } => compile_sources(sources, res, out),
        SourceDescription::FontRanges { node_id, ranges } => compile_ranges(*node_id, ranges, res, out),
    }
}

/// Compiles a description, all or nothing. `resolved[k]` is the byte
/// provider's answer to the `k`th path of `requested_paths(d)`: bytes, or
/// `None` where the file is missing or not loaded yet. On success the
/// buffers are those answers in order and there is one fresh channel per
/// event receiver and MIDI sequence, children's channels first.
pub fn compile(d: &SourceDescription, resolved: &Vec<Option<Vec<u8>>>) -> (r: Result<
    CompiledGraph,
    CompileError,
>)
    ensures
        r is Ok <==> compiles(*d, resolved@),
        r matches Ok(g) ==> contents(g.buffers@) == answers(resolved@, file_paths(*d).len() as int)
            && points_of(g.channels@) == control_points(*d) && all_fresh(g.channels@),
        r matches Err(CompileError::Unresolved { path }) ==> exists|j: int|
            0 <= j < file_paths(*d).len() && #[trigger] file_paths(*d)[j].1 == path@ && !resolved_at(
                resolved@,
                j,
            ),
        r matches Err(CompileError::InvalidParameter { .. }) ==> !well_formed(*d),
{
    let mut out = CompiledGraph { buffers: Vec::new(), channels: Vec::new() };
    proof {
        assert(contents(out.buffers@) =~= answers(resolved@, 0));
        assert(points_of(out.channels@) =~= Seq::<ControlPoint>::empty());
    }
    match compile_into(d, resolved, &mut out) {
        Ok(()) => {
            proof {
                assert(points_of(out.channels@) =~= control_points(*d));
            }
            Ok(out)
        },
        Err(e) => Err(e),
    }
}

/// A request to the byte provider: which file, and what it holds.
pub struct FileRequest {
    pub kind: FileKind,
    pub path: String,
}

/// The requests' contents.
pub open spec fn texts(v: Seq<FileRequest>) -> Seq<(FileKind, Seq<char>)> {
    v.map_values(|x: FileRequest| (x.kind, x.path@))
}

fn push_path(out: &mut Vec<FileRequest>, kind: FileKind, path: &String)
    ensures
        texts(final(out)@) == texts(old(out)@).push((kind, path@)),
{
    let ghost before = out@;
    out.push(FileRequest { kind, path: path.clone() });
    assert(texts(out@) =~= texts(before).push((kind, path@)));
}

fn collect_paths_seq(s: &Vec<SourceDescription>, out: &mut Vec<FileRequest>)
    ensures
        texts(final(out)@) == texts(old(out)@) + seq_file_paths(s@),
    decreases s,
{
    let ghost t0 = texts(out@);
    let mut i: usize = 0;
    while i < s.len()
        invariant
            0 <= i <= s.len(),
            t0 == texts(old(out)@),
            texts(out@) == t0 + seq_file_paths(s@.take(i as int)),
        decreases s.len() - i,
    {
        proof {
            assert(s@.take(i + 1).drop_last() =~= s@.take(i as int));
        }
        collect_paths(&s[i], out);
        proof {
            assert(t0 + seq_file_paths(s@.take(i + 1)) =~= t0 + seq_file_paths(s@.take(i as int))
                + file_paths(s@[i as int]));
        }
        i += 1;
    }
    assert(s@.take(s.len() as int) =~= s@);
}

fn collect_paths_ranges(s: &Vec<FontRange>, out: &mut Vec<FileRequest>)
    ensures
        texts(final(out)@) == texts(old(out)@) + range_file_paths(s@),
    decreases s,
{
    let ghost t0 = texts(out@);
    let mut i: usize = 0;
    while i < s.len()
        invariant
            0 <= i <= s.len(),
            t0 == texts(old(out)@),
            texts(out@) == t0 + range_file_paths(s@.take(i as int)),
        decreases s.len() - i,
    {
        proof {
            assert(s@.take(i + 1).drop_last() =~= s@.take(i as int));
        }
        collect_paths(&s[i].source, out);
        proof {
            assert(t0 + range_file_paths(s@.take(i + 1)) =~= t0 + range_file_paths(
                s@.take(i as int),
            ) + file_paths(s@[i as int].source));
        }
        i += 1;
    }
    assert(s@.take(s.len() as int) =~= s@);
}

fn collect_paths_channels(s: &Vec<ChannelSource>, out: &mut Vec<FileRequest>)
    ensures
        texts(final(out)@) == texts(old(out)@) + channel_file_paths(s@),
    decreases s,
{
    let ghost t0 = texts(out@);
    let mut i: usize = 0;
    while i < s.len()
        invariant
            0 <= i <= s.len(),
            t0 == texts(old(out)@),
            texts(out@) == t0 + channel_file_paths(s@.take(i as int)),
        decreases s.len() - i,
    {
        proof {
            assert(s@.take(i + 1).drop_last() =~= s@.take(i as int));
        }
        collect_paths(&s[i].source, out);
        proof {
            assert(t0 + channel_file_paths(s@.take(i + 1)) =~= t0 + channel_file_paths(
                s@.take(i as int),
            ) + file_paths(s@[i as int].source));
        }
        i += 1;
    }
    assert(s@.take(s.len() as int) =~= s@);
}

fn collect_paths(d: &SourceDescription, out: &mut Vec<FileRequest>)
    ensures
        texts(final(out)@) == texts(old(out)@) + file_paths(*d),
    decreases d,
{
    let ghost t0 = texts(out@);
    match d {
        SourceDescription::SampleFile { path, .. } => {
            push_path(out, FileKind::Sample, path);
            assert(t0.push((FileKind::Sample, path@)) =~= t0 + file_paths(*d));
        },
        SourceDescription::OneShotFile { path, .. } => {
            push_path(out, FileKind::OneShot, path);
            assert(t0.push((FileKind::OneShot, path@)) =~= t0 + file_paths(*d));
        },
        SourceDescription::SoundFontFile { path, .. } => {
            push_path(out, FileKind::SoundFont, path);
            assert(t0.push((FileKind::SoundFont, path@)) =~= t0 + file_paths(*d));
        },
        SourceDescription::Midi { path, channels, .. } => {
            push_path(out, FileKind::Sequence, path);
            collect_paths_channels(channels, out);
            assert(t0.push((FileKind::Sequence, path@)) + channel_file_paths(channels@) =~= t0
                + file_paths(*d));
        },
        SourceDescription::EventReceiver { source, .. }
        | SourceDescription::Envelope { source, .. }
        | SourceDescription::Fader { source, .. } => {
            collect_paths(source, out);
        },
        SourceDescription::Mixer { source_0, source_1, .. } => {
            collect_paths(source_0, out);
            collect_paths(source_1, out);
            assert(t0 + file_paths(**source_0) + file_paths(**source_1) =~= t0 + file_paths(*d));
        },
        SourceDescription::Combiner { sources, .. } => {
            collect_paths_seq(sources, out);
        },
        SourceDescription::FontRanges { ranges, .. } => {
            collect_paths_ranges(ranges, out);
        },
        _ => {
            assert(t0 + file_paths(*d) =~= t0);
        },
    }
}

/// The paths the byte provider must answer before a compile, in the order
/// the compiler consumes the answers.
pub fn requested_paths(d: &SourceDescription) -> (r: Vec<FileRequest>)
    ensures
        texts(r@) == file_paths(*d),
{
    let mut out: Vec<FileRequest> = Vec::new();
    collect_paths(d, &mut out);
    assert(texts(Seq::<FileRequest>::empty()) + file_paths(*d) =~= file_paths(*d));
    out
}

/// A description without file-backed leaves requests no bytes, and compiles
/// whenever its constants are in their domain, whatever the byte provider
/// would answer.
pub proof fn lemma_no_files_needs_no_bytes(d: SourceDescription, res: Seq<Option<Vec<u8>>>)
    requires
        file_paths(d).len() == 0,
        well_formed(d),
    ensures
        compiles(d, res),
        answers(res, 0).len() == 0,
{
}

/// One file that the byte provider cannot resolve makes the whole compile
/// fail.
pub proof fn lemma_unresolved_file_fails(d: SourceDescription, res: Seq<Option<Vec<u8>>>, j: int)
    requires
        0 <= j < file_paths(d).len(),
        !resolved_at(res, j),
    ensures
        !compiles(d, res),
{
}

} // verus!
