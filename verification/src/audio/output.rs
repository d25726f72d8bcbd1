//! Choice of an output configuration.

use vstd::prelude::*;

verus! {

/// Sample formats of devices, as far as streams can be built for them.
#[derive(Clone, Copy, Debug, PartialEq, Eq, Structural)]
pub enum SampleFormat {
    Float,
    Signed16,
    Unsigned16,
    Other,
}

/// A range of configurations that a device offers.
#[derive(Clone, Copy, Debug, PartialEq, Eq, Structural)]
pub struct OutputRange {
    pub format: SampleFormat,
    pub channels: u16,
    pub min_rate: u32,
    pub max_rate: u32,
}

/// One configuration.
#[derive(Clone, Copy, Debug, PartialEq, Eq, Structural)]
pub struct OutputConfig {
    pub format: SampleFormat,
    pub channels: u16,
    pub rate: u32,
}

/// Rate that is taken where it is offered.
pub const PREFERRED_RATE: u32 = 48_000;

/// Float samples, and at least two channels.
pub open spec fn float_stereo(r: OutputRange) -> bool {
    r.format == SampleFormat::Float && r.channels >= 2
}

pub open spec fn float(r: OutputRange) -> bool {
    r.format == SampleFormat::Float
}

/// `i` is the first range that is `good`.
pub open spec fn is_first(options: Seq<OutputRange>, good: spec_fn(OutputRange) -> bool, i: int) -> bool {
    &&& 0 <= i < options.len()
    &&& good(options[i])
    &&& forall|k: int| 0 <= k < i ==> !good(#[trigger] options[k])
}

/// No range is `good`.
pub open spec fn is_nowhere(options: Seq<OutputRange>, good: spec_fn(OutputRange) -> bool) -> bool {
    forall|k: int| 0 <= k < options.len() ==> !good(#[trigger] options[k])
}

/// The rate taken from a range: the preferred one if it is in it, else the
/// highest.
pub open spec fn rate_in(r: OutputRange) -> u32 {
    if r.min_rate <= PREFERRED_RATE <= r.max_rate {
        PREFERRED_RATE
    } else {
        r.max_rate
    }
}

/// The configuration taken from a range.
pub open spec fn config_in(r: OutputRange) -> OutputConfig {
    OutputConfig { format: r.format, channels: r.channels, rate: rate_in(r) }
}

fn first_float(options: &Vec<OutputRange>, least: u16) -> (r: Option<usize>)
    ensures
        match r {
            Some(i) => is_first(
                options@,
                |o: OutputRange| o.format == SampleFormat::Float && o.channels >= least,
                i as int,
            ),
            None => is_nowhere(
                options@,
                |o: OutputRange| o.format == SampleFormat::Float && o.channels >= least,
            ),
        },
{
    let mut i: usize = 0;
    while i < options.len()
        invariant
            i <= options.len(),
            forall|k: int|
                0 <= k < i ==> !((#[trigger] options@[k]).format == SampleFormat::Float
                    && options@[k].channels >= least),
        decreases options.len() - i,
    {
        if options[i].format == SampleFormat::Float && options[i].channels >= least {
            return Some(i);
        }
        i += 1;
    }
    None
}

/// Pick among the offered ranges: float samples with at least two channels
/// if there are any, else float samples, else the device's own choice.
pub fn pick_output(options: &Vec<OutputRange>) -> (r: Option<OutputConfig>)
    ensures
        ({
            let stereo = |o: OutputRange| float_stereo(o);
            let any = |o: OutputRange| float(o);
            match r {
                Some(c) => exists|i: int|
                    0 <= i < options@.len() && c == config_in(#[trigger] options@[i]) && if exists|
                        k: int,
                    | 0 <= k < options@.len() && float_stereo(#[trigger] options@[k]) {
                        is_first(options@, stereo, i)
                    } else {
                        is_first(options@, any, i)
                    },
                None => is_nowhere(options@, any),
            }
        }),
{
    let ghost stereo = |o: OutputRange| float_stereo(o);
    let ghost any = |o: OutputRange| float(o);
    let first = match first_float(options, 2) {
        Some(i) => {
            assert(is_first(options@, stereo, i as int));
            assert(float_stereo(options@[i as int]));
            Some(i)
        },
        None => {
            proof {
                let good = |o: OutputRange| o.format == SampleFormat::Float && o.channels >= 2u16;
                assert forall|k: int| 0 <= k < options@.len() implies !float_stereo(
                    #[trigger] options@[k],
                ) by {
                    assert(!good(options@[k]));
                }
            }
            let r = first_float(options, 0);
            proof {
                let good = |o: OutputRange| o.format == SampleFormat::Float && o.channels >= 0u16;
                assert forall|k: int| 0 <= k < options@.len() implies good(
                    #[trigger] options@[k],
                ) == float(options@[k]) by {}
                match r {
                    Some(i) => {
                        assert(is_first(options@, good, i as int));
                        assert(is_first(options@, any, i as int));
                    },
                    None => {
                        assert(is_nowhere(options@, good));
                        assert(is_nowhere(options@, any)) by {
                            assert forall|k: int| 0 <= k < options@.len() implies !any(
                                #[trigger] options@[k],
                            ) by {
                                assert(!good(options@[k]));
                            }
                        }
                    },
                }
            }
            r
        },
    };
    match first {
        Some(i) => {
            let o = options[i];
            let rate: u32 = if o.min_rate <= PREFERRED_RATE && PREFERRED_RATE <= o.max_rate {
                PREFERRED_RATE
            } else {
                o.max_rate
            };
            let c = OutputConfig { format: o.format, channels: o.channels, rate };
            assert(c == config_in(options@[i as int]));
            Some(c)
        },
        None => None,
    }
}

/// Why no stream can be built.
#[derive(Clone, Copy, Debug, PartialEq, Eq, Structural)]
pub enum OutputError {
    UnsupportedFormat,
}

/// The stream for a configuration: its format must be one that samples can
/// be written in, and it has at least one channel.
pub fn stream_config(picked: OutputConfig) -> (r: Result<OutputConfig, OutputError>)
    ensures
        picked.format == SampleFormat::Other ==> r == Err::<OutputConfig, OutputError>(
            OutputError::UnsupportedFormat,
        ),
        picked.format != SampleFormat::Other ==> r == Ok::<OutputConfig, OutputError>(
            OutputConfig {
                channels: if picked.channels < 1 {
                    1
                } else {
                    picked.channels
                },
                ..picked
            },
        ),
{
    if picked.format == SampleFormat::Other {
        return Err(OutputError::UnsupportedFormat);
    }
    let channels: u16 = if picked.channels < 1 {
        1
    } else {
        picked.channels
    };
    Ok(OutputConfig { channels, ..picked })
}

/// A picked configuration keeps the format and the channels of its range,
/// and runs at 48 kHz where the range has that, else at its highest rate.
pub proof fn law_ranges_run_at_48_khz_or_their_best(r: OutputRange)
    ensures
        config_in(r).format == r.format,
        config_in(r).channels == r.channels,
        r.min_rate <= 48_000 && 48_000 <= r.max_rate ==> config_in(r).rate == 48_000,
        r.max_rate < 48_000 || 48_000 < r.min_rate ==> config_in(r).rate == r.max_rate,
{
}

/// Floats in two channels or more are preferred, then floats in any; no
/// other format is picked.
pub proof fn law_floats_are_preferred(r: OutputRange)
    ensures
        float(r) <==> r.format is Float,
        float_stereo(r) <==> r.format is Float && r.channels >= 2,
        float_stereo(r) ==> float(r),
{
}

/// The first good range is good, no earlier one is, and there is at most
/// one such; where none is good, no range of the list is.
pub proof fn law_the_first_range_is_taken(
    options: Seq<OutputRange>,
    good: spec_fn(OutputRange) -> bool,
    i: int,
    k: int,
)
    requires
        0 <= i < options.len(),
        0 <= k < options.len(),
        good(options[k]),
    ensures
        is_first(options, good, i) ==> good(options[i]) && i <= k,
        i == 0 && good(options[i]) ==> is_first(options, good, i),
        !is_nowhere(options, good),
{
    assert(is_first(options, good, i) && k < i ==> !good(options[k]));
}

} // verus!
