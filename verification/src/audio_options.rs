//! Audio output options: channel layout, normalization targets, and the
//! sample statistics that the encoder reports for them.
use crate::error::ExportError;
use crate::metadata::strings_view;
use crate::parse::{after_first, find_in, matches_here, parse_in, parse_unsigned, split_lines, line_bounds, strip_prefix, string_of, trim, trim_bounds};
use crate::text::{chars_of, owned};
use vstd::prelude::*;

verus! {

/// Channel layout of exported audio.
#[derive(Clone, Copy, Debug, Eq, PartialEq, Structural)]
pub enum AudioChannels {
    Keep,
    Mono,
    Stereo,
}

impl Default for AudioChannels {
    fn default() -> (r: Self)
        ensures
            r == AudioChannels::Keep,
    {
        AudioChannels::Keep
    }
}

/// Output normalization is independent of listening volume and edit history.
#[derive(Clone, Copy, Debug, Eq, PartialEq, Structural)]
pub enum AudioNormalization {
    Off,
    /// One common gain to -1 dBFS sample peak; encoded peaks are not constrained.
    Peak,
    Loudness(LoudnessTarget),
}

impl Default for AudioNormalization {
    fn default() -> (r: Self)
        ensures
            r == AudioNormalization::Off,
    {
        AudioNormalization::Off
    }
}

impl AudioNormalization {
    /// Any normalization other than `Off`.
    pub fn is_enabled(self) -> (r: bool)
        ensures
            r == !(self is Off),
    {
        !matches!(self, AudioNormalization::Off)
    }
}

/// Tenths avoid floating-point equality in tab/export snapshot comparisons.
#[derive(Clone, Copy, Debug, Eq, PartialEq, Structural)]
pub struct LoudnessTarget {
    pub integrated_tenths: i16,
    pub true_peak_tenths: i16,
}

impl Default for LoudnessTarget {
    fn default() -> (r: Self)
        ensures
            r.integrated_tenths == -140,
            r.true_peak_tenths == -10,
    {
        LoudnessTarget { integrated_tenths: -140, true_peak_tenths: -10 }
    }
}

/// Integrated loudness within -70..=-5 LUFS and true peak within -9..=0 dBTP.
pub open spec fn target_in_range(t: LoudnessTarget) -> bool {
    -700 <= t.integrated_tenths <= -50 && -90 <= t.true_peak_tenths <= 0
}

impl LoudnessTarget {
    /// Accepts targets of -70 to -5 LUFS with a true peak of -9 to 0 dBTP.
    pub fn validate(self) -> (r: Result<(), ExportError>)
        ensures
            r is Ok <==> target_in_range(self),
            r matches Err(e) ==> (e matches ExportError::Failed(m)
                && m@ == "Loudness target must be -70 to -5 LUFS and maximum true peak -9 to 0 dBTP"@),
    {
        if !(-700 <= self.integrated_tenths && self.integrated_tenths <= -50)
            || !(-90 <= self.true_peak_tenths && self.true_peak_tenths <= 0)
        {
            return Err(ExportError::Failed(owned(
                "Loudness target must be -70 to -5 LUFS and maximum true peak -9 to 0 dBTP",
            )));
        }
        Ok(())
    }
}

/// Audio choices of an export.
#[derive(Clone, Copy, Debug, Eq, PartialEq, Structural)]
pub struct AudioExportOptions {
    pub normalization: AudioNormalization,
    pub channels: AudioChannels,
}

impl Default for AudioExportOptions {
    fn default() -> (r: Self)
        ensures
            r == default_audio(),
    {
        AudioExportOptions { normalization: AudioNormalization::Off, channels: AudioChannels::Keep }
    }
}

/// No normalization and the source channel layout.
pub open spec fn default_audio() -> AudioExportOptions {
    AudioExportOptions { normalization: AudioNormalization::Off, channels: AudioChannels::Keep }
}

/// Filters that realize the options on a source with `channels` channels,
/// or `None` where the options cannot be realized.
pub open spec fn audio_option_filters(o: AudioExportOptions, channels: Option<u16>) -> Option<Seq<Seq<char>>> {
    if o.normalization matches AudioNormalization::Loudness(t) && !target_in_range(t) {
        None
    } else if o == default_audio() {
        Some(Seq::empty())
    } else {
        match channels {
            Some(n) if n > 0 => {
                let base = seq!["aformat=sample_fmts=dbl"@];
                match o.channels {
                    AudioChannels::Keep => Some(base),
                    AudioChannels::Mono => if n == 1 { Some(base) } else if n == 2 { Some(base.push("pan=mono|c0=0.5*c0+0.5*c1"@)) } else { None },
                    AudioChannels::Stereo => if n == 2 { Some(base) } else if n == 1 { Some(base.push("pan=stereo|c0=c0|c1=c0"@)) } else { None },
                }
            },
            _ => None,
        }
    }
}


impl AudioExportOptions {
    /// Filters applied before any analysis or encoding of the selected audio.
    pub fn filters(self, channels: Option<u16>) -> (r: Result<Vec<String>, ExportError>)
        ensures
            r is Ok <==> audio_option_filters(self, channels) is Some,
            r matches Ok(v) ==> strings_view(v@) == audio_option_filters(self, channels).unwrap(),
            r matches Err(e) ==> e is Failed,
    {
        if let AudioNormalization::Loudness(target) = self.normalization {
            target.validate()?;
        }
        if self == (AudioExportOptions { normalization: AudioNormalization::Off, channels: AudioChannels::Keep }) {
            let r: Vec<String> = Vec::new();
            assert(strings_view(r@) =~= Seq::<Seq<char>>::empty());
            return Ok(r);
        }
        let count = match channels {
            Some(n) if n > 0 => n,
            _ => {
                return Err(ExportError::Failed(owned("Audio export options require an audio stream")));
            },
        };
        let mut filters: Vec<String> = Vec::new();
        filters.push(owned("aformat=sample_fmts=dbl"));
        let keep = match self.channels {
            AudioChannels::Keep => true,
            AudioChannels::Mono => count == 1,
            AudioChannels::Stereo => count == 2,
        };
        if !keep {
            if matches!(self.channels, AudioChannels::Mono) && count == 2 {
                filters.push(owned("pan=mono|c0=0.5*c0+0.5*c1"));
            } else if matches!(self.channels, AudioChannels::Stereo) && count == 1 {
                filters.push(owned("pan=stereo|c0=c0|c1=c0"));
            } else {
                return Err(ExportError::Failed(owned(
                    "Mono/stereo conversion requires a mono or stereo source; use Keep for multichannel audio",
                )));
            }
        }
        assert(strings_view(filters@) =~= audio_option_filters(self, channels).unwrap());
        Ok(filters)
    }
}

/// The value that one diagnostic line reports under `prefix` and `name`:
/// the line starts with `prefix`, the first `] ` ends the tag, and `name`
/// starts the rest.
pub open spec fn statistic(line: Seq<char>, prefix: Seq<char>, name: Seq<char>) -> Option<Seq<char>> {
    match strip_prefix(line, prefix) {
        Some(rest) => match after_first(rest, "] "@) {
            Some(tail) => strip_prefix(tail, name),
            None => None,
        },
        None => None,
    }
}

/// The values reported by `lines`, in order.
pub open spec fn statistics_of(lines: Seq<Seq<char>>, prefix: Seq<char>, name: Seq<char>) -> Seq<Seq<char>>
    decreases lines.len(),
{
    if lines.len() == 0 {
        Seq::empty()
    } else {
        let rest = statistics_of(lines.drop_last(), prefix, name);
        match statistic(lines.last(), prefix, name) {
            Some(v) => rest.push(v),
            None => rest,
        }
    }
}

/// A copy of `v[a..b]`.
pub fn sub_chars(v: &Vec<char>, a: usize, b: usize) -> (r: Vec<char>)
    requires
        a <= b <= v@.len(),
    ensures
        r@ == v@.subrange(a as int, b as int),
{
    let mut r: Vec<char> = Vec::new();
    let mut i = a;
    while i < b
        invariant
            a <= i <= b <= v@.len(),
            r@ == v@.subrange(a as int, i as int),
        decreases b - i,
    {
        r.push(v[i]);
        assert(r@ =~= v@.subrange(a as int, i as int + 1));
        i = i + 1;
    }
    r
}

fn line_statistic(line: &Vec<char>, prefix: &Vec<char>, name: &Vec<char>) -> (r: Option<Vec<char>>)
    ensures
        r matches Some(v) ==> statistic(line@, prefix@, name@) == Some(v@),
        r is None ==> statistic(line@, prefix@, name@) is None,
{
    if !matches_here(line, prefix, 0) {
        return None;
    }
    let rest = sub_chars(line, prefix.len(), line.len());
    assert(rest@ == line@.skip(prefix@.len() as int));
    let separator = chars_of("] ");
    match find_in(&rest, &separator, 0) {
        Some(k) => {
            let tail = sub_chars(&rest, k + separator.len(), rest.len());
            assert(tail@ =~= rest@.skip(k + separator@.len()));
            assert(strip_prefix(line@, prefix@) == Some(rest@));
            assert(separator@ == "] "@);
            assert(after_first(rest@, "] "@) == Some(tail@));
            if !matches_here(&tail, name, 0) {
                return None;
            }
            let value = sub_chars(&tail, name.len(), tail.len());
            assert(value@ =~= tail@.skip(name@.len() as int));
            Some(value)
        },
        None => None,
    }
}

/// Every value that the encoder's diagnostics report under a filter's
/// line prefix and a statistic's name, in order.
pub fn statistic_values(log: &str, prefix: &str, name: &str) -> (r: Vec<String>)
    ensures
        strings_view(r@) == statistics_of(split_lines(log@), prefix@, name@),
{
    let text = chars_of(log);
    let prefix = chars_of(prefix);
    let name = chars_of(name);
    let bounds = line_bounds(&text);
    let ghost lines = split_lines(text@);
    let mut r: Vec<String> = Vec::new();
    let mut i: usize = 0;
    while i < bounds.len()
        invariant
            i <= bounds@.len(),
            bounds@.len() == lines.len(),
            lines == split_lines(text@),
            forall|k: int| 0 <= k < bounds@.len() ==> {
                &&& (#[trigger] bounds@[k]).0 <= bounds@[k].1 <= text@.len()
                &&& text@.subrange(bounds@[k].0 as int, bounds@[k].1 as int) == lines[k]
            },
            strings_view(r@) == statistics_of(lines.take(i as int), prefix@, name@),
        decreases bounds@.len() - i,
    {
        let (a, b) = bounds[i];
        let line = sub_chars(&text, a, b);
        let ghost prev = r@;
        assert(lines.take(i as int + 1).drop_last() =~= lines.take(i as int));
        match line_statistic(&line, &prefix, &name) {
            Some(value) => {
                r.push(string_of(value.as_slice()));
                assert(strings_view(r@) =~= strings_view(prev).push(value@));
            },
            None => {},
        }
        i = i + 1;
    }
    assert(lines.take(lines.len() as int) =~= lines);
    r
}

/// The sample count reported by the counting filter: exactly one report
/// whose trimmed text is a positive `u64`.
pub open spec fn reported_sample_count(log: Seq<char>) -> Option<nat> {
    let values = statistics_of(split_lines(log), "[astats@towavue_count @ "@, "Number of samples: "@);
    if values.len() == 1 {
        match parse_unsigned(trim(values[0]), u64::MAX as nat) {
            Some(n) => if n > 0 { Some(n) } else { None },
            None => None,
        }
    } else {
        None
    }
}

/// Reads the sample count from the counting filter's diagnostics.
pub fn sample_count_from_statistics(log: &str) -> (r: Result<u64, ExportError>)
    ensures
        r is Ok <==> reported_sample_count(log@) is Some,
        r matches Ok(n) ==> reported_sample_count(log@) == Some(n as nat),
        r matches Err(e) ==> e is Failed,
{
    let values = statistic_values(log, "[astats@towavue_count @ ", "Number of samples: ");
    if values.len() != 1 {
        return Err(ExportError::Failed(owned("Audio sample-count analysis is empty, invalid or ambiguous")));
    }
    assert(strings_view(values@)[0] == values@[0]@);
    let text = chars_of(values[0].as_str());
    let (a, b) = trim_bounds(&text, 0, text.len());
    assert(text@.subrange(0, text@.len() as int) =~= text@);
    match parse_in(&text, a, b, u64::MAX) {
        Some(n) if n > 0 => Ok(n),
        _ => Err(ExportError::Failed(owned("Audio sample-count analysis is empty, invalid or ambiguous"))),
    }
}

} // verus!
