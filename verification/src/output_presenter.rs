//! The settings of an audio file output: its codec, sample rate, channel layout and
//! file, with the codecs and sample rates that can be chosen.
use vstd::prelude::*;

use crate::text;

verus! {

pub const DEFAULT_CODEC: &'static str = "flac";

pub const CODECS_LABELS: [&'static str; 6] = [
    "FLAC",
    "MP3",
    "Ogg Vorbis",
    "Opus",
    "WAV 16-bit",
    "WAV 24-bit",
];

pub const CODECS_NAMES: [&'static str; 6] = [
    DEFAULT_CODEC,
    "libmp3lame",
    "libvorbis",
    "libopus",
    "pcm_s16le",
    "pcm_s24le",
];

pub const CODEC_CONTAINERS_EXTENTIONS: [&'static str; 6] = [
    DEFAULT_CODEC,
    "mp3",
    "ogg",
    "opus",
    "wav",
    "wav",
];

pub const DEFAULT_SAMPLE_RATE: usize = 44100;

pub const SAMPLE_RATES: [&'static str; 9] = [
    "8000",
    "11025",
    "16000",
    "22050",
    "32000",
    "44100",
    "48000",
    "88200",
    "96000",
];

pub const DEFAULT_AUDIO_FILE_EXTENTION: &'static str = DEFAULT_CODEC;

/// The position of the first of `names` that is `name`, if one is.
pub open spec fn position_in(names: Seq<&'static str>, name: Seq<char>) -> Option<int> {
    if exists|i: int| 0 <= i < names.len() && (#[trigger] names[i])@ == name {
        Some(choose|i: int| 0 <= i < names.len() && (#[trigger] names[i])@ == name && forall|j: int|
            0 <= j < i ==> (#[trigger] names[j])@ != name)
    } else {
        None
    }
}

/// The position of the first of `names` that is `name`; the length of `names` when none is.
fn find(names: &[&'static str], name: &str) -> (r: usize)
    ensures
        r <= names@.len(),
        forall|j: int| 0 <= j < r ==> (#[trigger] names@[j])@ != name@,
        r < names@.len() ==> names@[r as int]@ == name@,
{
    let mut idx: usize = 0;
    while idx < names.len()
        invariant
            idx <= names@.len(),
            forall|j: int| 0 <= j < idx ==> (#[trigger] names@[j])@ != name@,
        decreases names@.len() - idx,
    {
        if text::str_eq(names[idx], name) {
            return idx;
        }
        idx = idx + 1;
    }
    idx
}

/// The position of the first of `names` that is `name`, if one is.
fn position(names: &[&'static str], name: &str) -> (r: Option<usize>)
    ensures
        match position_in(names@, name@) {
            Some(i) => r == Some(i as usize),
            None => r is None,
        },
{
    let i = find(names, name);
    if i < names.len() {
        assert(exists|k: int| 0 <= k < names@.len() && (#[trigger] names@[k])@ == name@);
        let ghost c = choose|k: int|
            0 <= k < names@.len() && (#[trigger] names@[k])@ == name@ && forall|j: int|
                0 <= j < k ==> (#[trigger] names@[j])@ != name@;
        assert(0 <= i < names@.len() && names@[i as int]@ == name@ && forall|j: int|
            0 <= j < i ==> (#[trigger] names@[j])@ != name@);
        assert(c == i) by {
            if c < i {
                assert(names@[c]@ != name@);
            }
            if c > i {
                assert(names@[i as int]@ != name@);
            }
        }
        Some(i)
    } else {
        assert forall|k: int| 0 <= k < names@.len() implies (#[trigger] names@[k])@ != name@ by {}
        None
    }
}


/// The settings of an audio file output.
pub struct OutputPresenter {
    id: u32,
    codec_name: String,
    sample_rate: usize,
    channel_layout: String,
    file_path: String,
}

impl OutputPresenter {
    pub fn new(
        id: u32,
        codec_name: &str,
        sample_rate: usize,
        channel_layout: &str,
        file_path: &str,
    ) -> (r: OutputPresenter)
        ensures
            r.spec_id() == id,
            r.spec_codec_name() == codec_name@,
            r.spec_sample_rate() == sample_rate,
            r.spec_channel_layout() == channel_layout@,
            r.spec_file_path() == file_path@,
    {
        Self {
            id,
            codec_name: codec_name.to_owned(),
            sample_rate,
            channel_layout: channel_layout.to_owned(),
            file_path: file_path.to_owned(),
        }
    }

    pub closed spec fn spec_id(&self) -> u32 {
        self.id
    }

    pub closed spec fn spec_codec_name(&self) -> Seq<char> {
        self.codec_name@
    }

    pub closed spec fn spec_sample_rate(&self) -> usize {
        self.sample_rate
    }

    pub closed spec fn spec_channel_layout(&self) -> Seq<char> {
        self.channel_layout@
    }

    pub closed spec fn spec_file_path(&self) -> Seq<char> {
        self.file_path@
    }

    pub fn id(&self) -> (r: u32)
        ensures
            r == self.spec_id(),
    {
        self.id
    }

    pub fn codec_name(&self) -> (r: &str)
        ensures
            r@ == self.spec_codec_name(),
    {
        self.codec_name.as_str()
    }

    pub fn set_codec_name(&mut self, value: &str)
        ensures
            final(self).spec_codec_name() == value@,
            final(self).spec_id() == old(self).spec_id(),
            final(self).spec_sample_rate() == old(self).spec_sample_rate(),
            final(self).spec_channel_layout() == old(self).spec_channel_layout(),
            final(self).spec_file_path() == old(self).spec_file_path(),
    {
        self.codec_name = value.to_owned();
    }

    /// Whether the codec is one of [`CODECS_NAMES`].
    pub fn knows_codec(&self) -> (r: bool)
        ensures
            r == position_in(CODECS_NAMES@, self.spec_codec_name()) is Some,
    {
        position(&CODECS_NAMES, self.codec_name.as_str()).is_some()
    }

    /// The position of the codec in [`CODECS_NAMES`]; the first one's when it is not
    /// there.
    pub fn codec_index(&self) -> (r: usize)
        ensures
            r == match position_in(CODECS_NAMES@, self.spec_codec_name()) {
                Some(i) => i as usize,
                None => 0,
            },
    {
        match position(&CODECS_NAMES, self.codec_name.as_str()) {
            Some(i) => i,
            None => 0,
        }
    }

    pub fn sample_rate(&self) -> (r: usize)
        ensures
            r == self.spec_sample_rate(),
    {
        self.sample_rate
    }

    pub fn set_sample_rate(&mut self, value: usize)
        ensures
            final(self).spec_sample_rate() == value,
            final(self).spec_id() == old(self).spec_id(),
            final(self).spec_codec_name() == old(self).spec_codec_name(),
            final(self).spec_channel_layout() == old(self).spec_channel_layout(),
            final(self).spec_file_path() == old(self).spec_file_path(),
    {
        self.sample_rate = value;
    }

    /// Whether the sample rate, in decimal, is one of [`SAMPLE_RATES`].
    pub fn knows_sample_rate(&self) -> (r: bool)
        ensures
            r == position_in(SAMPLE_RATES@, crate::session::decimal_text(self.spec_sample_rate() as nat)) is Some,
    {
        let text = crate::session::decimal_string(self.sample_rate as u64);
        position(&SAMPLE_RATES, text.as_str()).is_some()
    }

    /// The position of the sample rate, in decimal, in [`SAMPLE_RATES`]; the first one's
    /// when it is not there.
    pub fn sample_rate_index(&self) -> (r: usize)
        ensures
            r == match position_in(SAMPLE_RATES@, crate::session::decimal_text(self.spec_sample_rate() as nat)) {
                Some(i) => i as usize,
                None => 0,
            },
    {
        let text = crate::session::decimal_string(self.sample_rate as u64);
        match position(&SAMPLE_RATES, text.as_str()) {
            Some(i) => i,
            None => 0,
        }
    }

    pub fn channel_layout(&self) -> (r: &str)
        ensures
            r@ == self.spec_channel_layout(),
    {
        self.channel_layout.as_str()
    }

    pub fn set_channel_layout(&mut self, value: &str)
        ensures
            final(self).spec_channel_layout() == value@,
            final(self).spec_id() == old(self).spec_id(),
            final(self).spec_codec_name() == old(self).spec_codec_name(),
            final(self).spec_sample_rate() == old(self).spec_sample_rate(),
            final(self).spec_file_path() == old(self).spec_file_path(),
    {
        self.channel_layout = value.to_owned();
    }

    pub fn file_path(&self) -> (r: &str)
        ensures
            r@ == self.spec_file_path(),
    {
        self.file_path.as_str()
    }

    pub fn set_file_path(&mut self, value: &str)
        ensures
            final(self).spec_file_path() == value@,
            final(self).spec_id() == old(self).spec_id(),
            final(self).spec_codec_name() == old(self).spec_codec_name(),
            final(self).spec_sample_rate() == old(self).spec_sample_rate(),
            final(self).spec_channel_layout() == old(self).spec_channel_layout(),
    {
        self.file_path = value.to_owned();
    }
}

} // verus!
