//! Job and preset types, the preset catalog, and encoder argument lists.

use vstd::prelude::*;

verus! {

use crate::text::dec_str;
use crate::text::str_eq;
use crate::text::u64_to_string;
use vstd::string::StringExecFns;

/// Lifecycle of a job: queued on submission, ready once probed, processing
/// while the encoder runs, then completed or failed for good.
#[derive(Debug, Clone, Copy, PartialEq, Eq, Structural)]
pub enum JobStatus {
    Queued,
    Ready,
    Processing,
    Completed,
    Failed,
}

/// A status from which a job can only leave the store by an explicit clear.
pub open spec fn is_terminal(st: JobStatus) -> bool {
    st is Completed || st is Failed
}

/// A fixed bundle of encoder parameters.
#[derive(Debug, Clone)]
pub struct VideoPreset {
    pub name: String,
    pub description: String,
    pub video_codec: String,
    pub audio_codec: String,
    pub bitrate: Option<String>,
    pub crf: Option<u8>,
    pub scale: Option<String>,
}

/// One requested conversion: identity, paths, preset and live state.
/// `progress` is a whole percentage, 0 to 100; `duration_ms` is the probed
/// duration in milliseconds, when known.
#[derive(Debug, Clone)]
pub struct ConversionJob {
    pub id: String,
    pub input_path: String,
    pub output_path: String,
    pub preset: VideoPreset,
    pub status: JobStatus,
    pub progress: u32,
    pub duration_ms: Option<u64>,
    pub error: Option<String>,
    pub status_message: Option<String>,
    pub thumbnail_path: Option<String>,
}

/// Copies an optional string, preserving the value exactly.
pub(crate) fn clone_opt_string(o: &Option<String>) -> (r: Option<String>)
    ensures
        r == *o,
{
    match o {
        None => None,
        Some(s) => Some(s.clone()),
    }
}

impl VideoPreset {
    /// An exact copy; written out so the copy is known equal to the source.
    pub fn duplicate(&self) -> (r: Self)
        ensures
            r == *self,
    {
        VideoPreset {
            name: self.name.clone(),
            description: self.description.clone(),
            video_codec: self.video_codec.clone(),
            audio_codec: self.audio_codec.clone(),
            bitrate: clone_opt_string(&self.bitrate),
            crf: self.crf,
            scale: clone_opt_string(&self.scale),
        }
    }
}

impl ConversionJob {
    /// An exact copy; written out so the copy is known equal to the source.
    pub fn duplicate(&self) -> (r: Self)
        ensures
            r == *self,
    {
        ConversionJob {
            id: self.id.clone(),
            input_path: self.input_path.clone(),
            output_path: self.output_path.clone(),
            preset: self.preset.duplicate(),
            status: self.status,
            progress: self.progress,
            duration_ms: self.duration_ms,
            error: clone_opt_string(&self.error),
            status_message: clone_opt_string(&self.status_message),
            thumbnail_path: clone_opt_string(&self.thumbnail_path),
        }
    }
}

/// The encoder arguments a preset stands for: codec pair, then the
/// quality, bitrate and scale options it carries, a streaming-friendly
/// layout for the `Web` preset, and the encoder speed preset.
pub open spec fn preset_args_spec(p: VideoPreset) -> Seq<Seq<char>> {
    seq!["-c:v"@, p.video_codec@, "-c:a"@, p.audio_codec@] + (match p.crf {
        Some(c) => seq!["-crf"@, dec_str(c as nat)],
        None => seq![],
    }) + (match p.bitrate {
        Some(b) => seq!["-b:v"@, b@],
        None => seq![],
    }) + (match p.scale {
        Some(s) => seq!["-vf"@, "scale="@ + s@],
        None => seq![],
    }) + (if p.name@ == "Web"@ {
        seq!["-movflags"@, "+faststart"@]
    } else {
        seq![]
    }) + seq!["-preset"@, "medium"@]
}

pub open spec fn string_views(v: Seq<String>) -> Seq<Seq<char>> {
    v.map_values(|s: String| s@)
}

impl VideoPreset {
    /// Renders this preset as the middle of an encoder command line.
    pub fn to_ffmpeg_args(&self) -> (r: Vec<String>)
        ensures
            string_views(r@) == preset_args_spec(*self),
    {
        let mut args: Vec<String> = Vec::new();
        args.push("-c:v".to_owned());
        args.push(self.video_codec.clone());
        args.push("-c:a".to_owned());
        args.push(self.audio_codec.clone());
        match &self.crf {
            Some(crf) => {
                args.push("-crf".to_owned());
                args.push(u64_to_string(*crf as u64));
            },
            None => {},
        }
        match &self.bitrate {
            Some(bitrate) => {
                args.push("-b:v".to_owned());
                args.push(bitrate.clone());
            },
            None => {},
        }
        match &self.scale {
            Some(scale) => {
                args.push("-vf".to_owned());
                let mut vf = "scale=".to_owned();
                vf.append(scale.as_str());
                args.push(vf);
            },
            None => {},
        }
        if str_eq(self.name.as_str(), "Web") {
            args.push("-movflags".to_owned());
            args.push("+faststart".to_owned());
        }
        args.push("-preset".to_owned());
        args.push("medium".to_owned());
        proof {
            assert(string_views(args@) =~= preset_args_spec(*self));
        }
        args
    }

    /// The fixed preset catalog, from highest quality to smallest output.
    pub fn get_presets() -> (r: Vec<VideoPreset>)
        ensures
            r@.len() == 4,
            r@[0].name@ == "High"@,
            r@[0].video_codec@ == "libx264"@,
            r@[0].audio_codec@ == "aac"@,
            r@[0].bitrate is None,
            r@[0].crf == Some(18u8),
            r@[0].scale is None,
            r@[1].name@ == "Balanced"@,
            r@[1].video_codec@ == "libx264"@,
            r@[1].audio_codec@ == "aac"@,
            r@[1].bitrate is None,
            r@[1].crf == Some(23u8),
            r@[1].scale is None,
            r@[2].name@ == "Web"@,
            r@[2].video_codec@ == "libx264"@,
            r@[2].audio_codec@ == "aac"@,
            r@[2].bitrate is Some && r@[2].bitrate.unwrap()@ == "2M"@,
            r@[2].crf == Some(28u8),
            r@[2].scale is None,
            r@[3].name@ == "Mobile"@,
            r@[3].video_codec@ == "libx264"@,
            r@[3].audio_codec@ == "aac"@,
            r@[3].bitrate is Some && r@[3].bitrate.unwrap()@ == "1M"@,
            r@[3].crf == Some(30u8),
            r@[3].scale is Some && r@[3].scale.unwrap()@ == "720:-1"@,
    {
        let mut presets: Vec<VideoPreset> = Vec::new();
        presets.push(
            VideoPreset {
                name: "High".to_owned(),
                description: "Best quality, larger file size. Ideal for archiving or further editing.".to_owned(),
                video_codec: "libx264".to_owned(),
                audio_codec: "aac".to_owned(),
                bitrate: None,
                crf: Some(18),
                scale: None,
            },
        );
        presets.push(
            VideoPreset {
                name: "Balanced".to_owned(),
                description: "Good balance between quality and file size. Perfect for most use cases.".to_owned(),
                video_codec: "libx264".to_owned(),
                audio_codec: "aac".to_owned(),
                bitrate: None,
                crf: Some(23),
                scale: None,
            },
        );
        presets.push(
            VideoPreset {
                name: "Web".to_owned(),
                description: "Optimized for web streaming. Fast start enabled, reasonable quality.".to_owned(),
                video_codec: "libx264".to_owned(),
                audio_codec: "aac".to_owned(),
                bitrate: Some("2M".to_owned()),
                crf: Some(28),
                scale: None,
            },
        );
        presets.push(
            VideoPreset {
                name: "Mobile".to_owned(),
                description: "Smaller file size for mobile devices. Reduced resolution and bitrate.".to_owned(),
                video_codec: "libx264".to_owned(),
                audio_codec: "aac".to_owned(),
                bitrate: Some("1M".to_owned()),
                crf: Some(30),
                scale: Some("720:-1".to_owned()),
            },
        );
        presets
    }
}

} // verus!
