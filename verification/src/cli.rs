//! The options of a run.
use vstd::prelude::*;

verus! {

/// A choice of H.264 encoder.
#[derive(Clone, Copy, Debug, PartialEq, Eq, Structural)]
pub enum EncoderChoice {
    /// The first usable one, hardware encoders first.
    Auto,
    H264Nvenc,
    H264Qsv,
    H264Vaapi,
    H264Amf,
    Libx264,
    Libopenh264,
}

impl EncoderChoice {
    /// The name by which `ffmpeg` knows the encoder.
    pub open spec fn name(self) -> Seq<char> {
        match self {
            EncoderChoice::Auto => "auto"@,
            EncoderChoice::H264Nvenc => "h264_nvenc"@,
            EncoderChoice::H264Qsv => "h264_qsv"@,
            EncoderChoice::H264Vaapi => "h264_vaapi"@,
            EncoderChoice::H264Amf => "h264_amf"@,
            EncoderChoice::Libx264 => "libx264"@,
            EncoderChoice::Libopenh264 => "libopenh264"@,
        }
    }

    /// The name by which `ffmpeg` knows the encoder.
    pub fn ffmpeg_name(self) -> (r: &'static str)
        ensures
            r@ == self.name(),
    {
        match self {
            EncoderChoice::Auto => "auto",
            EncoderChoice::H264Nvenc => "h264_nvenc",
            EncoderChoice::H264Qsv => "h264_qsv",
            EncoderChoice::H264Vaapi => "h264_vaapi",
            EncoderChoice::H264Amf => "h264_amf",
            EncoderChoice::Libx264 => "libx264",
            EncoderChoice::Libopenh264 => "libopenh264",
        }
    }
}

/// What a run reads of a number of seconds.
#[derive(Clone, Copy, Debug, PartialEq, Eq, Structural)]
pub struct Seconds {
    /// Whether the number is finite and above zero.
    pub positive: bool,
    /// The number in milliseconds, rounded.
    pub millis: u64,
}

/// The options of a run, the paths among them as text.
#[derive(Debug)]
pub struct Cli {
    /// Audio file or directory to scan recursively.
    pub input: String,
    /// Directory for generated MP4 files.
    pub output_dir: String,
    /// Persistent incremental-render summary.
    pub summary: String,
    /// Output width in pixels.
    pub width: u32,
    /// Output height in pixels.
    pub height: u32,
    /// Encoded output frame rate.
    pub fps: u32,
    /// Unique visual frames rendered per second.
    pub visual_fps: u32,
    /// Number of radial spectrum bars.
    pub bars: usize,
    /// Mono sample rate used only for spectrum analysis.
    pub analysis_sample_rate: u32,
    /// FFT window size used by the spectrum analyzer.
    pub fft_size: usize,
    /// H.264 encoder.
    pub encoder: EncoderChoice,
    /// Video quality from 0 (best) to 51 (smallest).
    pub quality: u8,
    /// Encoder-specific speed preset.
    pub preset: Option<String>,
    /// AAC bitrate in FFmpeg notation.
    pub audio_bitrate: String,
    /// Number of videos rendered concurrently.
    pub jobs: usize,
    /// Render even when the summary says an output is current.
    pub overwrite: bool,
    /// Hide the header and track title.
    pub no_title: bool,
    /// Render at most this much of each track.
    pub max_duration: Option<Seconds>,
    /// Process only the first tracks, this many.
    pub limit: Option<usize>,
    /// List the tracks without writing anything.
    pub dry_run: bool,
    /// Refresh the summary without rendering video.
    pub summary_only: bool,
    /// Suppress normal progress output.
    pub quiet: bool,
}

impl Default for Cli {
    /// The options of a run without arguments: 1440p at 60 frames per second.
    fn default() -> (r: Cli)
        ensures
            r.input@ == "AudioClip"@,
            r.output_dir@ == "outputs"@,
            r.summary@ == "render-summary.json"@,
            r.width == 2560,
            r.height == 1440,
            r.fps == 60,
            r.visual_fps == 24,
            r.bars == 72,
            r.analysis_sample_rate == 12_000,
            r.fft_size == 2_048,
            r.encoder == EncoderChoice::Auto,
            r.quality == 18,
            r.preset is None,
            r.audio_bitrate@ == "320k"@,
            r.jobs == 2,
            !r.overwrite,
            !r.no_title,
            r.max_duration is None,
            r.limit is None,
            !r.dry_run,
            !r.summary_only,
            !r.quiet,
    {
        Cli {
            input: "AudioClip".to_owned(),
            output_dir: "outputs".to_owned(),
            summary: "render-summary.json".to_owned(),
            width: 2560,
            height: 1440,
            fps: 60,
            visual_fps: 24,
            bars: 72,
            analysis_sample_rate: 12_000,
            fft_size: 2_048,
            encoder: EncoderChoice::Auto,
            quality: 18,
            preset: None,
            audio_bitrate: "320k".to_owned(),
            jobs: 2,
            overwrite: false,
            no_title: false,
            max_duration: None,
            limit: None,
            dry_run: false,
            summary_only: false,
            quiet: false,
        }
    }
}

/// No two choices have the same name.
pub proof fn law_encoder_names_differ(a: EncoderChoice, b: EncoderChoice)
    ensures
        a.name() == b.name() ==> a == b,
{
    reveal_strlit("auto");
    reveal_strlit("h264_nvenc");
    reveal_strlit("h264_qsv");
    reveal_strlit("h264_vaapi");
    reveal_strlit("h264_amf");
    reveal_strlit("libx264");
    reveal_strlit("libopenh264");
    assert(a.name().len() == b.name().len() ==> a == b || a.name()[5] != b.name()[5]);
}

/// The name of an encoder says what it is: the hardware encoders are those of a
/// vendor or an interface behind `h264_`, the others libraries behind `lib`.
pub proof fn law_encoder_names(choice: EncoderChoice, name: &'static str)
    requires
        call_ensures(EncoderChoice::ffmpeg_name, (choice,), name),
    ensures
        choice is Auto <==> name@ == "auto"@,
        choice is H264Nvenc <==> name@ == "h264_"@ + "nvenc"@,
        choice is H264Qsv <==> name@ == "h264_"@ + "qsv"@,
        choice is H264Vaapi <==> name@ == "h264_"@ + "vaapi"@,
        choice is H264Amf <==> name@ == "h264_"@ + "amf"@,
        choice is Libx264 <==> name@ == "lib"@ + "x264"@,
        choice is Libopenh264 <==> name@ == "lib"@ + "openh264"@,
{
    reveal_strlit("h264_");
    reveal_strlit("nvenc");
    reveal_strlit("qsv");
    reveal_strlit("vaapi");
    reveal_strlit("amf");
    reveal_strlit("lib");
    reveal_strlit("x264");
    reveal_strlit("openh264");
    reveal_strlit("auto");
    reveal_strlit("h264_nvenc");
    reveal_strlit("h264_qsv");
    reveal_strlit("h264_vaapi");
    reveal_strlit("h264_amf");
    reveal_strlit("libx264");
    reveal_strlit("libopenh264");
    assert("h264_nvenc"@ =~= "h264_"@ + "nvenc"@);
    assert("h264_qsv"@ =~= "h264_"@ + "qsv"@);
    assert("h264_vaapi"@ =~= "h264_"@ + "vaapi"@);
    assert("h264_amf"@ =~= "h264_"@ + "amf"@);
    assert("libx264"@ =~= "lib"@ + "x264"@);
    assert("libopenh264"@ =~= "lib"@ + "openh264"@);
    law_encoder_names_differ(choice, EncoderChoice::Auto);
    law_encoder_names_differ(choice, EncoderChoice::H264Nvenc);
    law_encoder_names_differ(choice, EncoderChoice::H264Qsv);
    law_encoder_names_differ(choice, EncoderChoice::H264Vaapi);
    law_encoder_names_differ(choice, EncoderChoice::H264Amf);
    law_encoder_names_differ(choice, EncoderChoice::Libx264);
    law_encoder_names_differ(choice, EncoderChoice::Libopenh264);
}

/// Without arguments a run renders all tracks of the clips that are not current, in full
/// and two at a time, with titles, and tells of it.
pub proof fn law_run_without_arguments_renders_all(cli: Cli)
    requires
        call_ensures(Cli::default, (), cli),
    ensures
        cli.input@ == "AudioClip"@,
        cli.output_dir@ == "outputs"@,
        cli.summary@ == "render-summary.json"@,
        cli.limit is None && cli.max_duration is None,
        !cli.overwrite && !cli.dry_run && !cli.summary_only && !cli.quiet && !cli.no_title,
        cli.jobs == 2,
        (cli.width, cli.height, cli.fps) == (2560u32, 1440u32, 60u32),
        (cli.visual_fps, cli.bars) == (24u32, 72usize),
        (cli.analysis_sample_rate, cli.fft_size) == (12_000u32, 2_048usize),
        (cli.encoder, cli.quality) == (EncoderChoice::Auto, 18u8),
        cli.preset is None,
        cli.audio_bitrate@ == "320k"@,
{
}

} // verus!
