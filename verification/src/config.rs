//! The settings of a rendering, checked.
use vstd::prelude::*;

use crate::cli;
use crate::cli::{Cli, EncoderChoice};

verus! {

/// The settings of a rendering.
#[derive(Clone, Debug, PartialEq, Eq)]
pub struct RenderConfig {
    pub width: u32,
    pub height: u32,
    pub fps: u32,
    pub visual_fps: u32,
    pub bars: usize,
    pub analysis_sample_rate: u32,
    pub fft_size: usize,
    pub encoder: String,
    pub quality: u8,
    pub preset: Option<String>,
    pub audio_bitrate: String,
    pub show_title: bool,
}

/// What is wrong with the options of a run.
#[derive(Clone, Copy, Debug, PartialEq, Eq, Structural)]
pub enum ConfigError {
    SmallDimensions,
    OddDimensions,
    VisualFps,
    Bars,
    SampleRate,
    FftSize,
    Quality,
    Jobs,
    Limit,
    MaxDuration,
}

/// Whether `n` is a power of two.
pub open spec fn power_of_two(n: nat) -> bool
    decreases n,
{
    n == 1 || (n > 1 && n % 2 == 0 && power_of_two(n / 2))
}

/// The first fault of the options, in the order in which they are checked.
pub open spec fn first_fault(cli: Cli) -> Option<ConfigError> {
    if cli.width < 640 || cli.height < 360 {
        Some(ConfigError::SmallDimensions)
    } else if cli.width % 2 != 0 || cli.height % 2 != 0 {
        Some(ConfigError::OddDimensions)
    } else if !(1 <= cli.visual_fps <= cli.fps) {
        Some(ConfigError::VisualFps)
    } else if !(24 <= cli.bars <= 256) || cli.bars % 2 != 0 {
        Some(ConfigError::Bars)
    } else if !(4_000 <= cli.analysis_sample_rate <= 96_000) {
        Some(ConfigError::SampleRate)
    } else if !(256 <= cli.fft_size <= 8_192) || !power_of_two(cli.fft_size as nat) {
        Some(ConfigError::FftSize)
    } else if cli.quality > 51 {
        Some(ConfigError::Quality)
    } else if cli.jobs == 0 {
        Some(ConfigError::Jobs)
    } else if cli.limit == Some(0usize) {
        Some(ConfigError::Limit)
    } else if cli.max_duration matches Some(seconds) && !seconds.positive {
        Some(ConfigError::MaxDuration)
    } else {
        None
    }
}

impl RenderConfig {
    /// Whether the settings are within the limits that options are held to.
    pub open spec fn within_limits(self) -> bool {
        &&& self.width >= 640 && self.width % 2 == 0
        &&& self.height >= 360 && self.height % 2 == 0
        &&& 1 <= self.visual_fps <= self.fps
        &&& 24 <= self.bars <= 256 && self.bars % 2 == 0
        &&& 4_000 <= self.analysis_sample_rate <= 96_000
        &&& 256 <= self.fft_size <= 8_192 && power_of_two(self.fft_size as nat)
        &&& self.quality <= 51
    }

    /// Whether the settings are those that the options ask for.
    pub open spec fn follows(self, cli: Cli) -> bool {
        &&& self.width == cli.width
        &&& self.height == cli.height
        &&& self.fps == cli.fps
        &&& self.visual_fps == cli.visual_fps
        &&& self.bars == cli.bars
        &&& self.analysis_sample_rate == cli.analysis_sample_rate
        &&& self.fft_size == cli.fft_size
        &&& self.encoder@ == cli.encoder.name()
        &&& self.quality == cli.quality
        &&& self.preset == cli.preset
        &&& self.audio_bitrate == cli.audio_bitrate
        &&& self.show_title == !cli.no_title
    }

    /// The settings that the options ask for, or the first fault of the
    /// options.
    pub fn try_from(cli: &Cli) -> (r: Result<RenderConfig, ConfigError>)
        ensures
            match r {
                Ok(config) => first_fault(*cli) is None && config.follows(*cli)
                    && config.within_limits(),
                Err(error) => first_fault(*cli) == Some(error),
            },
    {
        if cli.width < 640 || cli.height < 360 {
            return Err(ConfigError::SmallDimensions);
        }
        if cli.width % 2 != 0 || cli.height % 2 != 0 {
            return Err(ConfigError::OddDimensions);
        }
        if cli.fps == 0 || cli.visual_fps == 0 || cli.visual_fps > cli.fps {
            return Err(ConfigError::VisualFps);
        }
        if cli.bars < 24 || cli.bars > 256 || cli.bars % 2 != 0 {
            return Err(ConfigError::Bars);
        }
        if cli.analysis_sample_rate < 4_000 || cli.analysis_sample_rate > 96_000 {
            return Err(ConfigError::SampleRate);
        }
        if cli.fft_size < 256 || cli.fft_size > 8_192 || !is_power_of_two(cli.fft_size) {
            return Err(ConfigError::FftSize);
        }
        if cli.quality > 51 {
            return Err(ConfigError::Quality);
        }
        if cli.jobs == 0 {
            return Err(ConfigError::Jobs);
        }
        if let Some(limit) = cli.limit {
            if limit == 0 {
                return Err(ConfigError::Limit);
            }
        }
        if let Some(seconds) = cli.max_duration {
            if !seconds.positive {
                return Err(ConfigError::MaxDuration);
            }
        }
        let preset: Option<String> = match &cli.preset {
            Some(preset) => Some(preset.clone()),
            None => None,
        };
        Ok(
            RenderConfig {
                width: cli.width,
                height: cli.height,
                fps: cli.fps,
                visual_fps: cli.visual_fps,
                bars: cli.bars,
                analysis_sample_rate: cli.analysis_sample_rate,
                fft_size: cli.fft_size,
                encoder: cli.encoder.ffmpeg_name().to_owned(),
                quality: cli.quality,
                preset,
                audio_bitrate: cli.audio_bitrate.clone(),
                show_title: !cli.no_title,
            },
        )
    }
}

impl ConfigError {
    /// The sentence that tells a user of the fault.
    pub open spec fn sentence(self) -> Seq<char> {
        match self {
            ConfigError::SmallDimensions => "video dimensions must be at least 640x360"@,
            ConfigError::OddDimensions => "video dimensions must be even for yuv420p output"@,
            ConfigError::VisualFps => "visual FPS must be between 1 and the output FPS"@,
            ConfigError::Bars => "bars must be an even number between 24 and 256"@,
            ConfigError::SampleRate => "analysis sample rate must be between 4000 and 96000 Hz"@,
            ConfigError::FftSize => "FFT size must be a power of two between 256 and 8192"@,
            ConfigError::Quality => "quality must be between 0 and 51"@,
            ConfigError::Jobs => "jobs must be positive"@,
            ConfigError::Limit => "limit must be positive"@,
            ConfigError::MaxDuration => "max duration must be positive"@,
        }
    }

    /// The sentence that tells a user of the fault.
    pub fn message(self) -> (r: &'static str)
        ensures
            r@ == self.sentence(),
    {
        match self {
            ConfigError::SmallDimensions => "video dimensions must be at least 640x360",
            ConfigError::OddDimensions => "video dimensions must be even for yuv420p output",
            ConfigError::VisualFps => "visual FPS must be between 1 and the output FPS",
            ConfigError::Bars => "bars must be an even number between 24 and 256",
            ConfigError::SampleRate => "analysis sample rate must be between 4000 and 96000 Hz",
            ConfigError::FftSize => "FFT size must be a power of two between 256 and 8192",
            ConfigError::Quality => "quality must be between 0 and 51",
            ConfigError::Jobs => "jobs must be positive",
            ConfigError::Limit => "limit must be positive",
            ConfigError::MaxDuration => "max duration must be positive",
        }
    }
}

/// Whether `n` is a power of two.
fn is_power_of_two(n: usize) -> (r: bool)
    ensures
        r == power_of_two(n as nat),
    decreases n,
{
    n == 1 || (n > 1 && n % 2 == 0 && is_power_of_two(n / 2))
}

/// The FFT size of settings that were stored without one.
pub fn default_fft_size() -> (r: usize)
    ensures
        r == 2_048,
{
    2_048
}

// ---------------------------------------------------------------------------
// Laws
// ---------------------------------------------------------------------------

/// Titles are shown exactly where they are not switched off, so that options which
/// differ in that give settings which differ in it.
pub proof fn law_titles_are_shown_unless_switched_off(
    cli: &Cli,
    config: RenderConfig,
    other_cli: &Cli,
    other: RenderConfig,
)
    requires
        call_ensures(RenderConfig::try_from, (cli,), Ok(config)),
        call_ensures(RenderConfig::try_from, (other_cli,), Ok(other)),
    ensures
        config.show_title <==> !cli.no_title,
        other.show_title <==> !other_cli.no_title,
        cli.no_title != other_cli.no_title <==> config.show_title != other.show_title,
{
}

/// Every setting is the one that was asked for.
pub proof fn law_settings_are_those_asked_for(cli: &Cli, config: RenderConfig, encoder: &'static str)
    requires
        call_ensures(RenderConfig::try_from, (cli,), Ok(config)),
        call_ensures(EncoderChoice::ffmpeg_name, (cli.encoder,), encoder),
    ensures
        (config.width, config.height) == (cli.width, cli.height),
        (config.fps, config.visual_fps) == (cli.fps, cli.visual_fps),
        config.bars == cli.bars,
        config.analysis_sample_rate == cli.analysis_sample_rate,
        config.fft_size == cli.fft_size,
        config.quality == cli.quality,
        config.encoder@ == encoder@,
        config.preset == cli.preset,
        config.audio_bitrate@ == cli.audio_bitrate@,
{
}

/// Options that differ in a setting give settings that differ in it.
pub proof fn law_settings_tell_options_apart(
    cli: &Cli,
    config: RenderConfig,
    other_cli: &Cli,
    other: RenderConfig,
)
    requires
        call_ensures(RenderConfig::try_from, (cli,), Ok(config)),
        call_ensures(RenderConfig::try_from, (other_cli,), Ok(other)),
        config == other,
    ensures
        cli.width == other_cli.width && cli.height == other_cli.height,
        cli.fps == other_cli.fps && cli.visual_fps == other_cli.visual_fps,
        cli.bars == other_cli.bars && cli.fft_size == other_cli.fft_size,
        cli.analysis_sample_rate == other_cli.analysis_sample_rate,
        cli.encoder == other_cli.encoder,
        cli.quality == other_cli.quality && cli.preset == other_cli.preset,
        cli.audio_bitrate == other_cli.audio_bitrate,
        cli.no_title == other_cli.no_title,
{
    cli::law_encoder_names_differ(cli.encoder, other_cli.encoder);
}

/// Whether options have a fault, whatever others they have.
pub open spec fn faulty(cli: Cli, error: ConfigError) -> bool {
    match error {
        ConfigError::SmallDimensions => !(640 <= cli.width && 360 <= cli.height),
        ConfigError::OddDimensions => cli.width % 2 == 1 || cli.height % 2 == 1,
        ConfigError::VisualFps => cli.visual_fps == 0 || cli.fps < cli.visual_fps,
        ConfigError::Bars => cli.bars < 24 || 256 < cli.bars || cli.bars % 2 == 1,
        ConfigError::SampleRate => cli.analysis_sample_rate < 4_000 || 96_000
            < cli.analysis_sample_rate,
        ConfigError::FftSize => !(seq![256, 512, 1_024, 2_048, 4_096, 8_192int].contains(
            cli.fft_size as int,
        )),
        ConfigError::Quality => 51 < cli.quality,
        ConfigError::Jobs => cli.jobs < 1,
        ConfigError::Limit => cli.limit matches Some(limit) && limit < 1,
        ConfigError::MaxDuration => cli.max_duration matches Some(seconds) && !seconds.positive,
    }
}

/// The place of a fault in the order in which faults are looked for.
pub open spec fn fault_place(error: ConfigError) -> int {
    match error {
        ConfigError::SmallDimensions => 1,
        ConfigError::OddDimensions => 2,
        ConfigError::VisualFps => 3,
        ConfigError::Bars => 4,
        ConfigError::SampleRate => 5,
        ConfigError::FftSize => 6,
        ConfigError::Quality => 7,
        ConfigError::Jobs => 8,
        ConfigError::Limit => 9,
        ConfigError::MaxDuration => 10,
    }
}

/// Options are accepted exactly where they have no fault. A fault that is reported
/// is there, and none that is looked for earlier is.
pub proof fn law_faultless_options_are_accepted(cli: &Cli, r: Result<RenderConfig, ConfigError>)
    requires
        call_ensures(RenderConfig::try_from, (cli,), r),
    ensures
        r is Ok <==> forall|error: ConfigError| !#[trigger] faulty(*cli, error),
        r matches Err(error) ==> faulty(*cli, error) && forall|earlier: ConfigError|
            fault_place(earlier) < fault_place(error) ==> !#[trigger] faulty(*cli, earlier),
{
    let sizes = seq![256, 512, 1_024, 2_048, 4_096, 8_192int];
    let size = cli.fft_size as int;
    assert(sizes[0] == 256 && sizes[1] == 512 && sizes[2] == 1_024);
    assert(sizes[3] == 2_048 && sizes[4] == 4_096 && sizes[5] == 8_192);
    lemma_sizes(cli.fft_size);
    assert(sizes.contains(size) == (256 <= size <= 8_192 && power_of_two(size as nat)));
    assert(forall|error: ConfigError|
        fault_place(error) < 7 ==> (error is SmallDimensions || error is OddDimensions
            || error is VisualFps || error is Bars || error is SampleRate || error is FftSize));
    if r is Err {
        assert(faulty(*cli, r->Err_0));
    } else {
        assert forall|error: ConfigError| !#[trigger] faulty(*cli, error) by {}
    }
}

/// The powers of two that a transform may have for its size.
proof fn lemma_sizes(n: usize)
    ensures
        256 <= n <= 8_192 && power_of_two(n as nat) <==> n == 256 || n == 512 || n == 1_024 || n
            == 2_048 || n == 4_096 || n == 8_192,
{
    reveal_with_fuel(power_of_two, 15);
}

/// No two faults are told of in the same words.
pub proof fn law_messages_differ(
    a: ConfigError,
    b: ConfigError,
    a_message: &'static str,
    b_message: &'static str,
)
    requires
        call_ensures(ConfigError::message, (a,), a_message),
        call_ensures(ConfigError::message, (b,), b_message),
        a_message@ == b_message@,
    ensures
        a == b,
{
    reveal_strlit("video dimensions must be at least 640x360");
    reveal_strlit("video dimensions must be even for yuv420p output");
    reveal_strlit("visual FPS must be between 1 and the output FPS");
    reveal_strlit("bars must be an even number between 24 and 256");
    reveal_strlit("analysis sample rate must be between 4000 and 96000 Hz");
    reveal_strlit("FFT size must be a power of two between 256 and 8192");
    reveal_strlit("quality must be between 0 and 51");
    reveal_strlit("jobs must be positive");
    reveal_strlit("limit must be positive");
    reveal_strlit("max duration must be positive");
    assert(a == b || a.sentence().len() != b.sentence().len());
}

/// The options of a run without arguments have no fault, and ask for the encoder
/// that works best and for titles.
pub proof fn law_default_options_are_accepted(cli: Cli, r: Result<RenderConfig, ConfigError>)
    requires
        call_ensures(Cli::default, (), cli),
        call_ensures(RenderConfig::try_from, (&cli,), r),
    ensures
        r matches Ok(config) && config.show_title && config.encoder@ == "auto"@ && (config.width,
            config.height, config.fps) == (2560u32, 1440u32, 60u32) && config.quality == 18
            && config.preset is None && config.audio_bitrate@ == "320k"@,
{
    lemma_sizes(cli.fft_size);
}

/// Settings that were stored without an FFT size have the one that runs have by default.
pub proof fn law_default_size_is_that_of_the_options(cli: Cli, r: usize)
    requires
        call_ensures(Cli::default, (), cli),
        call_ensures(default_fft_size, (), r),
    ensures
        r == cli.fft_size,
{
}

/// The message of a fault says what the options must be.
pub proof fn law_messages_say_what_must_be(error: ConfigError, r: &'static str)
    requires
        call_ensures(ConfigError::message, (error,), r),
    ensures
        error is SmallDimensions ==> r@ == "video dimensions must be at least 640x360"@,
        error is OddDimensions ==> r@ == "video dimensions must be even for yuv420p output"@,
        error is VisualFps ==> r@ == "visual FPS must be between 1 and the output FPS"@,
        error is Bars ==> r@ == "bars must be an even number between 24 and 256"@,
        error is SampleRate ==> r@ == "analysis sample rate must be between 4000 and 96000 Hz"@,
        error is FftSize ==> r@ == "FFT size must be a power of two between 256 and 8192"@,
        error is Quality ==> r@ == "quality must be between 0 and 51"@,
        error is Jobs ==> r@ == "jobs must be positive"@,
        error is Limit ==> r@ == "limit must be positive"@,
        error is MaxDuration ==> r@ == "max duration must be positive"@,
{
}

} // verus!
