//! The request pipeline: validate the uploaded audio, build the engine
//! invocation, and interpret the engine's outcome. Every failure mode is a
//! distinct variant of [`TranscribeError`]; the caller-facing message and
//! status class of each are fixed here.
//!
//! The process work itself (file checks, spawning, piping) is I/O and lives
//! with the caller; everything decidable from plain values is decided here.

use vstd::prelude::*;

use crate::captions::{parse_captions, parsed_segments, segment_models, Segment};
use crate::text::split_at_char;
use crate::wav::{matches_required_profile, read_wav_header, required_profile, wav_header_of,
    WavFormat};

verus! {

/// Every way a transcription request can fail, each mapped to its own
/// outward-facing error.
#[derive(Debug)]
pub enum TranscribeError {
    /// The request carried no audio bytes.
    NoAudioProvided,
    /// The audio bytes are not a well-formed waveform container; carries
    /// the parser's diagnostic.
    InvalidAudioFormat(String),
    /// The container is well formed but not mono 16-bit 16 kHz; carries
    /// the observed profile.
    UnsupportedAudioProfile(WavFormat),
    /// The selected model file does not exist; carries the model filename.
    ModelNotFound(String),
    /// The engine executable does not exist; carries its path.
    EngineNotFound(String),
    /// The engine executable lacks execute permission; carries its path.
    EngineNotExecutable(String),
    /// Spawning the engine process failed; carries the OS diagnostic.
    SpawnFailed(String),
    /// Writing the audio to the engine's input failed; carries the
    /// diagnostic.
    EngineWriteFailed(String),
    /// The engine exited non-zero; carries its standard-error text.
    EngineExecutionFailed(String),
}

/// The errors caused by the caller's input; all others are environment or
/// configuration defects.
pub open spec fn caller_fault(e: TranscribeError) -> bool {
    e is NoAudioProvided || e is InvalidAudioFormat || e is UnsupportedAudioProfile
}

/// The caller-facing message of each error.
pub open spec fn error_text(e: TranscribeError) -> Seq<char> {
    match e {
        TranscribeError::NoAudioProvided => "No WAV file provided"@,
        TranscribeError::InvalidAudioFormat(d) => "Invalid WAV format: "@ + d@,
        TranscribeError::UnsupportedAudioProfile(_) => "WAV must be mono, 16-bit, 16 kHz"@,
        TranscribeError::ModelNotFound(name) => "Model file "@ + name@
            + " not found in ./models"@,
        TranscribeError::EngineNotFound(p) => "Whisper-cli binary not found at "@ + p@,
        TranscribeError::EngineNotExecutable(p) => "Whisper-cli binary at "@ + p@
            + " is not executable"@,
        TranscribeError::SpawnFailed(d) => "Failed to spawn whisper-cli command: "@ + d@,
        TranscribeError::EngineWriteFailed(d) => "Failed to write to stdin: "@ + d@,
        TranscribeError::EngineExecutionFailed(d) => "Transcription failed: "@ + d@,
    }
}

impl TranscribeError {
    /// Whether this error is reported as a bad request rather than an
    /// internal error.
    pub fn is_caller_fault(&self) -> (b: bool)
        ensures
            b == caller_fault(*self),
    {
        match self {
            TranscribeError::NoAudioProvided => true,
            TranscribeError::InvalidAudioFormat(_) => true,
            TranscribeError::UnsupportedAudioProfile(_) => true,
            _ => false,
        }
    }

    /// The HTTP status the error class maps to: 400 for caller input
    /// defects, 500 for environment defects.
    pub fn http_status(&self) -> (s: u16)
        ensures
            s == if caller_fault(*self) {
                400u16
            } else {
                500u16
            },
    {
        if self.is_caller_fault() {
            400
        } else {
            500
        }
    }

    /// The caller-facing message.
    pub fn message(&self) -> (r: String)
        ensures
            r@ == error_text(*self),
    {
        match self {
            TranscribeError::NoAudioProvided => String::from_str("No WAV file provided"),
            TranscribeError::InvalidAudioFormat(d) => String::from_str("Invalid WAV format: ")
                .concat(d.as_str()),
            TranscribeError::UnsupportedAudioProfile(_) => String::from_str(
                "WAV must be mono, 16-bit, 16 kHz",
            ),
            TranscribeError::ModelNotFound(name) => String::from_str("Model file ").concat(
                name.as_str(),
            ).concat(" not found in ./models"),
            TranscribeError::EngineNotFound(p) => String::from_str(
                "Whisper-cli binary not found at ",
            ).concat(p.as_str()),
            TranscribeError::EngineNotExecutable(p) => String::from_str("Whisper-cli binary at ")
                .concat(p.as_str()).concat(" is not executable"),
            TranscribeError::SpawnFailed(d) => String::from_str(
                "Failed to spawn whisper-cli command: ",
            ).concat(d.as_str()),
            TranscribeError::EngineWriteFailed(d) => String::from_str("Failed to write to stdin: ")
                .concat(d.as_str()),
            TranscribeError::EngineExecutionFailed(d) => String::from_str("Transcription failed: ")
                .concat(d.as_str()),
        }
    }
}

/// The pipeline's configuration, passed in explicitly so the pipeline can
/// be exercised with any paths.
pub struct Pipeline {
    /// Path of the engine executable.
    pub engine_path: String,
    /// Directory holding the model files.
    pub models_dir: String,
    /// Target-language code handed to the engine.
    pub language: String,
    /// Model filename used when the request names none.
    pub default_model: String,
}

/// Everything a validated request needs to invoke the engine.
#[derive(Debug)]
pub struct EnginePlan {
    /// The model filename the request resolved to.
    pub model_filename: String,
    /// That file's path inside the models directory.
    pub model_path: String,
    /// The engine's full argument list.
    pub args: Vec<String>,
}

/// The fixed argument shape of the engine invocation:
/// `-m <model_path> -f - -l <language> -ovtt -of -`.
pub open spec fn engine_args_ok(args: Seq<String>, model_path: Seq<char>, language: Seq<char>)
    -> bool {
    args.len() == 9 && args[0]@ == "-m"@ && args[1]@ == model_path && args[2]@ == "-f"@
        && args[3]@ == "-"@ && args[4]@ == "-l"@ && args[5]@ == language && args[6]@ == "-ovtt"@
        && args[7]@ == "-of"@ && args[8]@ == "-"@
}

/// The model filename a request resolves to: the named one, or the default.
pub open spec fn resolved_model(model_name: Option<String>, default_model: Seq<char>)
    -> Seq<char> {
    match model_name {
        Some(n) => n@,
        None => default_model,
    }
}

impl Pipeline {
    pub fn new(engine_path: String, models_dir: String, language: String, default_model: String)
        -> (p: Pipeline)
        ensures
            p.engine_path@ == engine_path@,
            p.models_dir@ == models_dir@,
            p.language@ == language@,
            p.default_model@ == default_model@,
    {
        Pipeline { engine_path, models_dir, language, default_model }
    }

    /// The path of a model file inside the models directory.
    pub fn model_path(&self, filename: &String) -> (r: String)
        ensures
            r@ == self.models_dir@ + seq!['/'] + filename@,
    {
        proof {
            reveal_strlit("/");
            assert("/"@ =~= seq!['/']);
        }
        let mut p = self.models_dir.clone();
        p.append("/");
        p.append(filename.as_str());
        p
    }

    /// The engine's fixed argument list for a model path.
    pub fn engine_args(&self, model_path: &String) -> (r: Vec<String>)
        ensures
            engine_args_ok(r@, model_path@, self.language@),
    {
        let mut args: Vec<String> = Vec::new();
        args.push(String::from_str("-m"));
        args.push(model_path.clone());
        args.push(String::from_str("-f"));
        args.push(String::from_str("-"));
        args.push(String::from_str("-l"));
        args.push(self.language.clone());
        args.push(String::from_str("-ovtt"));
        args.push(String::from_str("-of"));
        args.push(String::from_str("-"));
        args
    }

    /// Validate a request and build the engine invocation: an empty upload
    /// is rejected first, then a malformed container, then a profile other
    /// than mono 16-bit 16 kHz; otherwise the model name (or the default)
    /// is resolved to a path and the argument list is fixed. No file or
    /// process interaction happens here, so a rejected request has cost
    /// nothing.
    pub fn transcribe_plan(&self, audio: &Vec<u8>, model_name: Option<String>) -> (r: Result<
        EnginePlan,
        TranscribeError,
    >)
        ensures
            audio@.len() == 0 ==> r == Err::<EnginePlan, TranscribeError>(
                TranscribeError::NoAudioProvided,
            ),
            audio@.len() > 0 && wav_header_of(audio@) is None ==> r is Err && r->Err_0
                is InvalidAudioFormat,
            audio@.len() > 0 && wav_header_of(audio@) is Some ==> ({
                let h = wav_header_of(audio@)->Some_0;
                let observed = WavFormat { channels: h.0, sample_rate: h.1, bits_per_sample: h.2 };
                if !required_profile(observed) {
                    r == Err::<EnginePlan, TranscribeError>(
                        TranscribeError::UnsupportedAudioProfile(observed),
                    )
                } else {
                    r is Ok && {
                        let plan = r->Ok_0;
                        let filename = resolved_model(model_name, self.default_model@);
                        plan.model_filename@ == filename && plan.model_path@ == self.models_dir@
                            + seq!['/'] + filename && engine_args_ok(
                            plan.args@,
                            plan.model_path@,
                            self.language@,
                        )
                    }
                }
            }),
    {
        if audio.len() == 0 {
            return Err(TranscribeError::NoAudioProvided);
        }
        match read_wav_header(audio) {
            Err(d) => Err(TranscribeError::InvalidAudioFormat(d)),
            Ok((channels, sample_rate, bits_per_sample)) => {
                let format = WavFormat { channels, sample_rate, bits_per_sample };
                if !matches_required_profile(&format) {
                    return Err(TranscribeError::UnsupportedAudioProfile(format));
                }
                let filename = match model_name {
                    Some(n) => n,
                    None => self.default_model.clone(),
                };
                let model_path = self.model_path(&filename);
                let args = self.engine_args(&model_path);
                Ok(EnginePlan { model_filename: filename, model_path, args })
            },
        }
    }

    /// Interpret the engine's outcome: on exit status zero the captured
    /// output is parsed into segments (an empty output is an empty list,
    /// not an error); on a non-zero status the captured standard-error
    /// text is reported verbatim.
    pub fn interpret_engine_output(&self, status_zero: bool, stdout: &str, stderr: String) -> (r:
        Result<Vec<Segment>, TranscribeError>)
        ensures
            status_zero ==> r is Ok && segment_models(r->Ok_0@) == parsed_segments(
                split_at_char(stdout@, '\n'),
            ),
            !status_zero ==> r == Err::<Vec<Segment>, TranscribeError>(
                TranscribeError::EngineExecutionFailed(stderr),
            ),
    {
        if status_zero {
            Ok(parse_captions(stdout))
        } else {
            Err(TranscribeError::EngineExecutionFailed(stderr))
        }
    }
}

} // verus!
