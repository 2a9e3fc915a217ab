use vstd::prelude::*;
use base64::Engine;
use crate::text::push_str;

verus! {

/// The instruction that asks a vision model for the text in the image.
pub const EXTRACT_PROMPT: &'static str = "Extrae cualquier texto visible en esta imagen. Responde únicamente con el texto extraído.";

/// The instruction that asks a vision model to translate the text in the
/// image.
pub const TRANSLATE_PROMPT: &'static str = "Traduce el texto en la imagen al español, solo responde con la traducción";

pub const GEMINI_MODEL: &'static str = "gemini-2.5-flash-lite";

pub const GEMINI_ENDPOINT_PREFIX: &'static str = "https://generativelanguage.googleapis.com/v1beta/models/";

pub const GEMINI_ENDPOINT_SUFFIX: &'static str = ":generateContent";

pub const OLLAMA_MODEL: &'static str = "gemma3:4b";

/// The media type of the encoded image sent to the services.
pub const IMAGE_MIME_TYPE: &'static str = "image/png";

/// Which instruction goes with the image.
#[derive(Clone, Copy, Debug, PartialEq, Eq, Structural)]
pub enum PromptMode {
    Extract,
    Translate,
}

pub open spec fn prompt_text(mode: PromptMode) -> Seq<char> {
    match mode {
        PromptMode::Extract => EXTRACT_PROMPT@,
        PromptMode::Translate => TRANSLATE_PROMPT@,
    }
}

fn prompt_for(mode: PromptMode) -> (r: String)
    ensures
        r@ == prompt_text(mode),
{
    match mode {
        PromptMode::Extract => EXTRACT_PROMPT.to_owned(),
        PromptMode::Translate => TRANSLATE_PROMPT.to_owned(),
    }
}

/// The standard padded base64 text of a byte string.
pub uninterp spec fn base64_of(b: Seq<u8>) -> Seq<char>;

/// Relies on base64's `STANDARD.encode`: padded base64 with the standard
/// alphabet, four characters for every started group of three bytes. It
/// panics only when that length would not fit in `usize`.
#[verifier::external_body]
fn encode_base64(b: &Vec<u8>) -> (r: String)
    requires
        b@.len() <= usize::MAX / 2,
    ensures
        r@ == base64_of(b@),
        r@.len() == 4 * ((b@.len() + 2) / 3),
{
    base64::engine::general_purpose::STANDARD.encode(b)
}

/// The image as the services take it: standard padded base64.
pub fn image_base64(image: &Vec<u8>) -> (r: String)
    requires
        image@.len() <= usize::MAX / 2,
    ensures
        r@ == base64_of(image@),
        r@.len() == 4 * ((image@.len() + 2) / 3),
{
    encode_base64(image)
}

/// A failure message sent as the last chunk of a job: a fixed prefix for
/// what failed, then the details.
pub fn failure_message(prefix: &str, detail: &str) -> (r: String)
    ensures
        r@ == prefix@ + detail@,
{
    let mut r = prefix.to_owned();
    push_str(&mut r, detail);
    r
}

/// What a single-shot request to the remote vision model carries: the
/// instruction, then the image with its media type.
pub struct GeminiRequestBody {
    pub prompt: String,
    pub mime_type: String,
    pub data: String,
}

/// What failed in a single-shot request.
#[derive(Clone, Copy, Debug, PartialEq, Eq, Structural)]
pub enum GeminiFailure {
    Network,
    Api,
    Decode,
}

pub const GEMINI_NETWORK_ERROR: &'static str = "[gemini.rs] Error de red: ";

pub const GEMINI_API_ERROR: &'static str = "[gemini.rs] Error de API: ";

pub const GEMINI_DECODE_ERROR: &'static str = "[gemini.rs] Error al decodificar JSON: ";

pub open spec fn gemini_failure_prefix(f: GeminiFailure) -> Seq<char> {
    match f {
        GeminiFailure::Network => GEMINI_NETWORK_ERROR@,
        GeminiFailure::Api => GEMINI_API_ERROR@,
        GeminiFailure::Decode => GEMINI_DECODE_ERROR@,
    }
}

/// Stands for an error body that could not be read.
pub const GEMINI_UNREADABLE_BODY: &'static str = "Cuerpo del error ilegible";

/// How a single-shot request ended.
pub enum GeminiOutcome {
    /// The request could not be sent, or no response came; the error's text.
    NetworkError(String),
    /// The service answered with an unsuccessful status: its text, and the
    /// body's text if it could be read.
    ApiError(String, Option<String>),
    /// A successful answer whose body did not decode; the error's text.
    DecodeError(String),
    /// A successful answer: the texts of the parts of each candidate.
    Answer(Vec<Vec<String>>),
}

pub open spec fn first_part(candidates: Seq<Vec<String>>) -> Seq<char> {
    if candidates.len() > 0 && candidates[0]@.len() > 0 {
        candidates[0]@[0]@
    } else {
        Seq::empty()
    }
}

/// The client of the remote single-shot vision model.
#[derive(Debug)]
pub struct GeminiClient {
    pub model: String,
    pub prompt: String,
}

impl GeminiClient {
    pub fn new() -> (r: GeminiClient)
        ensures
            r.model@ == GEMINI_MODEL@,
            r.prompt@ == EXTRACT_PROMPT@,
    {
        GeminiClient::with_mode(PromptMode::Extract)
    }

    pub fn with_mode(mode: PromptMode) -> (r: GeminiClient)
        ensures
            r.model@ == GEMINI_MODEL@,
            r.prompt@ == prompt_text(mode),
    {
        GeminiClient { model: GEMINI_MODEL.to_owned(), prompt: prompt_for(mode) }
    }

    /// The address of the model's content-generation call.
    pub fn endpoint(&self) -> (r: String)
        ensures
            r@ == GEMINI_ENDPOINT_PREFIX@ + self.model@ + GEMINI_ENDPOINT_SUFFIX@,
    {
        let mut r = GEMINI_ENDPOINT_PREFIX.to_owned();
        push_str(&mut r, self.model.as_str());
        push_str(&mut r, GEMINI_ENDPOINT_SUFFIX);
        r
    }

    /// The body of the request for an encoded image.
    pub fn request_body(&self, image: &Vec<u8>) -> (r: GeminiRequestBody)
        requires
            image@.len() <= usize::MAX / 2,
        ensures
            r.prompt@ == self.prompt@,
            r.mime_type@ == IMAGE_MIME_TYPE@,
            r.data@ == base64_of(image@),
    {
        GeminiRequestBody {
            prompt: self.prompt.clone(),
            mime_type: IMAGE_MIME_TYPE.to_owned(),
            data: image_base64(image),
        }
    }

    /// The answer in a response, given the texts of the parts of each
    /// candidate: the first part of the first candidate, or nothing when
    /// there is none.
    pub fn answer_text(candidates: &Vec<Vec<String>>) -> (r: String)
        ensures
            r@ == first_part(candidates@),
    {
        if candidates.len() > 0 && candidates[0].len() > 0 {
            candidates[0][0].clone()
        } else {
            String::new()
        }
    }

    /// The one chunk that a request sends: the answer, or a message that
    /// says what failed.
    pub fn outcome_chunk(outcome: &GeminiOutcome) -> (r: String)
        ensures
            match outcome {
                GeminiOutcome::NetworkError(d) => r@ == GEMINI_NETWORK_ERROR@ + d@,
                GeminiOutcome::ApiError(status, body) => r@ == GEMINI_API_ERROR@ + status@ + " - "@
                    + match body {
                    Some(b) => b@,
                    None => GEMINI_UNREADABLE_BODY@,
                },
                GeminiOutcome::DecodeError(d) => r@ == GEMINI_DECODE_ERROR@ + d@,
                GeminiOutcome::Answer(c) => r@ == first_part(c@),
            },
    {
        match outcome {
            GeminiOutcome::NetworkError(d) => GeminiClient::failure_chunk(GeminiFailure::Network, d.as_str()),
            GeminiOutcome::ApiError(status, body) => {
                let mut r = GeminiClient::failure_chunk(GeminiFailure::Api, status.as_str());
                push_str(&mut r, " - ");
                match body {
                    Some(b) => push_str(&mut r, b.as_str()),
                    None => push_str(&mut r, GEMINI_UNREADABLE_BODY),
                }
                r
            },
            GeminiOutcome::DecodeError(d) => GeminiClient::failure_chunk(GeminiFailure::Decode, d.as_str()),
            GeminiOutcome::Answer(c) => GeminiClient::answer_text(c),
        }
    }

    /// The chunk that reports a failure of the request.
    pub fn failure_chunk(failure: GeminiFailure, detail: &str) -> (r: String)
        ensures
            r@ == gemini_failure_prefix(failure) + detail@,
    {
        let prefix = match failure {
            GeminiFailure::Network => GEMINI_NETWORK_ERROR,
            GeminiFailure::Api => GEMINI_API_ERROR,
            GeminiFailure::Decode => GEMINI_DECODE_ERROR,
        };
        failure_message(prefix, detail)
    }
}

pub const OLLAMA_START_ERROR: &'static str = "[ollama.rs] No se pudo iniciar el stream: ";

pub const OLLAMA_STREAM_ERROR: &'static str = "[ollama.rs] Error en el stream: ";

/// What the streaming model's response did next.
pub enum StreamEvent {
    /// A batch of partial texts arrived.
    Texts(Vec<String>),
    /// The stream failed, for the reason given.
    Failed(String),
    /// The stream ended.
    Ended,
}

/// What to do about a stream event.
pub enum StreamAction {
    /// Send these chunks, in order, and go on reading; stop as soon as a
    /// send finds the receiver gone.
    Forward(Vec<String>),
    /// Send this last chunk, then stop.
    Report(String),
    /// Stop.
    Stop,
}

/// The client of the local streaming vision model.
#[derive(Debug)]
pub struct OllamaClient {
    pub model: String,
    pub prompt: String,
}

impl OllamaClient {
    pub fn new() -> (r: OllamaClient)
        ensures
            r.model@ == OLLAMA_MODEL@,
            r.prompt@ == EXTRACT_PROMPT@,
    {
        OllamaClient::with_mode(PromptMode::Extract)
    }

    pub fn with_mode(mode: PromptMode) -> (r: OllamaClient)
        ensures
            r.model@ == OLLAMA_MODEL@,
            r.prompt@ == prompt_text(mode),
    {
        OllamaClient { model: OLLAMA_MODEL.to_owned(), prompt: prompt_for(mode) }
    }

    /// The chunk that reports that the stream could not be started.
    pub fn start_failure_chunk(detail: &str) -> (r: String)
        ensures
            r@ == OLLAMA_START_ERROR@ + detail@,
    {
        failure_message(OLLAMA_START_ERROR, detail)
    }

    /// What to do about the next event of the stream: forward partial texts,
    /// report a failure once and stop, or stop at the end.
    pub fn next_action(event: StreamEvent) -> (r: StreamAction)
        ensures
            match event {
                StreamEvent::Texts(ts) => r matches StreamAction::Forward(f) && f@ == ts@,
                StreamEvent::Failed(d) => r matches StreamAction::Report(m) && m@
                    == OLLAMA_STREAM_ERROR@ + d@,
                StreamEvent::Ended => r is Stop,
            },
    {
        match event {
            StreamEvent::Texts(ts) => StreamAction::Forward(ts),
            StreamEvent::Failed(d) => StreamAction::Report(
                failure_message(OLLAMA_STREAM_ERROR, d.as_str()),
            ),
            StreamEvent::Ended => StreamAction::Stop,
        }
    }
}

} // verus!
